use viz_csv::numeric::{parse_decimal, Decimal};
use viz_csv::plot::{find_column, render_plot, PlotError, PlotPoint};
use viz_csv::table::{load_table, Column, Table};

fn whole(x: usize, m: u128) -> PlotPoint {
    PlotPoint { x, y: Decimal { neg: false, mantissa: m, scale: 0 } }
}

#[test]
fn plot_second_column() {
    let t = load_table("1 2\n3 4\n5 6\n").unwrap();
    let points = render_plot(&t, &"column_2".to_string()).unwrap();
    assert_eq!(points, vec![whole(0, 2), whole(1, 4), whole(2, 6)]);
}

#[test]
fn plot_has_one_point_per_row_in_order() {
    let t = load_table("9\n8\n7\n6\n").unwrap();
    let points = render_plot(&t, &"column_1".to_string()).unwrap();
    assert_eq!(points.len(), t.row_count);
    for (i, p) in points.iter().enumerate() {
        assert_eq!(p.x, i);
    }
}

#[test]
fn plot_absent_column_is_explicit_error() {
    let t = load_table("1 2\n3 4\n").unwrap();
    let e = render_plot(&t, &"column_9".to_string()).unwrap_err();
    assert_eq!(e, PlotError::NoSuchColumn);
}

#[test]
fn plot_on_empty_table_reports_absent_column() {
    let t = load_table("").unwrap();
    let e = render_plot(&t, &"column_1".to_string()).unwrap_err();
    assert_eq!(e, PlotError::NoSuchColumn);
}

#[test]
fn plot_non_numeric_cell_is_reported() {
    let t = load_table("a b\nc d\n").unwrap();
    let e = render_plot(&t, &"column_1".to_string()).unwrap_err();
    assert_eq!(e, PlotError::NotNumeric { row: 0 });
}

#[test]
fn plot_first_non_numeric_row_wins() {
    let t = load_table("1 2\nx 4\n5 6\n").unwrap();
    let e = render_plot(&t, &"column_1".to_string()).unwrap_err();
    assert_eq!(e, PlotError::NotNumeric { row: 1 });
}

#[test]
fn plot_decimal_values() {
    let t = load_table("1.5 -2.25\n").unwrap();
    let p1 = render_plot(&t, &"column_1".to_string()).unwrap();
    assert_eq!(p1[0].y, Decimal { neg: false, mantissa: 15, scale: 1 });
    let p2 = render_plot(&t, &"column_2".to_string()).unwrap();
    assert_eq!(p2[0].y, Decimal { neg: true, mantissa: 225, scale: 2 });
}

#[test]
fn parse_decimal_accepts_plain_forms() {
    assert_eq!(
        parse_decimal("007"),
        Some(Decimal { neg: false, mantissa: 7, scale: 0 })
    );
    assert_eq!(
        parse_decimal("-12"),
        Some(Decimal { neg: true, mantissa: 12, scale: 0 })
    );
    assert_eq!(
        parse_decimal("0.5"),
        Some(Decimal { neg: false, mantissa: 5, scale: 1 })
    );
}

#[test]
fn parse_decimal_rejects_malformed_text() {
    assert_eq!(parse_decimal(""), None);
    assert_eq!(parse_decimal("-"), None);
    assert_eq!(parse_decimal("."), None);
    assert_eq!(parse_decimal(".5"), None);
    assert_eq!(parse_decimal("5."), None);
    assert_eq!(parse_decimal("1.2.3"), None);
    assert_eq!(parse_decimal("1 2"), None);
    assert_eq!(parse_decimal("--1"), None);
    assert_eq!(parse_decimal("1e5"), None);
}

#[test]
fn parse_decimal_mantissa_bound() {
    assert_eq!(
        parse_decimal("340282366920938463463374607431768211455"),
        Some(Decimal { neg: false, mantissa: u128::MAX, scale: 0 })
    );
    assert_eq!(parse_decimal("340282366920938463463374607431768211456"), None);
}

#[test]
fn duplicate_names_plot_the_first_column() {
    let t = Table {
        columns: vec![
            Column { name: "a".to_string(), values: vec!["1".to_string()] },
            Column { name: "a".to_string(), values: vec!["2".to_string()] },
        ],
        row_count: 1,
    };
    assert_eq!(find_column(&t, &"a".to_string()), Some(0));
    let points = render_plot(&t, &"a".to_string()).unwrap();
    assert_eq!(points[0].y.mantissa, 1);
}
