use viz_csv::table::{load_table, LoadError};

#[test]
fn load_two_columns_three_rows() {
    let t = load_table("1 2\n3 4\n5 6\n").unwrap();
    assert_eq!(t.row_count, 3);
    assert_eq!(t.columns.len(), 2);
    let names = t.column_names();
    assert_eq!(names, vec!["column_1".to_string(), "column_2".to_string()]);
    assert_eq!(t.columns[0].values, vec!["1", "3", "5"]);
    assert_eq!(t.columns[1].values, vec!["2", "4", "6"]);
}

#[test]
fn load_empty_file_yields_empty_table() {
    let t = load_table("").unwrap();
    assert_eq!(t.row_count, 0);
    assert_eq!(t.columns.len(), 0);
    assert_eq!(t.column_names(), Vec::<String>::new());
}

#[test]
fn load_without_trailing_newline() {
    let t = load_table("1 2\n3 4").unwrap();
    assert_eq!(t.row_count, 2);
    assert_eq!(t.columns.len(), 2);
    assert_eq!(t.columns[1].values, vec!["2", "4"]);
}

#[test]
fn load_single_row() {
    let t = load_table("7\n").unwrap();
    assert_eq!(t.row_count, 1);
    assert_eq!(t.columns.len(), 1);
    assert_eq!(t.column_names(), vec!["column_1".to_string()]);
    assert_eq!(t.columns[0].values, vec!["7"]);
}

#[test]
fn load_inconsistent_row_is_reported() {
    let e = load_table("1 2\n3\n").unwrap_err();
    assert_eq!(e, LoadError::InconsistentRow { row: 1, expected: 2, found: 1 });
}

#[test]
fn load_first_inconsistent_row_wins() {
    let e = load_table("1 2\n3 4 5\n6\n").unwrap_err();
    assert_eq!(e, LoadError::InconsistentRow { row: 1, expected: 2, found: 3 });
}

#[test]
fn load_consecutive_spaces_give_empty_fields() {
    let t = load_table("a  b\n").unwrap();
    assert_eq!(t.columns.len(), 3);
    assert_eq!(t.columns[0].values, vec!["a"]);
    assert_eq!(t.columns[1].values, vec![""]);
    assert_eq!(t.columns[2].values, vec!["b"]);
}

#[test]
fn load_blank_interior_line_mismatches() {
    let e = load_table("1 2\n\n3 4\n").unwrap_err();
    assert_eq!(e, LoadError::InconsistentRow { row: 1, expected: 2, found: 1 });
}

#[test]
fn column_names_reach_two_digits() {
    let t = load_table("0 0 0 0 0 0 0 0 0 0 0 0\n").unwrap();
    assert_eq!(t.columns.len(), 12);
    let names = t.column_names();
    assert_eq!(names[9], "column_10");
    assert_eq!(names[11], "column_12");
}
