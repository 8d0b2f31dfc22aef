use viz_csv::persist::{decode_persisted, encode_persisted};
use viz_csv::plot::render_plot;
use viz_csv::state::AppState;
use viz_csv::table::{load_table, LoadError};

#[test]
fn default_state_is_all_empty() {
    let s = AppState::default();
    assert_eq!(s.opened_file, None);
    assert_eq!(s.selected_column, None);
    assert!(s.table.is_none());
    assert!(!s.dialog_open);
    assert_eq!(s.last_error, None);
}

#[test]
fn open_then_cancel_leaves_state_unchanged() {
    let mut s = AppState::default();
    s.select_column("column_1".to_string());
    s.open_dialog();
    assert!(s.dialog_open);
    s.cancel_dialog();
    assert!(!s.dialog_open);
    assert_eq!(s.opened_file, None);
    assert_eq!(s.selected_column, Some("column_1".to_string()));
}

#[test]
fn successful_load_replaces_table_and_clears_error() {
    let mut s = AppState::default();
    s.open_dialog();
    s.apply_load("data.txt".to_string(), load_table("1 2\n3 4\n"));
    assert!(!s.dialog_open);
    assert_eq!(s.opened_file, Some("data.txt".to_string()));
    assert_eq!(s.last_error, None);
    assert_eq!(s.table.as_ref().unwrap().row_count, 2);
}

#[test]
fn failed_load_keeps_previous_table() {
    let mut s = AppState::default();
    s.apply_load("a.txt".to_string(), load_table("1 2\n"));
    s.select_column("column_2".to_string());
    s.apply_load("b.txt".to_string(), load_table("1 2\n3\n"));
    // the old table and the selection survive; the error is surfaced
    assert_eq!(s.opened_file, Some("b.txt".to_string()));
    assert_eq!(s.selected_column, Some("column_2".to_string()));
    assert_eq!(s.table.as_ref().unwrap().row_count, 1);
    assert_eq!(
        s.last_error,
        Some(LoadError::InconsistentRow { row: 1, expected: 2, found: 1 })
    );
}

#[test]
fn select_column_twice_plots_identically() {
    let mut s = AppState::default();
    s.apply_load("d.txt".to_string(), load_table("1 2\n3 4\n5 6\n"));
    s.select_column("column_2".to_string());
    let once = render_plot(
        s.table.as_ref().unwrap(),
        s.selected_column.as_ref().unwrap(),
    );
    s.select_column("column_2".to_string());
    let twice = render_plot(
        s.table.as_ref().unwrap(),
        s.selected_column.as_ref().unwrap(),
    );
    assert_eq!(once, twice);
    assert_eq!(s.selected_column, Some("column_2".to_string()));
}

#[test]
fn select_column_clears_last_error() {
    let mut s = AppState::default();
    s.apply_load("bad.txt".to_string(), load_table("1 2\n3\n"));
    assert!(s.last_error.is_some());
    s.select_column("column_1".to_string());
    assert_eq!(s.last_error, None);
}

#[test]
fn state_round_trips_through_persistence() {
    let mut s = AppState::default();
    s.apply_load("kept.csv".to_string(), load_table("1\n"));
    s.select_column("column_1".to_string());
    let blob = encode_persisted(&s.persisted());
    let restored = AppState::restore(decode_persisted(&blob));
    assert_eq!(restored.opened_file, Some("kept.csv".to_string()));
    assert_eq!(restored.selected_column, Some("column_1".to_string()));
    assert!(restored.table.is_none());
    assert!(!restored.dialog_open);
    assert_eq!(restored.last_error, None);
}
