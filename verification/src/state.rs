//! The application state and its transitions: one redraw tick only ever
//! moves the state through these functions.

use vstd::prelude::*;

use crate::table::{LoadError, Table};

verus! {

/// Everything the application holds between redraw ticks.
///
/// `opened_file` and `selected_column` are the persisted part; the loaded
/// table, the dialog flag and the last error are transient.
pub struct AppState {
    pub opened_file: Option<String>,
    pub selected_column: Option<String>,
    pub table: Option<Table>,
    pub dialog_open: bool,
    pub last_error: Option<LoadError>,
}

/// The all-empty state the application starts from.
pub open spec fn spec_init() -> AppState {
    AppState {
        opened_file: None,
        selected_column: None,
        table: None,
        dialog_open: false,
        last_error: None,
    }
}

/// Opening the file dialog only raises the dialog flag.
pub open spec fn spec_open_dialog(s: AppState) -> AppState {
    AppState { dialog_open: true, ..s }
}

/// Cancelling the dialog only lowers the flag: no other state changes.
pub open spec fn spec_cancel_dialog(s: AppState) -> AppState {
    AppState { dialog_open: false, ..s }
}

/// Confirming a file closes the dialog and records the chosen path; a
/// successfully loaded table replaces the old one and clears the last
/// error, a failed load leaves the old table untouched and records the
/// error instead.
pub open spec fn spec_apply_load(s: AppState, path: String, r: Result<Table, LoadError>) -> AppState {
    match r {
        Ok(t) => AppState {
            opened_file: Some(path),
            table: Some(t),
            last_error: None,
            dialog_open: false,
            ..s
        },
        Err(e) => AppState {
            opened_file: Some(path),
            last_error: Some(e),
            dialog_open: false,
            ..s
        },
    }
}

/// Selecting a column records the name and clears the last error; it does
/// not validate the name against the table (the plot step reports an
/// absent name explicitly).
pub open spec fn spec_select_column(s: AppState, name: String) -> AppState {
    AppState { selected_column: Some(name), last_error: None, ..s }
}

impl Default for AppState {
    /// The all-empty state.
    fn default() -> (s: Self)
        ensures
            s == spec_init(),
    {
        AppState {
            opened_file: None,
            selected_column: None,
            table: None,
            dialog_open: false,
            last_error: None,
        }
    }
}

impl AppState {
    /// Raise the dialog flag.
    pub fn open_dialog(&mut self)
        ensures
            *final(self) == spec_open_dialog(*old(self)),
    {
        self.dialog_open = true;
    }

    /// Lower the dialog flag, changing nothing else.
    pub fn cancel_dialog(&mut self)
        ensures
            *final(self) == spec_cancel_dialog(*old(self)),
    {
        self.dialog_open = false;
    }

    /// Record a confirmed path and the outcome of loading it.
    pub fn apply_load(&mut self, path: String, r: Result<Table, LoadError>)
        ensures
            *final(self) == spec_apply_load(*old(self), path, r),
    {
        self.dialog_open = false;
        match r {
            Ok(t) => {
                self.opened_file = Some(path);
                self.table = Some(t);
                self.last_error = None;
            },
            Err(e) => {
                self.opened_file = Some(path);
                self.last_error = Some(e);
            },
        }
    }

    /// Record the selected column name.
    pub fn select_column(&mut self, name: String)
        ensures
            *final(self) == spec_select_column(*old(self), name),
    {
        self.selected_column = Some(name);
        self.last_error = None;
    }
}

/// Selecting the same column twice is the same as selecting it once: the
/// state, and with it the plotted sequence of any table, is identical.
pub proof fn lemma_select_column_idempotent(s: AppState, name: String)
    ensures
        spec_select_column(spec_select_column(s, name), name) == spec_select_column(s, name),
{
}

/// A failed load keeps the previously loaded table and the previous
/// selection, and surfaces the error.
pub proof fn lemma_failed_load_keeps_table(s: AppState, path: String, e: LoadError)
    ensures
        spec_apply_load(s, path, Err(e)).table == s.table,
        spec_apply_load(s, path, Err(e)).selected_column == s.selected_column,
        spec_apply_load(s, path, Err(e)).last_error == Some(e),
{
}

/// Cancelling the dialog restores exactly the state from before it was
/// opened.
pub proof fn lemma_cancel_restores_state(s: AppState)
    requires
        !s.dialog_open,
    ensures
        spec_cancel_dialog(spec_open_dialog(s)) == s,
{
}

} // verus!
