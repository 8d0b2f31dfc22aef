//! Core of a small column-plotting viewer: a loader that parses
//! whitespace-delimited, headerless text into a named columnar table, a
//! numeric coercion step, a plot-point extractor, the application state
//! machine, the file-dialog filter, and a codec for the persisted part of
//! the state.

pub mod chars;
pub mod filter;
pub mod numeric;
pub mod persist;
pub mod plot;
pub mod split;
pub mod state;
pub mod table;
