//! Extraction of the `data-table` table of an HTML document, and its
//! rendering as CSV.

pub mod csv;
pub mod strings;
pub mod text;
pub mod document;
