//! A streaming pretty-printer for tab-separated text: a first pass infers
//! per-column width and type (numeric or textual), a second pass renders the
//! rows as a column-aligned table with optional truncation, borders and
//! periodic header repetition.

pub mod column;
pub mod numeric;
pub mod render;
pub mod table;
pub mod text;
