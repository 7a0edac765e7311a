//! Case-insensitive lookup over a semicolon-delimited Unicode character table.
//!
//! The library scans a sequence of table rows, keeps every row that contains
//! a query string as a case-insensitive literal substring, extracts the first
//! two `;`-separated fields of each kept row (code point and character name),
//! and renders a kept row as a display line headed by the character itself.

pub mod pattern;
pub mod render;
pub mod rows;
