//! Text helpers: decimal numerals, substring search, and pieces of lines.

pub mod decimal;
pub mod slices;
