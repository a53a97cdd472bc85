//! Values: text, numerals, measurements, records, filters and failures.

pub mod decimal;
pub mod digits;
pub mod numeral;
pub mod perf;
pub mod text;
