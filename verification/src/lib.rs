//! The core of a dashboard of performance test runs.
//!
//! Results of test runs arrive as rows of a CSV source. Each row is
//! normalised into a typed record, forgiving what exports make of numbers,
//! and taken into a store; a row that does not read is set aside with its
//! number and the cause, and never stops a run. The store answers listings
//! narrowed by a filter, look-ups by ordinal, a summary and the trend of
//! throughput over releases.
//!
//! Measurements are exact decimals with six places, so that every answer is
//! a matter of whole numbers: a comparison holds or does not, and a mean is
//! the sum divided by the count, cut toward zero.
//!
//! * [`domain`] holds the values: text, numerals, measurements, records,
//!   filters and failures.
//! * [`usecase`] holds what is done with them: normalising a record, reading
//!   a source, the store itself, and queries with bound values for keeping
//!   the records in a relational store.

pub mod domain;
pub mod usecase;
