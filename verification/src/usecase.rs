//! What is done with records: normalising the fields of a source row,
//! taking a source into the store, asking the store, and building the
//! queries that keep records in a relational store.

pub mod aggregate;
pub mod ingest;
pub mod normalize;
pub mod perf_runs_service;
pub mod query;
pub mod source;
