//! Parsing and batched ingestion of nginx access-log lines.
//!
//! [`parser`] reads one line into a [`models::NewLog`]; [`batch`] groups raw lines into batches
//! of a configured size; [`persist`] turns a batch into the records to store in one
//! transaction and reports on it; [`series`] fills the gaps of a bucketed time series.
pub mod batch;
pub mod models;
pub mod options;
pub mod parser;
pub mod persist;
pub mod series;
pub mod text;
