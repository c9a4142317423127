//! An in-memory tabular query engine: filters, grouping, aggregation and
//! normalisation of a row set against a fixed column index.
pub mod value;
pub mod copy;
pub mod errors;
pub mod types;
pub mod dataset;
pub mod plan;
pub mod filters;
pub mod group_key;
pub mod aggregation;
pub mod execute;
pub mod ids;
pub mod laws;
pub mod secret;
