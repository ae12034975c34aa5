//! A load-testing engine: it fans out a configured number of HTTP requests,
//! binds each to a data row, substitutes `${name}` placeholders into the
//! body template, classifies every outcome and aggregates the counts and
//! timings into summary statistics.
//!
//! The crate holds the logic of the tool: configuration and row models,
//! placeholder substitution, request building, outcome classification and
//! the aggregation arithmetic, each with a verified contract. The network
//! itself is reached only through the request descriptors this crate
//! builds, and what came back over the wire is handed in as plain values.

pub mod config;
pub mod data;
pub mod template;
pub mod request;
pub mod stats;
pub mod engine;
