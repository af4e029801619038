//! Merging delimited-text sources into one typed, filtered and sorted
//! sequence of records, under a declarative schema.
//!
//! The schema (`config`) names the columns and gives some of them a type.
//! Filters are sentences of a small boolean language over substring tests
//! (`grammar`, `parser`, `printing`), evaluated against raw rows (`filter`).
//! Rows that pass are typed (`records`, with `dates` and `naive_float`),
//! collected in ingestion order (`aggregate`) and sorted by one column, stably
//! (`sorting`). `pipeline` chains the steps.

pub mod aggregate;
pub mod config;
pub mod dates;
pub mod filter;
pub mod grammar;
pub mod naive_float;
pub mod order;
pub mod parser;
pub mod pipeline;
pub mod printing;
pub mod records;
pub mod sorting;
pub mod text;
