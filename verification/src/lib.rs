//! Verified core of a flood-control project reporting pipeline.
//!
//! Raw tabular rows are validated, coerced into typed records, enriched with
//! derived metrics, repaired by per-province coordinate imputation, filtered
//! to a funding-year window, and aggregated into three ranked report tables
//! plus a dataset-wide summary. Monetary amounts and coordinates are held as
//! fixed-point decimals (six fractional digits) so that every arithmetic step
//! carries an exact contract.

pub mod dates;
pub mod derivation;
pub mod format;
pub mod impute;
pub mod laws;
pub mod menu;
pub mod metrics;
pub mod numbers;
pub mod parse;
pub mod pipeline;
pub mod records;
pub mod report1;
pub mod report2;
pub mod report3;
pub mod rows;
pub mod stats;
pub mod summary;
pub mod text;
pub mod validate;

