//! Budget measurement, assertion and reporting utilities for Soroban
//! contracts, with machine-checked contracts.

pub mod text;

pub mod bits;
pub mod tracker;
pub mod measure;
pub mod bounds;
pub mod markdown;
pub mod checks;
pub mod urls;
pub mod filters;
pub mod assertion;
pub mod errors;
pub mod limits;
pub mod name_map;
pub mod summary;
pub mod config;
pub mod json;
pub mod validate;
pub mod output;
pub mod derivation;
pub mod transport;
pub mod plan;
pub mod csv_report;
