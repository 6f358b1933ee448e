//! Validation of property-listing JSON documents and the reports built from them.

pub mod text;
pub mod order;
pub mod json;
pub mod validate;
pub mod report;
pub mod cli;
pub mod properties;
pub mod issue_paths;
pub mod output_laws;
