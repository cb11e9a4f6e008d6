//! A partial, read-only model of the Jupyter notebook JSON document format
//! (nbformat v4), with a small query API for pulling cell tags and output
//! MIME bundles out of code cells.

pub mod json;
pub mod laws;
pub mod query;
pub mod schema;
