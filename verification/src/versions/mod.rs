//! Version extraction and manipulation for GitOps repositories.
pub mod apply;
pub mod config_diff;
pub mod conflict;
pub mod extract;
pub mod merge;
pub mod models;
pub mod snapshot;
pub mod laws;
