//! Review artifacts for multi-source promotion: what a promotion leaves for
//! a person to decide, and how the decisions are applied.
pub mod analyze;
pub mod apply;
pub mod models;
pub mod store;
pub mod grouping;
pub mod laws;
