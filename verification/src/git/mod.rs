//! Git-side helpers: file diffs.
pub mod diff;
