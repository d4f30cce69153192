//! Verified core of a git-native GitOps promotion tool.
pub mod config;
pub mod error;
pub mod ext;
pub mod files;
pub mod git;
pub mod keyed;
pub mod order;
pub mod paths;
pub mod review;
pub mod text;
pub mod versions;
pub mod yaml;
pub mod commands;
pub mod audit;
pub mod cli;
pub mod config_doc;
pub mod display;
pub mod laws;
