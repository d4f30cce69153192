//! Error types for promrail. Errors of outside libraries are carried as
//! their messages.
use vstd::prelude::*;
use crate::text::{cat, cat_views, join, join_strings};

verus! {

/// What can go wrong in a promotion.
pub enum PromrailError {
    GitNotFound(String),
    DirtyTree,
    EnvironmentNotFound { repo: String, env: String },
    RepoNotFound(String),
    ProtectedPath(String),
    NoFilesMatched,
    ConfigNotFound(String),
    ConfigInvalid(String),
    SameEnvironment(String),
    DuplicateFiles(Vec<String>),
    ReviewArtifactInvalid(String),
    Io(String),
    Git(String),
    Yaml(String),
    Json(String),
    Glob(String),
}

/// The message of an error.
pub open spec fn error_message(e: PromrailError) -> Seq<char> {
    match e {
        PromrailError::GitNotFound(p) => "Git repository not found at '"@ + p@ + "'"@,
        PromrailError::DirtyTree => "Git working tree has uncommitted changes.\n  Commit or stash your changes, or use --force to proceed anyway."@,
        PromrailError::EnvironmentNotFound { repo, env } => "Environment '"@ + env@
            + "' not found in repo '"@ + repo@ + "'"@,
        PromrailError::RepoNotFound(r) => "Repository '"@ + r@ + "' not found in config"@,
        PromrailError::ProtectedPath(p) => "Protected path cannot be modified: '"@ + p@ + "'"@,
        PromrailError::NoFilesMatched => "No files matched allowlist patterns"@,
        PromrailError::ConfigNotFound(p) => "Config file not found: '"@ + p@ + "'"@,
        PromrailError::ConfigInvalid(m) => "Config validation failed: "@ + m@,
        PromrailError::SameEnvironment(e) => "Source and destination are the same: '"@ + e@
            + "'"@,
        PromrailError::DuplicateFiles(files) => "Duplicate files found in multiple sources:\n  "@
            + join(files@.map_values(|f: String| f@), "\n  "@),
        PromrailError::ReviewArtifactInvalid(m) => "Invalid review artifact: "@ + m@,
        PromrailError::Io(m) => "IO error: "@ + m@,
        PromrailError::Git(m) => "Git error: "@ + m@,
        PromrailError::Yaml(m) => "YAML error: "@ + m@,
        PromrailError::Json(m) => "JSON error: "@ + m@,
        PromrailError::Glob(m) => "Glob pattern error: "@ + m@,
    }
}

impl PromrailError {
    /// The message shown for this error.
    pub fn message(&self) -> (r: String)
        ensures
            r@ == error_message(*self),
    {
        let r = match self {
            PromrailError::GitNotFound(p) => cat(&["Git repository not found at '", p.as_str(), "'"]),
            PromrailError::DirtyTree => cat(
                &[
                    "Git working tree has uncommitted changes.\n  Commit or stash your changes, or use --force to proceed anyway.",
                ],
            ),
            PromrailError::EnvironmentNotFound { repo, env } => cat(
                &["Environment '", env.as_str(), "' not found in repo '", repo.as_str(), "'"],
            ),
            PromrailError::RepoNotFound(r) => cat(&["Repository '", r.as_str(), "' not found in config"]),
            PromrailError::ProtectedPath(p) => cat(
                &["Protected path cannot be modified: '", p.as_str(), "'"],
            ),
            PromrailError::NoFilesMatched => cat(&["No files matched allowlist patterns"]),
            PromrailError::ConfigNotFound(p) => cat(&["Config file not found: '", p.as_str(), "'"]),
            PromrailError::ConfigInvalid(m) => cat(&["Config validation failed: ", m.as_str()]),
            PromrailError::SameEnvironment(e) => cat(
                &["Source and destination are the same: '", e.as_str(), "'"],
            ),
            PromrailError::DuplicateFiles(files) => {
                let joined = join_strings(files, "\n  ");
                cat(&["Duplicate files found in multiple sources:\n  ", joined.as_str()])
            },
            PromrailError::ReviewArtifactInvalid(m) => cat(&["Invalid review artifact: ", m.as_str()]),
            PromrailError::Io(m) => cat(&["IO error: ", m.as_str()]),
            PromrailError::Git(m) => cat(&["Git error: ", m.as_str()]),
            PromrailError::Yaml(m) => cat(&["YAML error: ", m.as_str()]),
            PromrailError::Json(m) => cat(&["JSON error: ", m.as_str()]),
            PromrailError::Glob(m) => cat(&["Glob pattern error: ", m.as_str()]),
        };
        proof {
            reveal_with_fuel(cat_views, 6);
        }
        r
    }
}

} // verus!
