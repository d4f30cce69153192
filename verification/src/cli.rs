//! The command line as the library sees it: the options and subcommands
//! after parsing, and the choice of configuration file.
use vstd::prelude::*;
use crate::error::PromrailError;

verus! {

/// How much the tool logs.
#[derive(PartialEq, Eq, Structural, Clone, Copy)]
pub enum LogLevel {
    Error,
    Warn,
    Info,
    Debug,
    Trace,
}

/// The name of a log level, as the command line writes it.
pub open spec fn level_name(l: LogLevel) -> Seq<char> {
    match l {
        LogLevel::Error => "error"@,
        LogLevel::Warn => "warn"@,
        LogLevel::Info => "info"@,
        LogLevel::Debug => "debug"@,
        LogLevel::Trace => "trace"@,
    }
}

impl LogLevel {
    /// The name of the level, as the command line writes it.
    pub fn name(&self) -> (r: &'static str)
        ensures
            r@ == level_name(*self),
    {
        match self {
            LogLevel::Error => "error",
            LogLevel::Warn => "warn",
            LogLevel::Info => "info",
            LogLevel::Debug => "debug",
            LogLevel::Trace => "trace",
        }
    }
}

/// Options of the tool; without a subcommand it promotes.
pub struct Cli {
    pub command: Option<Commands>,
    pub config: Option<String>,
    pub repo: Option<String>,
    pub log_level: LogLevel,
    pub source_vec: Vec<String>,
    pub dest: Option<String>,
    pub filter_vec: Vec<String>,
    pub no_delete: bool,
    pub dest_based: bool,
    pub dry_run: bool,
    pub confirm: bool,
    pub diff: bool,
    pub include_protected: bool,
    pub force: bool,
    pub allow_duplicates: bool,
    pub only_existing: bool,
    pub include_gitignored: bool,
}

/// Subcommands of the tool.
pub enum Commands {
    Diff {},
    Promote {},
    Validate {},
    Versions { command: VersionsCommands },
    Snapshot { command: SnapshotCommands },
    Config { command: ConfigCommands },
}

/// Subcommands about versions.
pub enum VersionsCommands {
    Extract { path: String, output: Option<String>, filter_vec: Vec<String> },
    Apply {
        file: String,
        path: String,
        component: Option<String>,
        check_conflicts: bool,
        snapshot: bool,
        dry_run: bool,
    },
    Diff { source: String, dest: String, filter_vec: Vec<String> },
    Merge { source_vec: Vec<String>, output: Option<String>, explain: bool },
}

/// Subcommands about snapshots.
pub enum SnapshotCommands {
    List { path: String },
    Show { id: String, path: String },
    Rollback { id: String, path: String },
    Delete { id: String, path: String },
}

/// Subcommands about configuration.
pub enum ConfigCommands {
    Show {},
    Example { output: Option<String> },
    Diff { source: String, dest: String, file: Option<String> },
}

/// The configuration files looked for, in order, when none is given.
pub open spec fn config_candidates() -> Seq<Seq<char>> {
    seq!["promrail.yaml"@, "promrail.yml"@, ".promrail.yaml"@, ".promrail.yml"@]
}

/// The configuration files looked for, in order, when none is given.
pub fn config_candidate_names() -> (r: Vec<&'static str>)
    ensures
        r@.map_values(|s: &str| s@) == config_candidates(),
{
    let r = vec!["promrail.yaml", "promrail.yml", ".promrail.yaml", ".promrail.yml"];
    assert(r@.map_values(|s: &str| s@) =~= config_candidates());
    r
}

/// Index of the first candidate that exists.
pub open spec fn first_existing(exists: Seq<bool>) -> Option<int>
    decreases exists.len(),
{
    if exists.len() == 0 {
        None
    } else if exists[0] {
        Some(0)
    } else {
        match first_existing(exists.drop_first()) {
            Some(i) => Some(i + 1),
            None => None,
        }
    }
}

/// The configuration file to load: the one given, else the first candidate
/// that exists (`exists` tells, per candidate, whether it does), else an
/// error that says where the configuration is looked for.
pub fn find_config_path(config_arg: Option<&str>, exists: &Vec<bool>) -> (r: Result<String, PromrailError>)
    requires
        exists@.len() == config_candidates().len(),
    ensures
        config_arg matches Some(p) ==> (r matches Ok(s) && s@ == p@),
        config_arg is None ==> match first_existing(exists@) {
            Some(i) => r matches Ok(s) && s@ == config_candidates()[i],
            None => r matches Err(PromrailError::ConfigNotFound(m))
                && m@ == "promrail.yaml (set PROMRAIL_CONFIG env var or use --config)"@,
        },
{
    match config_arg {
        Some(p) => {
            return Ok(crate::text::owned(p));
        },
        None => {},
    }
    let names = config_candidate_names();
    let mut i: usize = 0;
    proof {
        assert(exists@.skip(0) =~= exists@);
    }
    while i < names.len()
        invariant
            i <= names@.len(),
            config_arg is None,
            names@.len() == exists@.len(),
            names@.map_values(|s: &str| s@) == config_candidates(),
            first_existing(exists@) == match first_existing(exists@.skip(i as int)) {
                Some(k) => Some(k + i),
                None => None,
            },
        decreases names@.len() - i,
    {
        proof {
            assert(exists@.skip(i as int).drop_first() =~= exists@.skip(i + 1));
        }
        if exists[i] {
            proof {
                assert(names@.map_values(|s: &str| s@)[i as int] == names@[i as int]@);
            }
            return Ok(crate::text::owned(names[i]));
        }
        i += 1;
    }
    Err(PromrailError::ConfigNotFound(crate::text::owned("promrail.yaml (set PROMRAIL_CONFIG env var or use --config)")))
}

} // verus!
