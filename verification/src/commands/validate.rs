//! Checking a configuration against the disk and the repository: which
//! problems are errors and which are warnings.
use vstd::prelude::*;
use crate::config::{Config, EnvironmentConfig, RepoConfig};
use crate::error::PromrailError;
use crate::text::{cat, cat_views, decimal, decimal_string};

verus! {

/// Arguments of validation (there are none).
pub struct ValidateArgs;

/// What was found on disk for one environment of a repository.
pub struct EnvCheck {
    pub path: String,
    pub exists: bool,
}

/// What was found on disk for one repository and its environments, in the
/// order the configuration lists them.
pub struct RepoCheck {
    pub path: String,
    pub exists: bool,
    pub environments: Vec<EnvCheck>,
}

/// The problems found: errors make the configuration invalid, warnings do
/// not.
pub struct ValidationReport {
    pub errors: Vec<String>,
    pub warnings: Vec<String>,
}

/// Whether the checks line up with the configuration's repositories and
/// environments.
pub open spec fn checks_match(config: Config, checks: Seq<RepoCheck>) -> bool {
    checks.len() == config.repos@.len() && forall|i: int| 0 <= i < checks.len()
        ==> (#[trigger] checks[i]).environments@.len() == config.repos@[i].1.environments@.len()
}

/// The errors about the environments of one repository.
pub open spec fn env_errors(repo: Seq<char>, envs: Seq<(String, EnvironmentConfig)>, checks: Seq<EnvCheck>) -> Seq<Seq<char>>
    decreases checks.len(),
{
    if checks.len() == 0 || envs.len() == 0 {
        Seq::empty()
    } else {
        let rest = env_errors(repo, envs.drop_last(), checks.drop_last());
        if checks.last().exists {
            rest
        } else {
            rest.push("Environment '"@ + envs.last().0@ + "' in repo '"@ + repo + "' does not exist: "@ + checks.last().path@)
        }
    }
}

/// The errors about one repository: its path, then its environments.
pub open spec fn repo_errors(name: Seq<char>, envs: Seq<(String, EnvironmentConfig)>, check: RepoCheck) -> Seq<Seq<char>> {
    let own = if check.exists {
        Seq::empty()
    } else {
        seq!["Repository '"@ + name + "' path does not exist: "@ + check.path@]
    };
    own + env_errors(name, envs, check.environments@)
}

/// The errors about all repositories, in order.
pub open spec fn all_repo_errors(repos: Seq<(String, RepoConfig)>, checks: Seq<RepoCheck>) -> Seq<Seq<char>>
    decreases checks.len(),
{
    if checks.len() == 0 || repos.len() == 0 {
        Seq::empty()
    } else {
        all_repo_errors(repos.drop_last(), checks.drop_last()) + repo_errors(
            repos.last().0@,
            repos.last().1.environments@,
            checks.last(),
        )
    }
}

/// The errors of a validation.
pub open spec fn validation_errors(config: Config, checks: Seq<RepoCheck>) -> Seq<Seq<char>> {
    let none = if config.repos@.len() == 0 {
        seq!["No repositories defined"@]
    } else {
        Seq::empty()
    };
    none + all_repo_errors(config.repos@, checks)
}

/// The warnings of a validation: an empty allowlist, and, when a clean
/// tree is required, a dirty tree or a status that could not be read.
pub open spec fn validation_warnings(config: Config, git: Option<Result<bool, String>>) -> Seq<Seq<char>> {
    let allow = if config.allowlist@.len() == 0 {
        seq!["No allowlist patterns defined (will match all files)"@]
    } else {
        Seq::empty()
    };
    let tree = if config.git.require_clean_tree {
        match git {
            Some(Ok(false)) => seq!["Git tree has uncommitted changes"@],
            Some(Err(e)) => seq!["Could not check git status: "@ + e@],
            _ => Seq::empty(),
        }
    } else {
        Seq::empty()
    };
    allow + tree
}

/// The views of some texts.
pub open spec fn texts(v: Seq<String>) -> Seq<Seq<char>> {
    crate::text::views(v)
}

/// The errors about one repository's environments.
fn push_env_errors(out: &mut Vec<String>, name: &str, envs: &Vec<(String, EnvironmentConfig)>, checks: &Vec<EnvCheck>)
    requires
        envs@.len() == checks@.len(),
    ensures
        texts(final(out)@) == texts(old(out)@) + env_errors(name@, envs@, checks@),
{
    let ghost start = texts(out@);
    let mut i: usize = 0;
    proof {
        assert(env_errors(name@, envs@.take(0), checks@.take(0)) =~= Seq::<Seq<char>>::empty());
        assert(texts(out@) =~= start + Seq::<Seq<char>>::empty());
    }
    while i < checks.len()
        invariant
            i <= checks@.len(),
            envs@.len() == checks@.len(),
            texts(out@) == start + env_errors(name@, envs@.take(i as int), checks@.take(i as int)),
        decreases checks@.len() - i,
    {
        proof {
            assert(envs@.take(i + 1).drop_last() =~= envs@.take(i as int));
            assert(checks@.take(i + 1).drop_last() =~= checks@.take(i as int));
        }
        if !checks[i].exists {
            let m = cat(
                &[
                    "Environment '",
                    envs[i].0.as_str(),
                    "' in repo '",
                    name,
                    "' does not exist: ",
                    checks[i].path.as_str(),
                ],
            );
            proof {
                reveal_with_fuel(cat_views, 7);
            }
            let ghost prev = out@;
            out.push(m);
            proof {
                assert(out@.drop_last() =~= prev);
                assert(texts(out@) =~= texts(prev).push(m@));
            }
        }
        i += 1;
        proof {
            assert(texts(out@) =~= start + env_errors(name@, envs@.take(i as int), checks@.take(i as int)));
        }
    }
    proof {
        assert(envs@.take(i as int) =~= envs@);
        assert(checks@.take(i as int) =~= checks@);
    }
}

/// The errors and warnings of a configuration, given what was found on
/// disk for its repositories and, when a clean tree is required, the tree's
/// state (`Ok(clean)`, or the message of the failure to read it).
pub fn validation_report(config: &Config, checks: &Vec<RepoCheck>, git: &Option<Result<bool, String>>) -> (r: ValidationReport)
    requires
        checks_match(*config, checks@),
    ensures
        texts(r.errors@) == validation_errors(*config, checks@),
        texts(r.warnings@) == validation_warnings(*config, *git),
{
    let mut warnings: Vec<String> = Vec::new();
    if config.allowlist.len() == 0 {
        warnings.push(crate::text::owned("No allowlist patterns defined (will match all files)"));
    }
    let mut errors: Vec<String> = Vec::new();
    if config.repos.len() == 0 {
        errors.push(crate::text::owned("No repositories defined"));
    }
    let ghost none = texts(errors@);
    let mut i: usize = 0;
    proof {
        assert(all_repo_errors(config.repos@.take(0), checks@.take(0)) =~= Seq::<Seq<char>>::empty());
        assert(texts(errors@) =~= none + Seq::<Seq<char>>::empty());
    }
    while i < checks.len()
        invariant
            i <= checks@.len(),
            checks_match(*config, checks@),
            texts(errors@) == none + all_repo_errors(config.repos@.take(i as int), checks@.take(i as int)),
        decreases checks@.len() - i,
    {
        proof {
            assert(config.repos@.take(i + 1).drop_last() =~= config.repos@.take(i as int));
            assert(checks@.take(i + 1).drop_last() =~= checks@.take(i as int));
            assert(checks@[i as int].environments@.len() == config.repos@[i as int].1.environments@.len());
        }
        let ghost before = texts(errors@);
        let name = config.repos[i].0.as_str();
        if !checks[i].exists {
            let m = cat(&["Repository '", name, "' path does not exist: ", checks[i].path.as_str()]);
            proof {
                reveal_with_fuel(cat_views, 5);
            }
            let ghost prev = errors@;
            errors.push(m);
            proof {
                assert(errors@.drop_last() =~= prev);
                assert(texts(errors@) =~= texts(prev).push(m@));
            }
        }
        push_env_errors(&mut errors, name, &config.repos[i].1.environments, &checks[i].environments);
        i += 1;
        proof {
            assert(texts(errors@) =~= none + all_repo_errors(config.repos@.take(i as int), checks@.take(i as int)));
        }
    }
    proof {
        assert(config.repos@.take(i as int) =~= config.repos@);
        assert(checks@.take(i as int) =~= checks@);
    }
    if config.git.require_clean_tree {
        match git {
            Some(Ok(false)) => {
                warnings.push(crate::text::owned("Git tree has uncommitted changes"));
            },
            Some(Err(e)) => {
                warnings.push(crate::text::concat("Could not check git status: ", e.as_str()));
            },
            _ => {},
        }
    }
    proof {
        assert(texts(warnings@) =~= validation_warnings(*config, *git));
    }
    ValidationReport { errors, warnings }
}

/// The outcome of a validation: valid without errors, else an invalid
/// configuration with the number of errors.
pub fn validation_outcome(report: &ValidationReport) -> (r: Result<(), PromrailError>)
    ensures
        report.errors@.len() == 0 ==> r is Ok,
        report.errors@.len() > 0 ==> (r matches Err(PromrailError::ConfigInvalid(m)) && m@
            == decimal(report.errors@.len()) + " validation error(s)"@),
{
    if report.errors.len() == 0 {
        return Ok(());
    }
    let n = decimal_string(report.errors.len() as u64);
    Err(PromrailError::ConfigInvalid(crate::text::concat(n.as_str(), " validation error(s)")))
}

} // verus!
