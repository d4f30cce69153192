//! Comparing two environments: which files a promotion copies and which it
//! deletes.
use vstd::prelude::*;
use crate::config::{copy_environments, Config, EnvironmentConfig};
use crate::commands::promote::{env_not_found_error, error_repo};
use crate::error::PromrailError;
use crate::git::diff::{DiffAction, FileDiff};
use crate::keyed::{lookup, value_of};
use crate::paths::{components, path_components};
use crate::text::{str_eq, views};

verus! {

/// Arguments of a comparison.
pub struct DiffArgs {
    pub source: String,
    pub dest: String,
    pub filter: Vec<String>,
    pub delete: bool,
    pub dest_based: bool,
    pub include_protected: bool,
}

/// What a comparison found.
pub struct PromotionResult {
    pub copied: Vec<FileDiff>,
    pub deleted: Vec<String>,
    pub skipped: Vec<String>,
    pub protected: Vec<String>,
}

/// Whether an error tells that an environment is missing: it names the
/// environment and the repository it was looked for in (`default` in
/// single-repo mode, the default repository otherwise).
pub open spec fn missing_env(e: PromrailError, config: Config, env: Seq<char>) -> bool {
    e matches PromrailError::EnvironmentNotFound { repo, env: name } && repo@ == error_repo(config)
        && name@ == env
}

/// What a comparison between the environments `source` and `dest` of
/// `envs` gives: the source is unknown, the destination is unknown, both
/// are the same, or the two paths.
pub open spec fn env_pair_ok(
    r: Result<(String, String), PromrailError>,
    config: Config,
    envs: Seq<(String, EnvironmentConfig)>,
    source: Seq<char>,
    dest: Seq<char>,
) -> bool {
    match value_of(envs, source) {
        None => r matches Err(e) && missing_env(e, config, source),
        Some(s) => match value_of(envs, dest) {
            None => r matches Err(e) && missing_env(e, config, dest),
            Some(d) => if source == dest {
                r matches Err(PromrailError::SameEnvironment(m)) && m@ == source
            } else {
                r matches Ok((sp, dp)) && sp == s.path && dp == d.path
            },
        },
    }
}

/// The environments a comparison runs between, as paths within the
/// repository: in single-repo mode the top-level environments, otherwise
/// those of the default repository. Errors, in the order they are checked:
/// the default repository is unknown, the source environment is unknown,
/// the destination is unknown, both are the same.
pub fn diff_environments(config: &Config, args: &DiffArgs) -> (r: Result<(String, String), PromrailError>)
    ensures
        config.environments@.len() > 0 ==> env_pair_ok(r, *config, config.environments@, args.source@, args.dest@),
        config.environments@.len() == 0 ==> match value_of(config.repos@, config.default_repo@) {
            None => r matches Err(PromrailError::RepoNotFound(m)) && m@ == config.default_repo@,
            Some(repo) => env_pair_ok(r, *config, repo.environments@, args.source@, args.dest@),
        },
{
    let envs: Vec<(String, EnvironmentConfig)> = if config.environments.len() > 0 {
        copy_environments(&config.environments)
    } else {
        match config.get_repo(None) {
            Ok((_, repo)) => repo.environments,
            Err(e) => {
                return Err(e);
            },
        }
    };
    let source_env = match lookup(&envs, args.source.as_str()) {
        Some(e) => e,
        None => {
            return Err(env_not_found_error(config, args.source.as_str()));
        },
    };
    let dest_env = match lookup(&envs, args.dest.as_str()) {
        Some(e) => e,
        None => {
            return Err(env_not_found_error(config, args.dest.as_str()));
        },
    };
    if str_eq(args.source.as_str(), args.dest.as_str()) {
        return Err(PromrailError::SameEnvironment(args.source.clone()));
    }
    Ok((source_env.path.clone(), dest_env.path.clone()))
}

/// The parts of a path's parent directory, when it has one.
pub open spec fn parent_parts(p: Seq<char>) -> Option<Seq<Seq<char>>> {
    let c = path_components(p);
    if c.len() == 0 {
        None
    } else {
        Some(c.drop_last())
    }
}

/// Whether a directory with exactly these parts is listed.
pub open spec fn dir_listed(dirs: Seq<Seq<char>>, parts: Seq<Seq<char>>) -> bool {
    exists|i: int| 0 <= i < dirs.len() && path_components(#[trigger] dirs[i]) == parts
}

/// Whether some file lies under the directory with these parts.
pub open spec fn some_under(files: Seq<Seq<char>>, parts: Seq<Seq<char>>) -> bool {
    exists|i: int| 0 <= i < files.len() && parts.is_prefix_of(path_components(#[trigger] files[i]))
}

/// Whether a dest-based comparison leaves a source file alone: its
/// directory is neither a directory of the destination nor holds a
/// destination file.
pub open spec fn copy_skipped(dest_based: bool, file: Seq<char>, dest_subdirs: Seq<Seq<char>>, dest_files: Seq<Seq<char>>) -> bool {
    dest_based && match parent_parts(file) {
        Some(pp) => !dir_listed(dest_subdirs, pp) && !some_under(dest_files, pp),
        None => false,
    }
}

/// Whether two part lists are equal.
fn parts_equal(a: &Vec<String>, b: &Vec<String>) -> (r: bool)
    ensures
        r == (views(a@) == views(b@)),
{
    if a.len() != b.len() {
        assert(views(a@).len() != views(b@).len());
        return false;
    }
    let mut i: usize = 0;
    while i < a.len()
        invariant
            i <= a@.len(),
            a@.len() == b@.len(),
            forall|j: int| 0 <= j < i ==> a@[j]@ == b@[j]@,
        decreases a@.len() - i,
    {
        if !str_eq(a[i].as_str(), b[i].as_str()) {
            assert(views(a@)[i as int] != views(b@)[i as int]);
            return false;
        }
        i += 1;
    }
    assert(views(a@) =~= views(b@));
    true
}

/// Whether the parts `a` begin the parts `b`.
fn parts_prefix(a: &Vec<String>, b: &Vec<String>) -> (r: bool)
    ensures
        r == views(a@).is_prefix_of(views(b@)),
{
    if a.len() > b.len() {
        return false;
    }
    let mut i: usize = 0;
    while i < a.len()
        invariant
            i <= a@.len(),
            a@.len() <= b@.len(),
            forall|j: int| 0 <= j < i ==> a@[j]@ == b@[j]@,
        decreases a@.len() - i,
    {
        if !str_eq(a[i].as_str(), b[i].as_str()) {
            assert(views(a@)[i as int] != views(b@)[i as int]);
            return false;
        }
        i += 1;
    }
    assert(views(a@) =~= views(b@).subrange(0, a@.len() as int));
    true
}

/// The parts of a path's parent directory, when it has one.
fn parent_of(file: &str) -> (r: Option<Vec<String>>)
    ensures
        match r {
            Some(pp) => parent_parts(file@) == Some(views(pp@)),
            None => parent_parts(file@) is None,
        },
{
    let mut c = components(file);
    if c.len() == 0 {
        return None;
    }
    let ghost whole = views(c@);
    c.pop();
    assert(views(c@) =~= whole.drop_last());
    Some(c)
}

/// Whether a directory with exactly these parts is listed.
fn listed(dirs: &Vec<String>, parts: &Vec<String>) -> (r: bool)
    ensures
        r == dir_listed(views(dirs@), views(parts@)),
{
    let mut i: usize = 0;
    while i < dirs.len()
        invariant
            i <= dirs@.len(),
            forall|j: int| 0 <= j < i ==> path_components(#[trigger] views(dirs@)[j]) != views(parts@),
        decreases dirs@.len() - i,
    {
        let c = components(dirs[i].as_str());
        if parts_equal(&c, parts) {
            assert(path_components(views(dirs@)[i as int]) == views(parts@));
            return true;
        }
        i += 1;
    }
    false
}

/// Whether some file lies under the directory with these parts.
fn any_under(files: &Vec<String>, parts: &Vec<String>) -> (r: bool)
    ensures
        r == some_under(views(files@), views(parts@)),
{
    let mut i: usize = 0;
    while i < files.len()
        invariant
            i <= files@.len(),
            forall|j: int| 0 <= j < i ==> !views(parts@).is_prefix_of(path_components(#[trigger] views(files@)[j])),
        decreases files@.len() - i,
    {
        let c = components(files[i].as_str());
        if parts_prefix(parts, &c) {
            assert(views(parts@).is_prefix_of(path_components(views(files@)[i as int])));
            return true;
        }
        i += 1;
    }
    false
}

/// Whether the comparison looks at a source file at all: a dest-based one
/// leaves alone files whose directory the destination lacks.
pub fn considered_for_copy(args: &DiffArgs, file: &str, dest_subdirs: &Vec<String>, dest_files: &Vec<String>) -> (r: bool)
    ensures
        r == !copy_skipped(args.dest_based, file@, views(dest_subdirs@), views(dest_files@)),
{
    if !args.dest_based {
        return true;
    }
    match parent_of(file) {
        Some(pp) => listed(dest_subdirs, &pp) || any_under(dest_files, &pp),
        None => true,
    }
}

/// The change a source file brings: added when the destination lacks it,
/// modified when the contents differ, none when they are equal or the
/// source cannot be read.
pub open spec fn change_of(source: Option<Seq<char>>, dest: Option<Seq<char>>) -> Option<DiffAction> {
    match (source, dest) {
        (Some(_), None) => Some(DiffAction::Added),
        (Some(s), Some(d)) => if s != d {
            Some(DiffAction::Modified)
        } else {
            None
        },
        (None, _) => None,
    }
}

/// The view of an optional text.
pub open spec fn opt_text_of(o: Option<String>) -> Option<Seq<char>> {
    match o {
        Some(s) => Some(s@),
        None => None,
    }
}

/// The change a source file brings, with both contents.
pub fn copy_change(file: &str, source_content: Option<String>, dest_content: Option<String>) -> (r: Option<FileDiff>)
    ensures
        match r {
            Some(d) => change_of(opt_text_of(source_content), opt_text_of(dest_content)) == Some(d.action)
                && d.path@ == file@ && opt_text_of(d.new_content) == opt_text_of(source_content)
                && opt_text_of(d.old_content) == opt_text_of(dest_content),
            None => change_of(opt_text_of(source_content), opt_text_of(dest_content)) is None,
        },
{
    match source_content {
        Some(src) => match dest_content {
            None => Some(FileDiff::added(crate::text::owned(file), src)),
            Some(dst) => {
                if !str_eq(src.as_str(), dst.as_str()) {
                    Some(FileDiff::modified(crate::text::owned(file), dst, src))
                } else {
                    None
                }
            },
        },
        None => None,
    }
}

/// Whether a destination file that the source lacks is deleted: when
/// deleting, and, for a dest-based comparison, only when its directory is
/// a directory of the source.
pub open spec fn deletion_planned(
    delete: bool,
    dest_based: bool,
    file: Seq<char>,
    source_files: Seq<Seq<char>>,
    source_subdirs: Seq<Seq<char>>,
) -> bool {
    &&& delete
    &&& !source_files.contains(file)
    &&& dest_based ==> match parent_parts(file) {
        Some(pp) => dir_listed(source_subdirs, pp),
        None => true,
    }
}

/// The destination files a comparison deletes, in discovery order.
pub open spec fn deletions_of(
    delete: bool,
    dest_based: bool,
    dest_files: Seq<Seq<char>>,
    source_files: Seq<Seq<char>>,
    source_subdirs: Seq<Seq<char>>,
) -> Seq<Seq<char>>
    decreases dest_files.len(),
{
    if dest_files.len() == 0 {
        Seq::empty()
    } else {
        let rest = deletions_of(delete, dest_based, dest_files.drop_last(), source_files, source_subdirs);
        if deletion_planned(delete, dest_based, dest_files.last(), source_files, source_subdirs) {
            rest.push(dest_files.last())
        } else {
            rest
        }
    }
}

/// The destination files a comparison deletes.
pub fn planned_deletions(
    args: &DiffArgs,
    source_files: &Vec<String>,
    dest_files: &Vec<String>,
    source_subdirs: &Vec<String>,
) -> (r: Vec<String>)
    ensures
        views(r@) == deletions_of(args.delete, args.dest_based, views(dest_files@), views(source_files@), views(source_subdirs@)),
{
    let mut r: Vec<String> = Vec::new();
    let mut i: usize = 0;
    while i < dest_files.len()
        invariant
            i <= dest_files@.len(),
            views(r@) == deletions_of(args.delete, args.dest_based, views(dest_files@).take(i as int), views(source_files@), views(source_subdirs@)),
        decreases dest_files@.len() - i,
    {
        let f = dest_files[i].as_str();
        proof {
            assert(views(dest_files@).take(i + 1).drop_last() =~= views(dest_files@).take(i as int));
            assert(views(dest_files@).take(i + 1).last() == f@);
        }
        let planned = if !args.delete || crate::text::contains_string(source_files, f) {
            false
        } else if args.dest_based {
            match parent_of(f) {
                Some(pp) => listed(source_subdirs, &pp),
                None => true,
            }
        } else {
            true
        };
        if planned {
            r.push(dest_files[i].clone());
            assert(views(r@) =~= views(r@).drop_last().push(f@));
        }
        i += 1;
    }
    assert(views(dest_files@).take(dest_files@.len() as int) =~= views(dest_files@));
    r
}

} // verus!
