//! Promotion: the arguments, and every decision of the command that does
//! not need the disk, the user or the terminal.
use vstd::prelude::*;
use crate::commands::{default_filter, filters_in_force};
use crate::config::{expands_to, Config, VersionHandling};
use crate::error::PromrailError;
use crate::ext::{lowercase, to_lowercase};
use crate::keyed::{has_key, lookup, value_of};
use crate::paths::{component_of, get_component, is_protected, join_path, joined_path, protected_path};
use crate::review::analyze::{artifact_from_analysis, lookup_view, pending_artifact_of, records_view, PromotionAnalysis};
use crate::review::apply::{
    apply_review_decisions, artifact_ready_for_apply, copy_records, decisions_outcome, ready_for_apply,
};
use crate::review::models::ReviewArtifact;
use crate::review::analyze::{is_version_managed_file, version_managed};
use crate::review::models::{copy_opt, copy_strings};
use crate::text::{chars_of, contains_string, join, join_strings, strictly_sorted, trim, trim_white, views};

verus! {

/// Arguments of a promotion.
pub struct PromoteArgs {
    pub sources: Vec<String>,
    pub dest: String,
    pub filter: Vec<String>,
    pub delete: bool,
    pub dest_based: bool,
    pub dry_run: bool,
    pub confirm: bool,
    pub show_diff: bool,
    pub include_protected: bool,
    pub allow_duplicates: bool,
    pub only_existing: bool,
    pub ignore_gitignore: bool,
    pub force: bool,
}

/// The sources of a promotion: those given, else the configured defaults.
pub open spec fn sources_in_force(given: Seq<String>, config: Config) -> Seq<String> {
    if given.len() == 0 {
        config.default_sources@
    } else {
        given
    }
}

impl PromoteArgs {
    /// Build PromoteArgs from CLI arguments and config defaults.
    pub fn from_cli(
        source_vec: Vec<String>,
        dest: Option<String>,
        filter_vec: Vec<String>,
        no_delete: bool,
        dest_based: bool,
        dry_run: bool,
        confirm: bool,
        show_diff: bool,
        include_protected: bool,
        force: bool,
        allow_duplicates: bool,
        only_existing: bool,
        include_gitignored: bool,
        config: &Config,
    ) -> (r: Result<Self, PromrailError>)
        ensures
            source_vec@.len() == 0 && config.default_sources@.len() == 0 ==> (r matches Err(
                PromrailError::ConfigInvalid(m),
            ) && m@ == "no source specified and no default_sources in config"@),
            !(source_vec@.len() == 0 && config.default_sources@.len() == 0) && dest is None
                && config.default_dest is None ==> (r matches Err(PromrailError::ConfigInvalid(m))
                && m@ == "no dest specified and no default_dest in config"@),
            !(source_vec@.len() == 0 && config.default_sources@.len() == 0) && !(dest is None
                && config.default_dest is None) ==> (r matches Ok(a) && a.sources@
                == sources_in_force(source_vec@, *config) && a.dest == (match dest {
                Some(d) => d,
                None => config.default_dest->0,
            }) && views(a.filter@) == filters_in_force(views(filter_vec@)) && a.delete
                == !no_delete && a.dest_based == dest_based && a.dry_run == dry_run && a.confirm
                == confirm && a.show_diff == show_diff && a.include_protected == include_protected
                && a.allow_duplicates == allow_duplicates && a.only_existing == only_existing
                && a.ignore_gitignore == (!include_gitignored
                && config.rules.global.promote_options.ignore_gitignore) && a.force == force),
    {
        let sources = if source_vec.len() == 0 {
            if config.default_sources.len() == 0 {
                return Err(
                    PromrailError::ConfigInvalid(
                        crate::text::owned("no source specified and no default_sources in config"),
                    ),
                );
            }
            copy_strings(&config.default_sources)
        } else {
            source_vec
        };
        let dest = match dest {
            Some(d) => d,
            None => match copy_opt(&config.default_dest) {
                Some(d) => d,
                None => {
                    return Err(
                        PromrailError::ConfigInvalid(
                            crate::text::owned("no dest specified and no default_dest in config"),
                        ),
                    );
                },
            },
        };
        let ignore_gitignore = if include_gitignored {
            false
        } else {
            config.rules.global.promote_options.ignore_gitignore
        };
        Ok(PromoteArgs {
            sources,
            dest,
            filter: default_filter(filter_vec),
            delete: !no_delete,
            dest_based,
            dry_run,
            confirm,
            show_diff,
            include_protected,
            allow_duplicates,
            only_existing,
            ignore_gitignore,
            force,
        })
    }
}

/// The repository named in an unknown-environment error: `default` in
/// single-repo mode, else the default repository.
pub open spec fn error_repo(config: Config) -> Seq<char> {
    if config.environments@.len() > 0 {
        "default"@
    } else {
        config.default_repo@
    }
}

/// Create environment not found error with correct repo name.
pub fn env_not_found_error(config: &Config, env: &str) -> (r: PromrailError)
    ensures
        r matches PromrailError::EnvironmentNotFound { repo, env: e } && repo@ == error_repo(
            *config,
        ) && e@ == env@,
{
    let repo = if config.is_single_repo() {
        crate::text::owned("default")
    } else {
        config.default_repo.clone()
    };
    PromrailError::EnvironmentNotFound { repo, env: crate::text::owned(env) }
}

/// Whether an answer to a yes/no prompt agrees: after trimming and
/// lower-casing, it starts with `y`.
pub open spec fn agrees(answer: Seq<char>) -> bool {
    let l = lowercase(trim_white(answer));
    l.len() > 0 && l[0] == 'y'
}

/// Whether the answer typed at a confirmation prompt agrees.
pub fn is_confirmation(answer: &str) -> (r: bool)
    ensures
        r == agrees(answer@),
{
    let chars = chars_of(answer);
    let trimmed = trim(chars.as_slice());
    let text = crate::text::string_of(trimmed.as_slice());
    let lower = to_lowercase(text.as_str());
    let l = chars_of(lower.as_str());
    l.len() > 0 && l[0] == 'y'
}

/// Whether a promotion takes the multi-source path: several sources, or a
/// source that names a repository rather than an environment.
pub open spec fn multi_source_route(config: Config, sources: Seq<String>) -> bool {
    sources.len() > 1 || (has_key(config.repos@, sources[0]@) && !has_key(
        config.environments_in_use(),
        sources[0]@,
    ))
}

/// Whether to promote through the multi-source path.
pub fn uses_multi_source(config: &Config, args: &PromoteArgs) -> (r: bool)
    requires
        args.sources@.len() > 0,
    ensures
        r == multi_source_route(*config, args.sources@),
{
    if args.sources.len() > 1 {
        return true;
    }
    let source = args.sources[0].as_str();
    let envs = config.get_environments();
    crate::keyed::contains_key(&config.repos, source) && !crate::keyed::contains_key(&envs, source)
}

/// Whether destination files that the sources lack are deleted: when the
/// arguments ask for it and the options do not forbid it.
pub fn should_delete(config: &Config, args: &PromoteArgs) -> (r: bool)
    ensures
        r == (args.delete && !config.rules.global.promote_options.no_delete),
{
    args.delete && !config.rules.global.promote_options.no_delete
}

/// Whether a copied file gets a structured version update rather than a
/// whole-file copy: it is version-managed, it exists in the destination,
/// and its component's rule asks for structured handling.
pub open spec fn structured_update(config: Config, relative: Seq<char>, dest_exists: bool) -> bool {
    version_managed(relative) && dest_exists && match value_of(
        config.rules.components@,
        component_of(relative),
    ) {
        Some(rule) => rule.version_handling == VersionHandling::Structured,
        None => false,
    }
}

/// Whether a copied file gets a structured version update.
pub fn uses_structured_update(config: &Config, relative: &str, dest_exists: bool) -> (r: bool)
    ensures
        r == structured_update(*config, relative@, dest_exists),
{
    if !is_version_managed_file(relative) || !dest_exists {
        return false;
    }
    let component = get_component(relative);
    match config.rules.get_component_rule(component.as_str()) {
        Some(rule) => rule.version_handling == VersionHandling::Structured,
        None => false,
    }
}

/// The components of some paths, counting only version-managed files when
/// `managed_only` holds.
pub open spec fn component_set(paths: Seq<Seq<char>>, managed_only: bool) -> Set<Seq<char>>
    decreases paths.len(),
{
    if paths.len() == 0 {
        Set::empty()
    } else {
        let s = component_set(paths.drop_last(), managed_only);
        if !managed_only || version_managed(paths.last()) {
            s.insert(component_of(paths.last()))
        } else {
            s
        }
    }
}

/// The distinct components of some paths, in increasing order; with
/// `managed_only`, of the version-managed files among them.
pub fn distinct_components(paths: &Vec<String>, managed_only: bool) -> (r: Vec<String>)
    ensures
        strictly_sorted(views(r@)),
        views(r@).to_set() == component_set(views(paths@), managed_only),
{
    let mut r: Vec<String> = Vec::new();
    let mut i: usize = 0;
    proof {
        assert(views(r@).to_set() =~= Set::empty());
        assert(views(paths@).take(0) =~= Seq::<Seq<char>>::empty());
    }
    while i < paths.len()
        invariant
            i <= paths@.len(),
            strictly_sorted(views(r@)),
            views(r@).to_set() == component_set(views(paths@).take(i as int), managed_only),
        decreases paths@.len() - i,
    {
        proof {
            assert(views(paths@).take(i + 1).drop_last() =~= views(paths@).take(i as int));
            assert(views(paths@).take(i + 1).last() == paths@[i as int]@);
        }
        if !managed_only || is_version_managed_file(paths[i].as_str()) {
            let c = get_component(paths[i].as_str());
            crate::text::insert_sorted_unique(&mut r, c);
        }
        i += 1;
    }
    assert(views(paths@).take(paths@.len() as int) =~= views(paths@));
    r
}

/// The line that reports a file found in several sources.
pub open spec fn duplicate_line(path: Seq<char>, sources: Seq<Seq<char>>) -> Seq<char> {
    path + " (in: "@ + join(sources, ", "@) + ")"@
}

/// The lines that report files found in several sources.
pub open spec fn duplicate_lines(d: Seq<(String, Vec<String>)>) -> Seq<Seq<char>> {
    Seq::new(d.len(), |i: int| duplicate_line(d[i].0@, views(d[i].1@)))
}

/// Handle duplicate files across sources: an error listing them, unless
/// there are none or duplicates are allowed (then the first source wins).
pub fn handle_duplicates(
    duplicates: &Vec<(String, Vec<String>)>,
    args: &PromoteArgs,
    promote_options: &crate::config::PromoteOptions,
) -> (r: Result<(), PromrailError>)
    ensures
        duplicates@.len() == 0 || args.allow_duplicates || promote_options.allow_duplicates
            ==> r is Ok,
        !(duplicates@.len() == 0 || args.allow_duplicates || promote_options.allow_duplicates)
            ==> (r matches Err(PromrailError::DuplicateFiles(lines)) && views(lines@)
            == duplicate_lines(duplicates@)),
{
    if duplicates.len() == 0 || args.allow_duplicates || promote_options.allow_duplicates {
        return Ok(());
    }
    let mut lines: Vec<String> = Vec::new();
    let mut i: usize = 0;
    while i < duplicates.len()
        invariant
            i <= duplicates@.len(),
            views(lines@) == duplicate_lines(duplicates@).take(i as int),
        decreases duplicates@.len() - i,
    {
        let joined = join_strings(&duplicates[i].1, ", ");
        let line = crate::text::cat(
            &[duplicates[i].0.as_str(), " (in: ", joined.as_str(), ")"],
        );
        proof {
            reveal_with_fuel(crate::text::cat_views, 5);
            assert(line@ == duplicate_line(duplicates@[i as int].0@, views(duplicates@[i as int].1@)));
        }
        let ghost prev = lines@;
        lines.push(line);
        proof {
            assert(lines@.drop_last() =~= prev);
            assert(views(lines@) =~= views(prev).push(line@));
        }
        i += 1;
        assert(views(lines@) =~= duplicate_lines(duplicates@).take(i as int));
    }
    assert(duplicate_lines(duplicates@).take(i as int) =~= duplicate_lines(duplicates@));
    Err(PromrailError::DuplicateFiles(lines))
}

/// Whether some record is keyed by `path`.
pub open spec fn keyed_by(records: Seq<(String, (String, String))>, path: Seq<char>) -> bool {
    exists|i: int| 0 <= i < records.len() && (#[trigger] records[i]).0@ == path
}

/// The destination files to delete: those that are not protected, that no
/// source provides and that no review retained, in discovery order.
pub open spec fn deletions(
    dest_files: Seq<Seq<char>>,
    protected_dirs: Seq<Seq<char>>,
    provided: Seq<(String, (String, String))>,
    retained: Seq<Seq<char>>,
) -> Seq<Seq<char>>
    decreases dest_files.len(),
{
    if dest_files.len() == 0 {
        Seq::empty()
    } else {
        let rest = deletions(dest_files.drop_last(), protected_dirs, provided, retained);
        let f = dest_files.last();
        if !protected_path(f, protected_dirs) && !keyed_by(provided, f) && !retained.contains(f) {
            rest.push(f)
        } else {
            rest
        }
    }
}

/// Calculate files to delete from destination, given the files discovered
/// there.
pub fn calculate_files_to_delete(
    dest_files: &Vec<String>,
    all_files: &Vec<(String, (String, String))>,
    retained_paths: &Vec<String>,
    protected_dirs: &Vec<String>,
) -> (r: Vec<String>)
    ensures
        views(r@) == deletions(views(dest_files@), views(protected_dirs@), all_files@, views(retained_paths@)),
{
    let mut r: Vec<String> = Vec::new();
    let mut i: usize = 0;
    while i < dest_files.len()
        invariant
            i <= dest_files@.len(),
            views(r@) == deletions(views(dest_files@).take(i as int), views(protected_dirs@), all_files@, views(retained_paths@)),
        decreases dest_files@.len() - i,
    {
        let f = dest_files[i].as_str();
        proof {
            assert(views(dest_files@).take(i + 1).drop_last() =~= views(dest_files@).take(i as int));
            assert(views(dest_files@).take(i + 1).last() == f@);
        }
        let provided = record_keyed(all_files, f);
        let kept = crate::text::contains_string(retained_paths, f);
        if !is_protected(f, protected_dirs) && !provided && !kept {
            r.push(dest_files[i].clone());
            assert(views(r@) =~= views(r@).drop_last().push(f@));
        }
        i += 1;
    }
    assert(views(dest_files@).take(dest_files@.len() as int) =~= views(dest_files@));
    r
}

/// Whether some record is keyed by `path`.
pub fn record_keyed(records: &Vec<(String, (String, String))>, path: &str) -> (r: bool)
    ensures
        r == keyed_by(records@, path@),
{
    let mut i: usize = 0;
    while i < records.len()
        invariant
            i <= records@.len(),
            forall|j: int| 0 <= j < i ==> (#[trigger] records@[j]).0@ != path@,
        decreases records@.len() - i,
    {
        if crate::text::str_eq(records[i].0.as_str(), path) {
            return true;
        }
        i += 1;
    }
    false
}


/// How a multi-source promotion goes on once its analysis is known.
pub enum ReviewGate {
    /// Promote these files; `applied` tells that a classified review was
    /// applied to get them.
    Proceed { files: Vec<(String, (String, String))>, applied: bool },
    /// Stop and ask for a review with this artifact.
    ReviewRequired(ReviewArtifact),
}

/// Whether an artifact is there and ready to be applied to the analysis.
pub open spec fn applicable(existing: Option<&ReviewArtifact>, analysis: PromotionAnalysis) -> bool {
    existing matches Some(a) && ready_for_apply(*a, analysis)
}

/// Decides, after the analysis, whether to promote and what: with nothing
/// to review, the files that need no review; with a classified artifact
/// that fits the analysis, the files its decisions approve; otherwise a new
/// artifact to review.
pub fn review_gate(
    analysis: &PromotionAnalysis,
    existing: Option<&ReviewArtifact>,
    sources: &Vec<String>,
    dest: &str,
    filters: &Vec<String>,
) -> (r: Result<ReviewGate, PromrailError>)
    ensures
        analysis.review_items@.len() == 0 ==> (r matches Ok(ReviewGate::Proceed { files, applied })
            && !applied && records_view(files@) == records_view(analysis.auto_files@)),
        analysis.review_items@.len() > 0 && applicable(existing, *analysis) ==> match decisions_outcome(
            existing->0.items.deep_view(),
            lookup_view(analysis.source_lookup@),
            records_view(analysis.auto_files@),
        ) {
            Ok(records) => r matches Ok(ReviewGate::Proceed { files, applied }) && applied
                && records_view(files@) == records,
            Err(msg) => r matches Err(PromrailError::ReviewArtifactInvalid(m)) && m@ == msg,
        },
        analysis.review_items@.len() > 0 && !applicable(existing, *analysis) ==> (r matches Ok(
            ReviewGate::ReviewRequired(art),
        ) && pending_artifact_of(art, *analysis, sources@, dest@, filters@)),
{
    if analysis.review_items.len() == 0 {
        return Ok(ReviewGate::Proceed { files: copy_records(&analysis.auto_files), applied: false });
    }
    match existing {
        Some(a) => {
            let ready = match artifact_ready_for_apply(a, analysis) {
                Ok(b) => b,
                Err(e) => {
                    return Err(e);
                },
            };
            if ready {
                return match apply_review_decisions(a, analysis) {
                    Ok(files) => Ok(ReviewGate::Proceed { files, applied: true }),
                    Err(e) => Err(e),
                };
            }
        },
        None => {},
    }
    Ok(ReviewGate::ReviewRequired(artifact_from_analysis(analysis, sources, dest, filters)))
}

/// The path of an environment known to the configuration.
pub open spec fn environment_path(config: Config, name: Seq<char>) -> Option<Seq<char>> {
    match value_of(config.environments_in_use(), name) {
        Some(e) => Some(e.path@),
        None => None,
    }
}

/// Whether a source names an environment or a repository.
pub open spec fn known_source(config: Config, name: Seq<char>) -> bool {
    environment_path(config, name) is Some || has_key(config.repos@, name)
}

/// Whether `path` is where a known source lies: an environment under the
/// repository root, else a repository's own path with `~` expanded by some
/// home directory (or none).
pub open spec fn source_location(config: Config, root: Seq<char>, name: Seq<char>, path: Seq<char>) -> bool {
    match environment_path(config, name) {
        Some(p) => path == joined_path(root, p),
        None => match value_of(config.repos@, name) {
            Some(repo) => expands_to(repo.path@, path),
            None => false,
        },
    }
}

/// Resolve source names to their filesystem paths: an environment lies
/// under the repository root, a repository at its own path. The first
/// name that is neither is an error.
pub fn resolve_source_paths(config: &Config, repo_root: &str, sources: &Vec<String>) -> (r: Result<
    Vec<(String, String)>,
    PromrailError,
>)
    ensures
        (forall|i: int| 0 <= i < sources@.len() ==> known_source(*config, #[trigger] sources@[i]@))
            ==> r is Ok,
        r matches Ok(v) ==> v@.len() == sources@.len() && forall|i: int|
            0 <= i < sources@.len() ==> (#[trigger] v@[i]).0 == sources@[i] && source_location(
                *config,
                repo_root@,
                sources@[i]@,
                v@[i].1@,
            ),
        r matches Err(e) ==> exists|i: int|
            0 <= i < sources@.len() && !known_source(*config, #[trigger] sources@[i]@) && (forall|j: int|
                0 <= j < i ==> known_source(*config, #[trigger] sources@[j]@)) && (e matches PromrailError::EnvironmentNotFound { repo, env }
                && repo@ == error_repo(*config) && env@ == sources@[i]@),
{
    let environments = config.get_environments();
    let mut out: Vec<(String, String)> = Vec::new();
    let mut i: usize = 0;
    while i < sources.len()
        invariant
            i <= sources@.len(),
            environments@ == config.environments_in_use(),
            out@.len() == i,
            forall|j: int| 0 <= j < i ==> known_source(*config, #[trigger] sources@[j]@),
            forall|j: int| 0 <= j < i ==> (#[trigger] out@[j]).0 == sources@[j] && source_location(
                *config,
                repo_root@,
                sources@[j]@,
                out@[j].1@,
            ),
        decreases sources@.len() - i,
    {
        let name = sources[i].as_str();
        match lookup(&environments, name) {
            Some(env) => {
                let path = join_path(repo_root, env.path.as_str());
                let ghost prev = out@;
                out.push((sources[i].clone(), path));
                proof {
                    assert(out@[i as int].0 == sources@[i as int]);
                    assert(source_location(*config, repo_root@, sources@[i as int]@, out@[i as int].1@));
                    assert forall|j: int| 0 <= j < i implies out@[j] == prev[j] by {}
                }
            },
            None => match lookup(&config.repos, name) {
                Some(repo) => {
                    let path = repo.resolved_path();
                    let ghost prev = out@;
                    out.push((sources[i].clone(), path));
                    proof {
                        assert(out@[i as int].0 == sources@[i as int]);
                        assert(environment_path(*config, name@) is None);
                        assert(value_of(config.repos@, sources@[i as int]@) == Some(*repo));
                        assert(source_location(*config, repo_root@, sources@[i as int]@, out@[i as int].1@));
                        assert forall|j: int| 0 <= j < i implies out@[j] == prev[j] by {}
                    }
                },
                None => {
                    let e = env_not_found_error(config, name);
                    proof {
                        assert(!known_source(*config, sources@[i as int]@));
                    }
                    return Err(e);
                },
            },
        }
        i += 1;
    }
    Ok(out)
}


/// Whether a discovered file of a source takes part in a promotion: a
/// protected file only when protected files are included; with rules, only
/// what the source takes and what is not `never`; and, when only existing
/// components are promoted, only files of components the destination has.
pub open spec fn admitted(
    config: Config,
    include_protected: bool,
    only_existing: bool,
    source: Seq<char>,
    relative: Seq<char>,
    component_exists: bool,
) -> bool {
    let component = component_of(relative);
    &&& !protected_path(relative, views(config.protected_dirs@)) || include_protected
    &&& (config.rules.sources@.len() > 0 || config.rules.components@.len() > 0) ==> (
    config.rules.includes(source, component) && config.rules.action_for(component)
        != crate::config::PromotionAction::Never)
    &&& (only_existing || config.rules.global.promote_options.only_existing) ==> component_exists
}

/// Whether a discovered file of a source takes part in a promotion, given
/// whether its component exists in the destination.
pub fn admits_candidate(
    config: &Config,
    args: &PromoteArgs,
    source: &str,
    relative: &str,
    component_exists: bool,
) -> (r: bool)
    ensures
        r == admitted(*config, args.include_protected, args.only_existing, source@, relative@, component_exists),
{
    if is_protected(relative, &config.protected_dirs) && !args.include_protected {
        return false;
    }
    let component = get_component(relative);
    if config.rules.has_rules() {
        if !config.rules.source_includes(source, component.as_str()) {
            return false;
        }
        if config.rules.get_action(component.as_str()) == crate::config::PromotionAction::Never {
            return false;
        }
    }
    if (args.only_existing || config.rules.global.promote_options.only_existing) && !component_exists {
        return false;
    }
    true
}

/// The destination paths to keep when a file is promoted over an existing
/// one: those of the first preserve rule of its component that names it,
/// when there are some.
pub open spec fn paths_to_preserve(config: Config, relative: Seq<char>, dest_exists: bool) -> Option<Seq<Seq<char>>> {
    if !dest_exists {
        None
    } else {
        match value_of(config.rules.components@, component_of(relative)) {
            Some(rule) => match crate::review::analyze::preserved_paths(rule, component_of(relative), relative) {
                Some(paths) => if paths.len() > 0 {
                    Some(paths)
                } else {
                    None
                },
                None => None,
            },
            None => None,
        }
    }
}

/// The destination paths to keep when a file is promoted, if any; the file
/// is copied whole otherwise.
pub fn preserve_paths_for(config: &Config, relative: &str, dest_exists: bool) -> (r: Option<Vec<String>>)
    ensures
        match r {
            Some(paths) => paths_to_preserve(*config, relative@, dest_exists) == Some(views(paths@)),
            None => paths_to_preserve(*config, relative@, dest_exists) is None,
        },
{
    if !dest_exists {
        return None;
    }
    let component = get_component(relative);
    match config.rules.get_component_rule(component.as_str()) {
        Some(rule) => match crate::review::analyze::matching_preserve_paths(rule, component.as_str(), relative) {
            Some(paths) => {
                if paths.len() > 0 {
                    Some(paths)
                } else {
                    None
                }
            },
            None => None,
        },
        None => None,
    }
}

/// Whether a file could be read and holds exactly these bytes.
pub open spec fn holds_bytes(current: Option<Vec<u8>>, bytes: Seq<u8>) -> bool {
    match current {
        Some(c) => c@ == bytes,
        None => false,
    }
}

/// Whether a prepared file differs from what the destination holds: it
/// does unless the destination file could be read and has exactly the
/// desired bytes.
pub fn content_changed(current: &Option<Vec<u8>>, desired: &Vec<u8>) -> (r: bool)
    ensures
        r == !holds_bytes(*current, desired@),
{
    match current {
        Some(c) => {
            if c.len() != desired.len() {
                assert(c@.len() != desired@.len());
                return true;
            }
            let mut i: usize = 0;
            while i < c.len()
                invariant
                    i <= c@.len(),
                    c@.len() == desired@.len(),
                    holds_bytes(*current, desired@) == (c@ == desired@),
                    forall|j: int| 0 <= j < i ==> c@[j] == desired@[j],
                decreases c@.len() - i,
            {
                if c[i] != desired[i] {
                    assert(c@[i as int] != desired@[i as int]);
                    assert(c@ != desired@);
                    return true;
                }
                i += 1;
            }
            assert(c@ =~= desired@);
            false
        },
        None => true,
    }
}

/// What a promotion does once it knows its copies, deletions and retained
/// files.
pub enum PromotionStep {
    /// Nothing to copy, delete or retain: an empty result is reported.
    Nothing,
    /// A dry run: the changes are reported and nothing is written.
    Preview,
    /// The changes are applied.
    Apply,
}

/// What a promotion with these counts does: nothing when it has nothing to
/// copy, delete or retain; otherwise a preview on a dry run, else it
/// applies the changes.
pub fn promotion_step(n_copies: usize, n_deletes: usize, n_retained: usize, dry_run: bool) -> (r: PromotionStep)
    ensures
        n_copies == 0 && n_deletes == 0 && n_retained == 0 ==> r is Nothing,
        !(n_copies == 0 && n_deletes == 0 && n_retained == 0) && dry_run ==> r is Preview,
        !(n_copies == 0 && n_deletes == 0 && n_retained == 0) && !dry_run ==> r is Apply,
{
    if n_copies == 0 && n_deletes == 0 && n_retained == 0 {
        PromotionStep::Nothing
    } else if dry_run {
        PromotionStep::Preview
    } else {
        PromotionStep::Apply
    }
}

/// The version-managed files that the version update did not rewrite, in
/// order: each is given by its relative path and its path in the
/// destination, and is copied whole.
pub open spec fn untouched_files(files: Seq<(Seq<char>, Seq<char>)>, updated: Seq<Seq<char>>) -> Seq<Seq<char>>
    decreases files.len(),
{
    if files.len() == 0 {
        Seq::empty()
    } else {
        let rest = untouched_files(files.drop_last(), updated);
        if updated.contains(files.last().1) {
            rest
        } else {
            rest.push(files.last().0)
        }
    }
}

/// The relative paths of the version-managed files that the version update
/// did not rewrite; `files` pairs each relative path with its path in the
/// destination, `updated` lists the rewritten destination paths.
pub fn copies_after_update(files: &Vec<(String, String)>, updated: &Vec<String>) -> (r: Vec<String>)
    ensures
        views(r@) == untouched_files(files@.map_values(|p: (String, String)| (p.0@, p.1@)), views(updated@)),
{
    let ghost fv = files@.map_values(|p: (String, String)| (p.0@, p.1@));
    let mut r: Vec<String> = Vec::new();
    let mut i: usize = 0;
    while i < files.len()
        invariant
            i <= files@.len(),
            fv == files@.map_values(|p: (String, String)| (p.0@, p.1@)),
            views(r@) == untouched_files(fv.take(i as int), views(updated@)),
        decreases files@.len() - i,
    {
        proof {
            assert(fv.take(i + 1).drop_last() =~= fv.take(i as int));
            assert(fv.take(i + 1).last() == fv[i as int]);
        }
        if !contains_string(updated, files[i].1.as_str()) {
            let ghost prev = r@;
            r.push(files[i].0.clone());
            proof {
                assert(views(r@) =~= views(prev).push(files@[i as int].0@));
            }
        }
        i += 1;
    }
    assert(fv.take(files@.len() as int) =~= fv);
    r
}

} // verus!
