//! Configuration model for promotions.
//!
//! Two styles are supported: single-repo (top-level `environments`, with
//! optional `default_source`/`default_dest`) and multi-repo (`repos`, each
//! with its own environments). Maps of the configuration are held as vectors
//! of `(key, value)` entries.
use vstd::prelude::*;
use std::cmp::Ordering;
use crate::ext::{glob_match, glob_matches};
use crate::keyed::{contains_key, find_key, has_key, key_index, lookup, value_of};
use crate::error::PromrailError;
use crate::config_doc::{fields_doc, generate_docs_for, header_doc, ConfigDoc, DocField};
use crate::order::{
    compare_padded, lemma_padded_not_above_itself, lemma_padded_not_above_trans, lemma_padded_reversed,
    loose_numbers, loose_version_order, some_numbers, version_parts,
};
use crate::text::{contains_string, views};

verus! {

/// Main configuration structure.
pub struct Config {
    pub version: u32,
    pub environments: Vec<(String, EnvironmentConfig)>,
    pub default_source: Option<String>,
    pub default_sources: Vec<String>,
    pub default_dest: Option<String>,
    pub repos: Vec<(String, RepoConfig)>,
    pub default_repo: String,
    pub protected_dirs: Vec<String>,
    pub allowlist: Vec<String>,
    pub denylist: Vec<String>,
    pub delete: DeleteConfig,
    pub git: GitConfig,
    pub audit: AuditConfig,
    pub rules: PromotionRules,
    pub output: OutputConfig,
}

/// Promotion rules for multi-source workflows.
pub struct PromotionRules {
    pub sources: Vec<(String, SourceRule)>,
    pub conflict_resolution: ConflictResolution,
    pub components: Vec<(String, ComponentRule)>,
    pub global: GlobalRules,
}

/// Source rule for multi-source promotion.
pub struct SourceRule {
    pub priority: u32,
    pub description: String,
    pub path: Option<String>,
    pub include_globs: Vec<String>,
    pub exclude: Vec<String>,
}

/// Conflict resolution strategies.
pub struct ConflictResolution {
    pub version_strategy: VersionStrategy,
    pub config_strategy: ConfigStrategy,
    pub source_order: Vec<String>,
}

/// Version conflict resolution strategy.
#[derive(PartialEq, Eq, Structural, Clone, Copy)]
pub enum VersionStrategy {
    /// Use highest version number.
    Highest,
    /// Use newest by timestamp (requires metadata).
    Newest,
    /// Use version from highest priority source.
    SourcePriority,
}

/// Config conflict resolution strategy.
#[derive(PartialEq, Eq, Structural, Clone, Copy)]
pub enum ConfigStrategy {
    /// Use config from highest priority source.
    SourcePriority,
    /// Attempt to merge configs.
    Merge,
    /// Fail on conflict.
    Fail,
}

/// Promotion action for a component.
#[derive(PartialEq, Eq, Structural, Clone, Copy)]
pub enum PromotionAction {
    /// Always promote without question.
    Always,
    /// Flag for review.
    Review,
    /// Never promote this component.
    Never,
}

/// How a change of chart repository or image registry is handled.
#[derive(PartialEq, Eq, Structural, Clone, Copy)]
pub enum SourceChangeHandling {
    /// Drop the conflict.
    Ignore,
    /// Keep the conflict as a warning.
    Warn,
    /// Keep the conflict and require review.
    Review,
    /// Keep the conflict and block the promotion.
    Block,
}

/// The name of a version strategy, as the configuration writes it.
pub open spec fn version_strategy_name(s: VersionStrategy) -> Seq<char> {
    match s {
        VersionStrategy::Highest => "highest"@,
        VersionStrategy::Newest => "newest"@,
        VersionStrategy::SourcePriority => "source_priority"@,
    }
}

/// The name of a config strategy, as the configuration writes it.
pub open spec fn config_strategy_name(s: ConfigStrategy) -> Seq<char> {
    match s {
        ConfigStrategy::SourcePriority => "source_priority"@,
        ConfigStrategy::Merge => "merge"@,
        ConfigStrategy::Fail => "fail"@,
    }
}

/// The name of a promotion action, as the configuration writes it.
pub open spec fn action_name(a: PromotionAction) -> Seq<char> {
    match a {
        PromotionAction::Always => "always"@,
        PromotionAction::Review => "review"@,
        PromotionAction::Never => "never"@,
    }
}

impl VersionStrategy {
    /// The name of the strategy, as the configuration writes it.
    pub fn name(&self) -> (r: &'static str)
        ensures
            r@ == version_strategy_name(*self),
    {
        match self {
            VersionStrategy::Highest => "highest",
            VersionStrategy::Newest => "newest",
            VersionStrategy::SourcePriority => "source_priority",
        }
    }
}

impl ConfigStrategy {
    /// The name of the strategy, as the configuration writes it.
    pub fn name(&self) -> (r: &'static str)
        ensures
            r@ == config_strategy_name(*self),
    {
        match self {
            ConfigStrategy::SourcePriority => "source_priority",
            ConfigStrategy::Merge => "merge",
            ConfigStrategy::Fail => "fail",
        }
    }
}

impl PromotionAction {
    /// The name of the action, as the configuration writes it.
    pub fn name(&self) -> (r: &'static str)
        ensures
            r@ == action_name(*self),
    {
        match self {
            PromotionAction::Always => "always",
            PromotionAction::Review => "review",
            PromotionAction::Never => "never",
        }
    }
}

/// How version-managed files are promoted.
#[derive(PartialEq, Eq, Structural, Clone, Copy)]
pub enum VersionHandling {
    /// Copy the whole file.
    WholeFile,
    /// Update only the version fields.
    Structured,
}

/// Paths of a file that keep their destination values.
pub struct PreserveRule {
    pub file: String,
    pub paths: Vec<String>,
}

/// Component-level promotion rule.
pub struct ComponentRule {
    pub action: PromotionAction,
    pub notes: String,
    pub version_constraint: Option<String>,
    pub source_change_handling: SourceChangeHandling,
    pub version_handling: VersionHandling,
    pub preserve: Vec<PreserveRule>,
}

/// Global rules applied to all promotions.
pub struct GlobalRules {
    pub exclude: Vec<String>,
    pub review_required: Vec<String>,
    pub version_rules: VersionRules,
    pub promote_options: PromoteOptions,
}

/// Options for multi-source promotion.
pub struct PromoteOptions {
    pub allow_duplicates: bool,
    pub only_existing: bool,
    pub no_delete: bool,
    pub ignore_gitignore: bool,
}

/// Version change rules.
pub struct VersionRules {
    pub allow_downgrade: bool,
    pub allow_prerelease: bool,
    pub min_age_hours: Option<u32>,
}

/// Repository configuration.
pub struct RepoConfig {
    pub path: String,
    pub environments: Vec<(String, EnvironmentConfig)>,
}

/// Environment configuration (staging, production, etc.).
pub struct EnvironmentConfig {
    pub path: String,
}

/// Delete behavior configuration.
pub struct DeleteConfig {
    pub enabled: bool,
    pub dest_based: bool,
}

/// Git integration configuration.
pub struct GitConfig {
    pub require_clean_tree: bool,
}

/// Audit logging configuration.
pub struct AuditConfig {
    pub enabled: bool,
    pub log_file: String,
}

/// Output settings.
pub struct OutputConfig {
    pub level: OutputLevel,
}

/// How much a promotion prints.
#[derive(PartialEq, Eq, Structural, Clone, Copy)]
pub enum OutputLevel {
    Minimal,
    Normal,
    Verbose,
}

/// Some pattern of `patterns` matches `path` as a `glob_match` glob.
pub open spec fn any_glob(patterns: Seq<String>, path: Seq<char>) -> bool {
    exists|i: int| 0 <= i < patterns.len() && glob_matches(#[trigger] patterns[i]@, path)
}

/// Whether some pattern of `patterns` matches `path` as a `glob_match` glob.
pub fn any_glob_matches(patterns: &Vec<String>, path: &str) -> (r: bool)
    ensures
        r == any_glob(patterns@, path@),
{
    let mut i: usize = 0;
    while i < patterns.len()
        invariant
            i <= patterns@.len(),
            forall|j: int| 0 <= j < i ==> !glob_matches(#[trigger] patterns@[j]@, path@),
        decreases patterns@.len() - i,
    {
        if glob_match(patterns[i].as_str(), path) {
            return true;
        }
        i += 1;
    }
    false
}

impl PromotionRules {
    /// The action the rules give `component`: its own rule's action, else
    /// `Never` when a global exclusion matches, else `Review` when a global
    /// review pattern matches, else `Always`.
    pub open spec fn action_for(self, component: Seq<char>) -> PromotionAction {
        match value_of(self.components@, component) {
            Some(rule) => rule.action,
            None => if any_glob(self.global.exclude@, component) {
                PromotionAction::Never
            } else if any_glob(self.global.review_required@, component) {
                PromotionAction::Review
            } else {
                PromotionAction::Always
            },
        }
    }

    /// Whether `source` takes `component`: a source without a rule takes
    /// everything; otherwise nothing its exclusions match, and, when it lists
    /// inclusions, only what they match.
    pub open spec fn includes(self, source: Seq<char>, component: Seq<char>) -> bool {
        match value_of(self.sources@, source) {
            None => true,
            Some(rule) => !any_glob(rule.exclude@, component) && (rule.include_globs@.len() == 0
                || any_glob(rule.include_globs@, component)),
        }
    }

    /// Priority of `source` (zero without a rule).
    pub open spec fn priority_of(self, source: Seq<char>) -> u32 {
        match value_of(self.sources@, source) {
            Some(rule) => rule.priority,
            None => 0,
        }
    }

    /// Check if rules are defined.
    pub fn has_rules(&self) -> (r: bool)
        ensures
            r == (self.sources@.len() > 0 || self.components@.len() > 0),
    {
        self.sources.len() > 0 || self.components.len() > 0
    }

    /// The rule written for exactly this component.
    pub fn get_component_rule(&self, component: &str) -> (r: Option<&ComponentRule>)
        ensures
            match r {
                Some(rule) => value_of(self.components@, component@) == Some(*rule),
                None => value_of(self.components@, component@) is None,
            },
    {
        lookup(&self.components, component)
    }

    /// Get action for a component path.
    pub fn get_action(&self, component: &str) -> (r: PromotionAction)
        ensures
            r == self.action_for(component@),
    {
        match lookup(&self.components, component) {
            Some(rule) => rule.action,
            None => {
                if any_glob_matches(&self.global.exclude, component) {
                    PromotionAction::Never
                } else if any_glob_matches(&self.global.review_required, component) {
                    PromotionAction::Review
                } else {
                    PromotionAction::Always
                }
            },
        }
    }

    /// Check if a source should include a component.
    pub fn source_includes(&self, source: &str, component: &str) -> (r: bool)
        ensures
            r == self.includes(source@, component@),
    {
        match lookup(&self.sources, source) {
            Some(rule) => {
                if any_glob_matches(&rule.exclude, component) {
                    return false;
                }
                if rule.include_globs.len() == 0 {
                    return true;
                }
                any_glob_matches(&rule.include_globs, component)
            },
            None => true,
        }
    }

    /// Get source priority (higher = higher priority).
    pub fn get_source_priority(&self, source: &str) -> (r: u32)
        ensures
            r == self.priority_of(source@),
    {
        match lookup(&self.sources, source) {
            Some(rule) => rule.priority,
            None => 0,
        }
    }
}

/// Index of the version that `max_by` on the loose version order picks: the
/// last of the highest.
pub open spec fn highest_version_index(vs: Seq<(Seq<char>, Seq<char>)>) -> int
    decreases vs.len(),
{
    if vs.len() <= 1 {
        0
    } else {
        let j = highest_version_index(vs.drop_last());
        if version_above(vs[j].1, vs.last().1) {
            j
        } else {
            vs.len() - 1
        }
    }
}

/// The candidate at `highest_version_index` is below none of the others.
proof fn lemma_highest_is_not_below(vs: Seq<(Seq<char>, Seq<char>)>)
    requires
        vs.len() > 0,
    ensures
        forall|k: int| 0 <= k < vs.len() ==> !version_above(#[trigger] vs[k].1, vs[highest_version_index(vs)].1),
    decreases vs.len(),
{
    lemma_highest_index_bounds(vs);
    let h = highest_version_index(vs);
    let nums = |v: Seq<char>| some_numbers(version_parts(v));
    if vs.len() == 1 {
        lemma_padded_not_above_itself(nums(vs[0].1));
    } else {
        let d = vs.drop_last();
        lemma_highest_is_not_below(d);
        lemma_highest_index_bounds(d);
        let j = highest_version_index(d);
        assert(d[j] == vs[j]);
        let last = vs.len() - 1;
        assert(vs.last() == vs[last]);
        lemma_padded_reversed(nums(vs[j].1), nums(vs[last].1));
        lemma_padded_not_above_itself(nums(vs[last].1));
        assert forall|k: int| 0 <= k < vs.len() implies !version_above(#[trigger] vs[k].1, vs[h].1) by {
            if k < last {
                assert(d[k] == vs[k]);
                assert(!version_above(d[k].1, d[j].1));
                if h == last {
                    lemma_padded_not_above_trans(nums(vs[k].1), nums(vs[j].1), nums(vs[last].1));
                }
            }
        }
    }
}

/// Under the `Highest` strategy, the candidate a version conflict is
/// resolved to is below none of the others, versions compared part by part
/// over all their numeric parts.
pub proof fn highest_strategy_picks_a_highest_version(rules: PromotionRules, vs: Seq<(Seq<char>, Seq<char>)>)
    requires
        rules.conflict_resolution.version_strategy == VersionStrategy::Highest,
        vs.len() > 0,
    ensures
        rules.chosen_version(vs) matches Some(i) && 0 <= i < vs.len() && forall|k: int|
            0 <= k < vs.len() ==> !version_above(#[trigger] vs[k].1, vs[i].1),
{
    if vs.len() == 1 {
        lemma_padded_not_above_itself(some_numbers(version_parts(vs[0].1)));
    } else {
        lemma_highest_is_not_below(vs);
        lemma_highest_index_bounds(vs);
    }
}

/// Index of the entry that `max_by_key` on source priority picks: the last
/// of the highest priority.
pub open spec fn top_priority_index(rules: PromotionRules, names: Seq<Seq<char>>) -> int
    decreases names.len(),
{
    if names.len() <= 1 {
        0
    } else {
        let j = top_priority_index(rules, names.drop_last());
        if rules.priority_of(names[j]) > rules.priority_of(names.last()) {
            j
        } else {
            names.len() - 1
        }
    }
}

/// The index that `highest_version_index` picks lies in the sequence.
pub proof fn lemma_highest_index_bounds(vs: Seq<(Seq<char>, Seq<char>)>)
    requires
        vs.len() > 0,
    ensures
        0 <= highest_version_index(vs) < vs.len(),
    decreases vs.len(),
{
    if vs.len() > 1 {
        lemma_highest_index_bounds(vs.drop_last());
    }
}

/// The index that `top_priority_index` picks lies in the sequence.
pub proof fn lemma_top_priority_bounds(rules: PromotionRules, names: Seq<Seq<char>>)
    requires
        names.len() > 0,
    ensures
        0 <= top_priority_index(rules, names) < names.len(),
    decreases names.len(),
{
    if names.len() > 1 {
        lemma_top_priority_bounds(rules, names.drop_last());
    }
}

/// `(source, version)` pairs as texts.
pub open spec fn pairs_view(v: Seq<(String, String)>) -> Seq<(Seq<char>, Seq<char>)> {
    Seq::new(v.len(), |i: int| (v[i].0@, v[i].1@))
}

/// The first source of `order` that is among `names`, if any.
pub open spec fn first_ordered(order: Seq<Seq<char>>, names: Seq<Seq<char>>) -> Option<Seq<char>>
    decreases order.len(),
{
    if order.len() == 0 {
        None
    } else if names.contains(order[0]) {
        Some(order[0])
    } else {
        first_ordered(order.drop_first(), names)
    }
}

/// `a` is a higher version than `b` by the loose version order.
pub open spec fn version_above(a: Seq<char>, b: Seq<char>) -> bool {
    loose_version_order(a, b) == Ordering::Greater
}

/// Compare versions by their numeric parts, missing parts counting as zero.
fn compare_versions(a: &str, b: &str) -> (r: Ordering)
    ensures
        r == loose_version_order(a@, b@),
{
    let x = loose_numbers(a);
    let y = loose_numbers(b);
    compare_padded(x.as_slice(), y.as_slice())
}

/// Whether `a` is a higher version than `b`.
fn is_version_above(a: &str, b: &str) -> (r: bool)
    ensures
        r == version_above(a@, b@),
{
    match compare_versions(a, b) {
        Ordering::Greater => true,
        Ordering::Less => false,
        Ordering::Equal => false,
    }
}

impl PromotionRules {
    /// Which of the `(source, version)` candidates a version conflict is
    /// resolved to, by the configured strategy.
    pub open spec fn chosen_version(self, vs: Seq<(Seq<char>, Seq<char>)>) -> Option<int> {
        if vs.len() == 0 {
            None
        } else if vs.len() == 1 {
            Some(0)
        } else {
            match self.conflict_resolution.version_strategy {
                VersionStrategy::Highest => Some(highest_version_index(vs)),
                VersionStrategy::SourcePriority => Some(
                    top_priority_index(self, vs.map_values(|p: (Seq<char>, Seq<char>)| p.0)),
                ),
                VersionStrategy::Newest => Some(0),
            }
        }
    }

    /// The candidate that `chosen_version` picks lies in the sequence.
    pub proof fn lemma_chosen_version_bounds(self, vs: Seq<(Seq<char>, Seq<char>)>)
        ensures
            self.chosen_version(vs) matches Some(i) ==> 0 <= i < vs.len(),
    {
        if vs.len() > 1 {
            lemma_highest_index_bounds(vs);
            lemma_top_priority_bounds(self, vs.map_values(|p: (Seq<char>, Seq<char>)| p.0));
        }
    }

    /// Which source of `names` a configuration conflict is resolved to: the
    /// first of `source_order` among them, else the one of highest priority.
    pub open spec fn chosen_config_source(self, names: Seq<Seq<char>>) -> Option<Seq<char>> {
        if names.len() == 0 {
            None
        } else {
            match first_ordered(views(self.conflict_resolution.source_order@), names) {
                Some(s) => Some(s),
                None => Some(names[top_priority_index(self, names)]),
            }
        }
    }

    /// Resolve version conflict between sources.
    pub fn resolve_version_conflict(&self, versions: &[(String, String)]) -> (r: Option<(String, String)>)
        ensures
            self.chosen_version(pairs_view(versions@)) matches Some(i) ==> 0 <= i < versions@.len(),
            match self.chosen_version(pairs_view(versions@)) {
                Some(i) => r matches Some(p) && p.0@ == versions@[i].0@ && p.1@ == versions@[i].1@,
                None => r is None,
            },
    {
        proof {
            self.lemma_chosen_version_bounds(pairs_view(versions@));
        }
        if versions.len() == 0 {
            return None;
        }
        if versions.len() == 1 {
            return Some((versions[0].0.clone(), versions[0].1.clone()));
        }
        let ghost vs = pairs_view(versions@);
        match self.conflict_resolution.version_strategy {
            VersionStrategy::Highest => {
                let mut best: usize = 0;
                let mut i: usize = 1;
                while i < versions.len()
                    invariant
                        1 <= i <= versions@.len(),
                        vs == pairs_view(versions@),
                        best < i,
                        best == highest_version_index(vs.take(i as int)),
                    decreases versions@.len() - i,
                {
                    assert(vs.take(i + 1).drop_last() =~= vs.take(i as int));
                    if !is_version_above(versions[best].1.as_str(), versions[i].1.as_str()) {
                        best = i;
                    }
                    i += 1;
                }
                assert(vs.take(i as int) =~= vs);
                Some((versions[best].0.clone(), versions[best].1.clone()))
            },
            VersionStrategy::SourcePriority => {
                let ghost names = vs.map_values(|p: (Seq<char>, Seq<char>)| p.0);
                let mut best: usize = 0;
                let mut i: usize = 1;
                while i < versions.len()
                    invariant
                        1 <= i <= versions@.len(),
                        vs == pairs_view(versions@),
                        names == vs.map_values(|p: (Seq<char>, Seq<char>)| p.0),
                        best < i,
                        best == top_priority_index(*self, names.take(i as int)),
                    decreases versions@.len() - i,
                {
                    assert(names.take(i + 1).drop_last() =~= names.take(i as int));
                    if !(self.get_source_priority(versions[best].0.as_str())
                        > self.get_source_priority(versions[i].0.as_str())) {
                        best = i;
                    }
                    i += 1;
                }
                assert(names.take(i as int) =~= names);
                Some((versions[best].0.clone(), versions[best].1.clone()))
            },
            VersionStrategy::Newest => Some((versions[0].0.clone(), versions[0].1.clone())),
        }
    }

    /// Resolve which source a conflicting configuration file is taken from.
    pub fn resolve_config_source(&self, candidates: &[String]) -> (r: Option<String>)
        ensures
            match self.chosen_config_source(views(candidates@)) {
                Some(s) => r matches Some(x) && x@ == s,
                None => r is None,
            },
    {
        let ghost names = views(candidates@);
        if candidates.len() == 0 {
            return None;
        }
        let order = &self.conflict_resolution.source_order;
        let ghost ord = views(order@);
        let mut k: usize = 0;
        assert(ord.skip(0) =~= ord);
        while k < order.len()
            invariant
                k <= order@.len(),
                ord == views(order@),
                ord == views(self.conflict_resolution.source_order@),
                names == views(candidates@),
                first_ordered(ord, names) == first_ordered(ord.skip(k as int), names),
            decreases order@.len() - k,
        {
            assert(ord.skip(k as int).drop_first() =~= ord.skip(k + 1));
            assert(ord.skip(k as int)[0] == order@[k as int]@);
            if contains_string_slice(candidates, order[k].as_str()) {
                assert(ord.skip(k as int).len() > 0);
                assert(first_ordered(ord.skip(k as int), names) == Some(order@[k as int]@));
                return Some(order[k].clone());
            }
            k += 1;
        }
        let mut best: usize = 0;
        let mut i: usize = 1;
        while i < candidates.len()
            invariant
                1 <= i <= candidates@.len(),
                names == views(candidates@),
                best < i,
                best == top_priority_index(*self, names.take(i as int)),
            decreases candidates@.len() - i,
        {
            assert(names.take(i + 1).drop_last() =~= names.take(i as int));
            if !(self.get_source_priority(candidates[best].as_str()) > self.get_source_priority(
                candidates[i].as_str(),
            )) {
                best = i;
            }
            i += 1;
        }
        assert(names.take(i as int) =~= names);
        Some(candidates[best].clone())
    }
}

/// Whether the slice `v` holds a string equal to `s`.
fn contains_string_slice(v: &[String], s: &str) -> (r: bool)
    ensures
        r == views(v@).contains(s@),
{
    let mut i: usize = 0;
    while i < v.len()
        invariant
            i <= v@.len(),
            forall|j: int| 0 <= j < i ==> v@[j]@ != s@,
        decreases v@.len() - i,
    {
        if crate::text::str_eq(v[i].as_str(), s) {
            assert(views(v@)[i as int] == s@);
            return true;
        }
        i += 1;
    }
    assert forall|j: int| 0 <= j < views(v@).len() implies views(v@)[j] != s@ by {}
    false
}


impl EnvironmentConfig {
    /// A copy of this environment.
    pub fn copy(&self) -> (r: Self)
        ensures
            r == *self,
    {
        EnvironmentConfig { path: self.path.clone() }
    }
}

/// A copy of some environment entries.
pub fn copy_environments(v: &Vec<(String, EnvironmentConfig)>) -> (r: Vec<(String, EnvironmentConfig)>)
    ensures
        r@ == v@,
{
    let mut r: Vec<(String, EnvironmentConfig)> = Vec::new();
    let mut i: usize = 0;
    while i < v.len()
        invariant
            i <= v@.len(),
            r@ == v@.take(i as int),
        decreases v@.len() - i,
    {
        r.push((v[i].0.clone(), v[i].1.copy()));
        assert(r@ =~= v@.take(i + 1));
        i += 1;
    }
    assert(v@.take(v@.len() as int) =~= v@);
    r
}

/// `path` with a leading `~` replaced by the home directory, when one is
/// known.
pub open spec fn expanded_path(path: Seq<char>, home: Option<Seq<char>>) -> Seq<char> {
    match home {
        Some(h) => if path.len() > 0 && path[0] == '~' {
            h + path.skip(1)
        } else {
            path
        },
        None => path,
    }
}

/// Whether `out` is `path` expanded with some home directory, or with none.
pub open spec fn expands_to(path: Seq<char>, out: Seq<char>) -> bool {
    exists|h: Option<Seq<char>>| out == #[trigger] expanded_path(path, h)
}

/// The view of an optional text.
pub open spec fn opt_view(o: Option<String>) -> Option<Seq<char>> {
    match o {
        Some(s) => Some(s@),
        None => None,
    }
}

/// `path` with a leading `~` replaced by `home`, when `home` is known.
pub fn expand_home(path: &str, home: Option<String>) -> (r: String)
    ensures
        r@ == expanded_path(path@, opt_view(home)),
{
    match home {
        Some(h) => {
            let chars = crate::text::chars_of(path);
            if chars.len() > 0 && chars[0] == '~' {
                let rest = crate::text::slice_of(chars.as_slice(), 1, chars.len());
                let tail = crate::text::string_of(rest.as_slice());
                let mut r = h;
                r.append(tail.as_str());
                assert(chars@.subrange(1, chars@.len() as int) =~= path@.skip(1));
                r
            } else {
                crate::text::owned(path)
            }
        },
        None => crate::text::owned(path),
    }
}

impl RepoConfig {
    /// A copy of this repository.
    pub fn copy(&self) -> (r: Self)
        ensures
            r.path == self.path,
            r.environments@ == self.environments@,
    {
        RepoConfig { path: self.path.clone(), environments: copy_environments(&self.environments) }
    }

    /// Resolve path with `~` expansion. The home directory comes from the
    /// environment, so the result is the path expanded with some home, or
    /// with none.
    pub fn resolved_path(&self) -> (r: String)
        ensures
            expands_to(self.path@, r@),
    {
        let home = crate::ext::home_dir();
        let r = expand_home(self.path.as_str(), home);
        proof {
            let h = opt_view(home);
            assert(r@ == expanded_path(self.path@, h));
        }
        r
    }

    /// Check if this repo has environments defined (v1 style).
    pub fn has_environments(&self) -> (r: bool)
        ensures
            r == (self.environments@.len() > 0),
    {
        self.environments.len() > 0
    }
}

/// Default for settings that are on unless turned off.
pub fn default_true() -> (r: bool)
    ensures
        r,
{
    true
}

/// Default audit log file.
pub fn default_log_file() -> (r: String)
    ensures
        r@ == ".promotion-log.yaml"@,
{
    crate::text::owned(".promotion-log.yaml")
}

/// The repository that single-repo mode stands for: the current directory,
/// with no environments of its own.
pub open spec fn implicit_repo(r: RepoConfig) -> bool {
    r.path@ == "."@ && r.environments@.len() == 0
}

/// Why a configuration is inconsistent, if it is.
pub open spec fn validation_error(c: Config) -> Option<Seq<char>> {
    if c.environments@.len() > 0 {
        match c.default_source {
            Some(s) if !has_key(c.environments@, s@) => Some(
                "default_source '"@ + s@ + "' not found in environments"@,
            ),
            _ => match c.default_dest {
                Some(d) if !has_key(c.environments@, d@) => Some(
                    "default_dest '"@ + d@ + "' not found in environments"@,
                ),
                _ => None,
            },
        }
    } else if c.repos@.len() == 0 {
        Some("no environments or repos defined"@)
    } else if c.default_repo@.len() > 0 && !has_key(c.repos@, c.default_repo@) {
        Some("default_repo '"@ + c.default_repo@ + "' not found in repos"@)
    } else {
        None
    }
}

impl Config {
    /// The environments in use: the top-level ones, else those of the
    /// default repository, else none.
    pub open spec fn environments_in_use(self) -> Seq<(String, EnvironmentConfig)> {
        if self.environments@.len() > 0 {
            self.environments@
        } else {
            match value_of(self.repos@, self.default_repo@) {
                Some(r) => r.environments@,
                None => Seq::empty(),
            }
        }
    }

    /// Validate configuration consistency.
    pub fn validate(&self) -> (r: Result<(), PromrailError>)
        ensures
            match validation_error(*self) {
                None => r is Ok,
                Some(m) => r matches Err(PromrailError::ConfigInvalid(e)) && e@ == m,
            },
    {
        if self.environments.len() > 0 {
            if let Some(source) = &self.default_source {
                if !contains_key(&self.environments, source.as_str()) {
                    let m = crate::text::cat(
                        &["default_source '", source.as_str(), "' not found in environments"],
                    );
                    proof {
                        reveal_with_fuel(crate::text::cat_views, 4);
                    }
                    return Err(PromrailError::ConfigInvalid(m));
                }
            }
            if let Some(dest) = &self.default_dest {
                if !contains_key(&self.environments, dest.as_str()) {
                    let m = crate::text::cat(
                        &["default_dest '", dest.as_str(), "' not found in environments"],
                    );
                    proof {
                        reveal_with_fuel(crate::text::cat_views, 4);
                    }
                    return Err(PromrailError::ConfigInvalid(m));
                }
            }
            return Ok(());
        }
        if self.repos.len() == 0 {
            return Err(
                PromrailError::ConfigInvalid(crate::text::owned("no environments or repos defined")),
            );
        }
        if !self.default_repo.as_str().is_empty() && !contains_key(
            &self.repos,
            self.default_repo.as_str(),
        ) {
            let m = crate::text::cat(
                &["default_repo '", self.default_repo.as_str(), "' not found in repos"],
            );
            proof {
                reveal_with_fuel(crate::text::cat_views, 4);
            }
            return Err(PromrailError::ConfigInvalid(m));
        }
        Ok(())
    }

    /// Get environments (either top-level or from default repo).
    pub fn get_environments(&self) -> (r: Vec<(String, EnvironmentConfig)>)
        ensures
            r@ == self.environments_in_use(),
    {
        if self.environments.len() > 0 {
            return copy_environments(&self.environments);
        }
        match lookup(&self.repos, self.default_repo.as_str()) {
            Some(repo) => copy_environments(&repo.environments),
            None => Vec::new(),
        }
    }

    /// Check if using single-repo mode (top-level environments).
    pub fn is_single_repo(&self) -> (r: bool)
        ensures
            r == (self.environments@.len() > 0),
    {
        self.environments.len() > 0
    }

    /// Get a repository by name, or the default if none specified; in
    /// single-repo mode, the implicit repository named `default`.
    pub fn get_repo(&self, name: Option<&str>) -> (r: Result<(String, RepoConfig), PromrailError>)
        ensures
            self.environments@.len() > 0 ==> (r matches Ok((n, repo)) && n@ == "default"@
                && implicit_repo(repo)),
            self.environments@.len() == 0 ==> ({
                let key = match name {
                    Some(n) => n@,
                    None => self.default_repo@,
                };
                match value_of(self.repos@, key) {
                    Some(repo) => r matches Ok((n, found)) && n@ == key && found.path == repo.path
                        && found.environments@ == repo.environments@,
                    None => r matches Err(PromrailError::RepoNotFound(m)) && m@ == key,
                }
            }),
    {
        if self.environments.len() > 0 {
            let repo = RepoConfig { path: crate::text::owned("."), environments: Vec::new() };
            return Ok((crate::text::owned("default"), repo));
        }
        let key: &str = match name {
            Some(n) => n,
            None => self.default_repo.as_str(),
        };
        match lookup(&self.repos, key) {
            Some(repo) => Ok((crate::text::owned(key), repo.copy())),
            None => Err(PromrailError::RepoNotFound(crate::text::owned(key))),
        }
    }

    /// The first repository: the implicit one in single-repo mode, else the
    /// first entry of `repos`.
    pub fn first_repo(&self) -> (r: Option<(String, RepoConfig)>)
        ensures
            self.environments@.len() > 0 ==> (r matches Some((n, repo)) && n@ == "default"@
                && implicit_repo(repo)),
            self.environments@.len() == 0 && self.repos@.len() == 0 ==> r is None,
            self.environments@.len() == 0 && self.repos@.len() > 0 ==> (r matches Some((n, repo))
                && n == self.repos@[0].0 && repo.path == self.repos@[0].1.path
                && repo.environments@ == self.repos@[0].1.environments@),
    {
        if self.environments.len() > 0 {
            let repo = RepoConfig { path: crate::text::owned("."), environments: Vec::new() };
            return Some((crate::text::owned("default"), repo));
        }
        if self.repos.len() == 0 {
            return None;
        }
        Some((self.repos[0].0.clone(), self.repos[0].1.copy()))
    }

    /// Check if using v2 style (standalone repos without environments).
    pub fn is_v2_style(&self) -> (r: bool)
        ensures
            r == (forall|i: int| 0 <= i < self.repos@.len() ==> (#[trigger] self.repos@[i]).1.environments@.len() == 0),
    {
        let mut i: usize = 0;
        while i < self.repos.len()
            invariant
                i <= self.repos@.len(),
                forall|j: int| 0 <= j < i ==> (#[trigger] self.repos@[j]).1.environments@.len() == 0,
            decreases self.repos@.len() - i,
        {
            if self.repos[i].1.environments.len() > 0 {
                return false;
            }
            i += 1;
        }
        true
    }
}

/// The rules a configuration without `rules` has: no source or component
/// rules and no patterns; the highest version wins, configuration files
/// come from the source with the highest priority; downgrades and
/// pre-releases are not allowed, there is no minimum age, and every
/// promote option is off.
pub open spec fn default_rules(r: PromotionRules) -> bool {
    &&& r.sources@.len() == 0
    &&& r.conflict_resolution.version_strategy == VersionStrategy::Highest
    &&& r.conflict_resolution.config_strategy == ConfigStrategy::SourcePriority
    &&& r.conflict_resolution.source_order@.len() == 0
    &&& r.components@.len() == 0
    &&& r.global.exclude@.len() == 0
    &&& r.global.review_required@.len() == 0
    &&& !r.global.version_rules.allow_downgrade
    &&& !r.global.version_rules.allow_prerelease
    &&& r.global.version_rules.min_age_hours is None
    &&& !r.global.promote_options.allow_duplicates
    &&& !r.global.promote_options.only_existing
    &&& !r.global.promote_options.no_delete
    &&& !r.global.promote_options.ignore_gitignore
}

impl Default for PromotionRules {
    /// Rules that say nothing: see `default_rules`.
    fn default() -> (r: Self)
        ensures
            default_rules(r),
    {
        PromotionRules {
            sources: Vec::new(),
            conflict_resolution: ConflictResolution {
                version_strategy: VersionStrategy::Highest,
                config_strategy: ConfigStrategy::SourcePriority,
                source_order: Vec::new(),
            },
            components: Vec::new(),
            global: GlobalRules {
                exclude: Vec::new(),
                review_required: Vec::new(),
                version_rules: VersionRules {
                    allow_downgrade: false,
                    allow_prerelease: false,
                    min_age_hours: None,
                },
                promote_options: PromoteOptions {
                    allow_duplicates: false,
                    only_existing: false,
                    no_delete: false,
                    ignore_gitignore: false,
                },
            },
        }
    }
}

impl Default for Config {
    /// An empty configuration: no environments, repositories, patterns or
    /// rules, every switch off.
    fn default() -> (r: Self)
        ensures
            r.version == 0,
            r.environments@.len() == 0,
            r.default_source is None,
            r.default_sources@.len() == 0,
            r.default_dest is None,
            r.repos@.len() == 0,
            r.default_repo@.len() == 0,
            r.protected_dirs@.len() == 0,
            r.allowlist@.len() == 0,
            r.denylist@.len() == 0,
            !r.delete.enabled,
            !r.delete.dest_based,
            !r.git.require_clean_tree,
            !r.audit.enabled,
            r.audit.log_file@.len() == 0,
            default_rules(r.rules),
            r.output.level == OutputLevel::Normal,
    {
        Config {
            version: 0,
            environments: Vec::new(),
            default_source: None,
            default_sources: Vec::new(),
            default_dest: None,
            repos: Vec::new(),
            default_repo: String::new(),
            protected_dirs: Vec::new(),
            allowlist: Vec::new(),
            denylist: Vec::new(),
            delete: DeleteConfig { enabled: false, dest_based: false },
            git: GitConfig { require_clean_tree: false },
            audit: AuditConfig { enabled: false, log_file: String::new() },
            rules: PromotionRules::default(),
            output: OutputConfig { level: OutputLevel::Normal },
        }
    }
}


/// The documented fields of the configuration, in declaration order.
pub open spec fn config_fields() -> Seq<DocField> {
    seq![
        DocField { name: "version", type_text: "u32", description: " Config schema version (currently 1).", default: Some("1"), example: None, env: None, required: true, nested: None },
        DocField { name: "environments", type_text: "HashMap<String, EnvironmentConfig>", description: " Top-level environments for single-repo mode.  Use this when promrail.yaml is in the repo root.  Mutually exclusive with defining environments under repos.", default: None, example: Some("staging: { path: clusters/staging }"), env: None, required: false, nested: None },
        DocField { name: "default_source", type_text: "Option<String>", description: " Default source environment for promote/diff commands.  Enables running `prl promote` without --source flag.", default: None, example: None, env: None, required: false, nested: None },
        DocField { name: "default_dest", type_text: "Option<String>", description: " Default destination environment for promote/diff commands.  Enables running `prl promote` without --dest flag.", default: None, example: None, env: None, required: false, nested: None },
        DocField { name: "repos", type_text: "HashMap<String, RepoConfig>", description: " Repository definitions. Each repo has a path and optional environments.  Required for multi-repo setups. Optional for single-repo (use top-level environments).", default: None, example: Some("gitops: { path: ~/gitops }"), env: None, required: false, nested: None },
        DocField { name: "default_repo", type_text: "String", description: " Default repository name. Required when multiple repos are defined.", default: None, example: None, env: Some("PROMRAIL_REPO"), required: false, nested: None },
        DocField { name: "protected_dirs", type_text: "Vec<String>", description: " Directories that are never modified during promotion.  Useful for environment-specific customizations.  Recommended: custom, env (for env-specific patches and config)", default: None, example: Some("[custom, env, local]"), env: None, required: false, nested: None },
        DocField { name: "allowlist", type_text: "Vec<String>", description: " Glob patterns for files that can be promoted.  Files must match at least one pattern to be promoted.", default: None, example: Some("[\"platform/**/*.yaml\"]"), env: None, required: false, nested: None },
        DocField { name: "denylist", type_text: "Vec<String>", description: " Glob patterns for files excluded from promotion.  Takes precedence over allowlist.", default: None, example: Some("[\"**/*secret*\"]"), env: None, required: false, nested: None },
        DocField { name: "delete", type_text: "DeleteConfig", description: " Delete behavior configuration.", default: None, example: None, env: None, required: false, nested: None },
        DocField { name: "git", type_text: "GitConfig", description: " Git integration settings.", default: None, example: None, env: None, required: false, nested: None },
        DocField { name: "audit", type_text: "AuditConfig", description: " Audit logging settings.", default: None, example: None, env: None, required: false, nested: None },
        DocField { name: "rules", type_text: "PromotionRules", description: " Multi-source promotion rules for complex workflows.", default: None, example: None, env: None, required: false, nested: None }
    ]
}

/// The section on environment variables that ends the full reference.
pub open spec fn env_var_section() -> Seq<char> {
    "\n\x1b[1mEnvironment Variables\x1b[0m\n"@ + "─────────────────────\n\n"@ + "\x1b[36mPROMRAIL_CONFIG\x1b[0m\n"@
        + "  Path to configuration file\n\n"@ + "\x1b[36mPROMRAIL_REPO\x1b[0m\n"@ + "  Default repository name\n\n"@
}

impl ConfigDoc for Config {
    fn doc_header() -> (r: &'static str)
        ensures
            r@ == "Promrail Configuration"@,
    {
        "Promrail Configuration"
    }

    fn doc_fields() -> (r: Vec<DocField>)
        ensures
            r@ == config_fields(),
    {
        let mut fields: Vec<DocField> = Vec::new();
        fields.push(DocField { name: "version", type_text: "u32", description: " Config schema version (currently 1).", default: Some("1"), example: None, env: None, required: true, nested: None });
        fields.push(DocField { name: "environments", type_text: "HashMap<String, EnvironmentConfig>", description: " Top-level environments for single-repo mode.  Use this when promrail.yaml is in the repo root.  Mutually exclusive with defining environments under repos.", default: None, example: Some("staging: { path: clusters/staging }"), env: None, required: false, nested: None });
        fields.push(DocField { name: "default_source", type_text: "Option<String>", description: " Default source environment for promote/diff commands.  Enables running `prl promote` without --source flag.", default: None, example: None, env: None, required: false, nested: None });
        fields.push(DocField { name: "default_dest", type_text: "Option<String>", description: " Default destination environment for promote/diff commands.  Enables running `prl promote` without --dest flag.", default: None, example: None, env: None, required: false, nested: None });
        fields.push(DocField { name: "repos", type_text: "HashMap<String, RepoConfig>", description: " Repository definitions. Each repo has a path and optional environments.  Required for multi-repo setups. Optional for single-repo (use top-level environments).", default: None, example: Some("gitops: { path: ~/gitops }"), env: None, required: false, nested: None });
        fields.push(DocField { name: "default_repo", type_text: "String", description: " Default repository name. Required when multiple repos are defined.", default: None, example: None, env: Some("PROMRAIL_REPO"), required: false, nested: None });
        fields.push(DocField { name: "protected_dirs", type_text: "Vec<String>", description: " Directories that are never modified during promotion.  Useful for environment-specific customizations.  Recommended: custom, env (for env-specific patches and config)", default: None, example: Some("[custom, env, local]"), env: None, required: false, nested: None });
        fields.push(DocField { name: "allowlist", type_text: "Vec<String>", description: " Glob patterns for files that can be promoted.  Files must match at least one pattern to be promoted.", default: None, example: Some("[\"platform/**/*.yaml\"]"), env: None, required: false, nested: None });
        fields.push(DocField { name: "denylist", type_text: "Vec<String>", description: " Glob patterns for files excluded from promotion.  Takes precedence over allowlist.", default: None, example: Some("[\"**/*secret*\"]"), env: None, required: false, nested: None });
        fields.push(DocField { name: "delete", type_text: "DeleteConfig", description: " Delete behavior configuration.", default: None, example: None, env: None, required: false, nested: None });
        fields.push(DocField { name: "git", type_text: "GitConfig", description: " Git integration settings.", default: None, example: None, env: None, required: false, nested: None });
        fields.push(DocField { name: "audit", type_text: "AuditConfig", description: " Audit logging settings.", default: None, example: None, env: None, required: false, nested: None });
        fields.push(DocField { name: "rules", type_text: "PromotionRules", description: " Multi-source promotion rules for complex workflows.", default: None, example: None, env: None, required: false, nested: None });
        assert(fields@ =~= config_fields());
        fields
    }
}

impl Config {
    /// Generate full configuration documentation including environment variables.
    pub fn generate_full_docs() -> (r: String)
        ensures
            exists|h: &str| h@ == "Promrail Configuration"@ && r@ == header_doc(h) + fields_doc(config_fields()) + env_var_section(),
    {
        let header = Config::doc_header();
        let fields = Config::doc_fields();
        let mut output = generate_docs_for(header, &fields);
        output.append("\n\x1b[1mEnvironment Variables\x1b[0m\n");
        output.append("─────────────────────\n\n");
        output.append("\x1b[36mPROMRAIL_CONFIG\x1b[0m\n");
        output.append("  Path to configuration file\n\n");
        output.append("\x1b[36mPROMRAIL_REPO\x1b[0m\n");
        output.append("  Default repository name\n\n");
        output
    }

    /// Generate a complete example configuration with comments.
    pub fn generate_full_example() -> (r: String)
        ensures
            r@ == FULL_EXAMPLE@,
    {
        crate::text::owned(FULL_EXAMPLE)
    }
}

/// The complete example configuration, with comments.
pub const FULL_EXAMPLE: &'static str = "# Promrail Configuration\n# See: promrail config show\n\n# Config schema version (currently 1)\nversion: 1\n\n# SIMPLIFIED SINGLE-REPO MODE\n# Use this when promrail.yaml is in the repo root.\n# No need for repos/default_repo - just define environments directly.\n\n# Environment definitions (required)\nenvironments:\n  staging: { path: clusters/staging }\n  production: { path: clusters/production }\n\n# Default source/dest for promote/diff (optional)\n# Enables running `prl promote` without --source/--dest\ndefault_source: staging\ndefault_dest: production\n\n# Directories that are never modified during promotion\n# Recommended: custom (env-specific patches), env (env-specific config)\nprotected_dirs:\n  - custom\n  - env\n  - local\n\n# Glob patterns for files that can be promoted\nallowlist:\n  - \"platform/**/*.yaml\"\n  - \"system/**/*.yaml\"\n\n# Glob patterns for files excluded from promotion\n# Takes precedence over allowlist\ndenylist:\n  - \"**/*secret*\"\n  - \"**/charts/**\"\n\n# Git integration settings\ngit:\n  require_clean_tree: true\n\n# Audit logging settings\naudit:\n  enabled: true\n  log_file: .promotion-log.yaml\n\n# ─────────────────────────────────────────────────────────────────────────────\n# MULTI-REPO MODE (optional, for cross-repo promotion)\n# Uncomment if you need to promote across multiple repositories\n# ─────────────────────────────────────────────────────────────────────────────\n#\n# repos:\n#   gitops:\n#     path: ~/gitops\n#     environments:\n#       staging: { path: clusters/staging }\n#       production: { path: clusters/production }\n#\n#   homelab:\n#     path: ~/homelab\n#\n# default_repo: gitops\n#\n# # Multi-source promotion rules (for complex workflows)\n# rules:\n#   sources:\n#     staging-homelab:\n#       priority: 1\n#       include: [platform/*, system/monitoring/*]\n#\n#     staging-work:\n#       priority: 2\n#       include: [apps/*, system/auth/*]\n#\n#   conflict_resolution:\n#     version_strategy: highest\n#     source_order:\n#       - staging-work\n#       - staging-homelab\n#\n#   components:\n#     platform/homeassistant:\n#       action: never\n#       notes: \"Home-specific, not for work production\"\n#\n#   global:\n#     exclude:\n#       - \"*/custom/*\"\n#       - \"*/env/*\"\n";

} // verus!
