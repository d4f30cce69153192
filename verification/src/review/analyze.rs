//! Analysis of a multi-source promotion: which files are promoted as they
//! are, which are kept, and which are left for review.
use vstd::prelude::*;
use crate::config::{
    ComponentRule, Config, ConfigStrategy, PreserveRule, PromotionAction, PromotionRules,
};
use crate::ext::{default_hash_of_str, glob_match, glob_matches, hash_str, now_rfc3339};
use crate::keyed::{lookup, value_of};
use crate::paths::{file_name, file_name_of};
use crate::review::models::{
    ReviewArtifact, ReviewArtifactStatus, ReviewItem, ReviewItemKind, ReviewItemView,
    ReviewSummary, copy_strings, kind_name,
};
use crate::text::{
    cat, cat_views, char_is_ascii_alnum, chars_of, concat, decimal, decimal_string, hex_digits,
    hex_string, insert_sorted_unique, is_ascii_alnum, is_prefix, join, join_strings, lemma_is_sorted_of,
    lemma_is_sorted_set, owned, slice_of, sort_strings, sorted_of, sorted_set, starts_with,
    str_eq, string_of, strictly_sorted, trim_start_char, trim_start_matches, views,
};
use crate::versions::extract::{file_kind, version_file_kind};

verus! {

// ---------------------------------------------------------------------------
// Hashes, ids and route keys
// ---------------------------------------------------------------------------

/// Sixteen lower-case hex digits of the default hash of a text.
pub open spec fn hash_hex(s: Seq<char>) -> Seq<char> {
    hex_digits(default_hash_of_str(s) as nat, 16)
}

/// The default hash of a text, as sixteen hex digits.
pub fn hash_string(value: &str) -> (r: String)
    ensures
        r@ == hash_hex(value@),
{
    hex_string(hash_str(value), 16)
}

/// The default hash of a file's bytes, which fingerprints its content.
pub fn hash_bytes(bytes: &[u8]) -> (r: u64)
    ensures
        r == crate::ext::default_hash_of_bytes(bytes@),
{
    crate::ext::hash_bytes(bytes)
}

/// The id of a review item: the hash of its kind, component and files,
/// one per line.
pub open spec fn item_id(kind: ReviewItemKind, component: Seq<char>, files: Seq<Seq<char>>) -> Seq<char> {
    hash_hex(join(seq![kind_name(kind), component] + files, "\n"@))
}

/// The id of a review item.
pub fn build_review_item_id(kind: &ReviewItemKind, component: &str, files: &Vec<String>) -> (r:
    String)
    ensures
        r@ == item_id(*kind, component@, views(files@)),
{
    let mut payload: Vec<String> = Vec::new();
    payload.push(owned(kind.name()));
    payload.push(owned(component));
    let mut i: usize = 0;
    while i < files.len()
        invariant
            i <= files@.len(),
            views(payload@) == seq![kind_name(*kind), component@] + views(files@).take(i as int),
        decreases files@.len() - i,
    {
        let ghost prev = payload@;
        payload.push(files[i].clone());
        assert(views(payload@) =~= views(prev).push(files@[i as int]@));
        assert(views(files@).take(i + 1) =~= views(files@).take(i as int).push(files@[i as int]@));
        i += 1;
        assert(views(payload@) =~= seq![kind_name(*kind), component@] + views(files@).take(
            i as int,
        ));
    }
    assert(views(files@).take(i as int) =~= views(files@));
    let joined = join_strings(&payload, "\n");
    hash_string(joined.as_str())
}

/// `s` with every character that is not an ASCII letter or digit replaced
/// by `_`.
pub open spec fn sanitized(s: Seq<char>) -> Seq<char> {
    Seq::new(s.len(), |i: int| if is_ascii_alnum(s[i]) { s[i] } else { '_' })
}

/// The key of a promotion route: its sources, destination and filters
/// joined by `__` and sanitized; a key longer than 96 characters is replaced
/// by `review_` and its hash.
pub open spec fn route_key_of(names: Seq<Seq<char>>, dest: Seq<char>, filters: Seq<Seq<char>>) -> Seq<char> {
    let s = sanitized(join(names + seq![dest] + filters, "__"@));
    if s.len() > 96 {
        "review_"@ + hash_hex(s).take(16)
    } else {
        s
    }
}

/// The key of a promotion route.
pub fn build_route_key(source_names: &Vec<String>, dest: &str, filters: &Vec<String>) -> (r:
    String)
    ensures
        r@ == route_key_of(views(source_names@), dest@, views(filters@)),
{
    let mut parts = copy_strings(source_names);
    parts.push(owned(dest));
    let mut i: usize = 0;
    while i < filters.len()
        invariant
            i <= filters@.len(),
            views(parts@) == views(source_names@) + seq![dest@] + views(filters@).take(i as int),
        decreases filters@.len() - i,
    {
        let ghost prev = parts@;
        parts.push(filters[i].clone());
        assert(views(parts@) =~= views(prev).push(filters@[i as int]@));
        assert(views(filters@).take(i + 1) =~= views(filters@).take(i as int).push(
            filters@[i as int]@,
        ));
        i += 1;
        assert(views(parts@) =~= views(source_names@) + seq![dest@] + views(filters@).take(
            i as int,
        ));
    }
    assert(views(filters@).take(i as int) =~= views(filters@));
    let raw = join_strings(&parts, "__");
    let chars = chars_of(raw.as_str());
    let mut out: Vec<char> = Vec::new();
    let mut k: usize = 0;
    while k < chars.len()
        invariant
            k <= chars@.len(),
            chars@ == raw@,
            out@ == sanitized(raw@).take(k as int),
        decreases chars@.len() - k,
    {
        let c = chars[k];
        out.push(if char_is_ascii_alnum(c) { c } else { '_' });
        k += 1;
        assert(out@ =~= sanitized(raw@).take(k as int));
    }
    assert(out@ =~= sanitized(raw@));
    let s = string_of(out.as_slice());
    if out.len() > 96 {
        let h = hash_string(s.as_str());
        assert(h@.take(16) =~= h@) by {
            crate::text::lemma_hex_digits_len(default_hash_of_str(s@) as nat, 16);
        }
        concat("review_", h.as_str())
    } else {
        s
    }
}

// ---------------------------------------------------------------------------
// Files and sources
// ---------------------------------------------------------------------------

/// Whether a file carries versions, by its name.
pub open spec fn version_managed(relative: Seq<char>) -> bool {
    match file_name_of(relative) {
        Some(name) => file_kind(name) is Some,
        None => false,
    }
}

/// Whether a file is a kustomization, chart or values file.
pub fn is_version_managed_file(relative: &str) -> (r: bool)
    ensures
        r == version_managed(relative@),
{
    match file_name(relative) {
        Some(name) => version_file_kind(name.as_str()).is_some(),
        None => false,
    }
}

/// A file that one source offers for a relative path.
pub struct FileCandidate {
    pub source_name: String,
    pub absolute_path: String,
    pub component: String,
    pub existing_component: bool,
    pub content_hash: u64,
    pub version_managed: bool,
}

/// The candidates for one relative path, and whether the destination
/// already holds a file at that path.
pub struct FileGroup {
    pub relative: String,
    pub candidates: Vec<FileCandidate>,
    pub dest_has_file: bool,
}

/// The source names of some candidates.
pub open spec fn source_names_of(cs: Seq<FileCandidate>) -> Seq<Seq<char>> {
    cs.map_values(|c: FileCandidate| c.source_name@)
}

/// The distinct source names of a group's candidates, in increasing order.
pub open spec fn group_sources(cs: Seq<FileCandidate>) -> Seq<Seq<char>> {
    sorted_set(source_names_of(cs).to_set())
}

/// The distinct source names of the candidates, in increasing order.
pub fn unique_sources(candidates: &Vec<FileCandidate>) -> (r: Vec<String>)
    ensures
        views(r@) == group_sources(candidates@),
        strictly_sorted(views(r@)),
{
    let ghost names = source_names_of(candidates@);
    let mut r: Vec<String> = Vec::new();
    let mut i: usize = 0;
    assert(views(r@).to_set() =~= names.take(0).to_set());
    while i < candidates.len()
        invariant
            i <= candidates@.len(),
            names == source_names_of(candidates@),
            strictly_sorted(views(r@)),
            views(r@).to_set() == names.take(i as int).to_set(),
        decreases candidates@.len() - i,
    {
        insert_sorted_unique(&mut r, candidates[i].source_name.clone());
        i += 1;
        assert(names.take(i as int) =~= names.take(i - 1).push(names[i - 1]));
        proof {
            names.take(i - 1).lemma_push_to_set_commute(names[i - 1]);
        }
    }
    assert(names.take(i as int) =~= names);
    proof {
        lemma_is_sorted_set(views(r@));
    }
    r
}

// ---------------------------------------------------------------------------
// Preserved paths and automatic resolution
// ---------------------------------------------------------------------------

/// A file's path within its component: the text after `component/`, leading
/// slashes removed; the whole path when it does not lie in the component.
pub open spec fn within_component(relative: Seq<char>, component: Seq<char>) -> Seq<char> {
    let stripped = if component.len() == 0 {
        relative
    } else if relative == component {
        Seq::empty()
    } else if is_prefix(component + "/"@, relative) {
        relative.skip(component.len() + 1int)
    } else {
        relative
    };
    trim_start_char(stripped, '/')
}

/// A preserve rule names the file, by glob or by equal text, within the
/// component or as a whole path.
pub open spec fn preserve_matches(p: PreserveRule, within: Seq<char>, full: Seq<char>) -> bool {
    &&& p.file@.len() > 0
    &&& (glob_matches(p.file@, within) || glob_matches(p.file@, full) || p.file@ == within
        || p.file@ == full)
}

/// The paths of the first preserve rule that names the file.
pub open spec fn first_preserve(ps: Seq<PreserveRule>, within: Seq<char>, full: Seq<char>) -> Option<Seq<Seq<char>>>
    decreases ps.len(),
{
    if ps.len() == 0 {
        None
    } else if preserve_matches(ps[0], within, full) {
        Some(views(ps[0].paths@))
    } else {
        first_preserve(ps.drop_first(), within, full)
    }
}

/// The paths a component rule preserves for a file.
pub open spec fn preserved_paths(rule: ComponentRule, component: Seq<char>, relative: Seq<char>) -> Option<Seq<Seq<char>>> {
    first_preserve(rule.preserve@, within_component(relative, component), relative)
}

/// The paths of the first preserve rule of `component_rule` that names the
/// file.
pub fn matching_preserve_paths(component_rule: &ComponentRule, component: &str, relative: &str) -> (r:
    Option<Vec<String>>)
    ensures
        match r {
            Some(paths) => preserved_paths(*component_rule, component@, relative@) == Some(
                views(paths@),
            ),
            None => preserved_paths(*component_rule, component@, relative@) is None,
        },
{
    let rel = chars_of(relative);
    let comp = chars_of(component);
    let mut prefix = comp.clone();
    prefix.push('/');
    proof {
        reveal_strlit("/");
        assert(prefix@ =~= component@ + "/"@);
    }
    let stripped = if comp.len() == 0 {
        rel.clone()
    } else if str_eq(relative, component) {
        Vec::new()
    } else if starts_with(rel.as_slice(), prefix.as_slice()) {
        let s = slice_of(rel.as_slice(), prefix.len(), rel.len());
        assert(s@ =~= relative@.skip(component@.len() + 1int));
        s
    } else {
        rel.clone()
    };
    let trimmed = trim_start_matches(stripped.as_slice(), '/');
    let within = string_of(trimmed.as_slice());
    assert(within@ == within_component(relative@, component@));
    let ps = &component_rule.preserve;
    let mut i: usize = 0;
    assert(ps@.skip(0) =~= ps@);
    while i < ps.len()
        invariant
            i <= ps@.len(),
            *ps == component_rule.preserve,
            within@ == within_component(relative@, component@),
            preserved_paths(*component_rule, component@, relative@) == first_preserve(
                ps@.skip(i as int),
                within@,
                relative@,
            ),
        decreases ps@.len() - i,
    {
        assert(ps@.skip(i as int).drop_first() =~= ps@.skip(i + 1));
        assert(ps@.skip(i as int)[0] == ps@[i as int]);
        let p = &ps[i];
        if !p.file.as_str().is_empty() {
            if glob_match(p.file.as_str(), within.as_str()) || glob_match(
                p.file.as_str(),
                relative,
            ) || str_eq(p.file.as_str(), within.as_str()) || str_eq(p.file.as_str(), relative) {
                return Some(copy_strings(&p.paths));
            }
        }
        i += 1;
    }
    None
}

/// The source a conflict between several candidate sources is resolved to
/// without review: a single source; otherwise, under the source-priority
/// strategy, the configured source for a component that is always promoted
/// or that preserves paths of the file.
pub open spec fn auto_source(
    rules: PromotionRules,
    rule: Option<ComponentRule>,
    component: Seq<char>,
    relative: Seq<char>,
    sources: Seq<Seq<char>>,
) -> Option<Seq<char>> {
    if sources.len() == 0 {
        None
    } else if sources.len() == 1 {
        Some(sources[0])
    } else if rules.conflict_resolution.config_strategy != ConfigStrategy::SourcePriority {
        None
    } else {
        match rule {
            None => None,
            Some(r) => {
                let has_preserve = match preserved_paths(r, component, relative) {
                    Some(paths) => paths.len() > 0,
                    None => false,
                };
                if r.action == PromotionAction::Always || has_preserve {
                    rules.chosen_config_source(sources)
                } else {
                    None
                }
            },
        }
    }
}

/// Which source a conflict is resolved to without review, if any.
pub fn should_auto_resolve_conflict(
    rules: &PromotionRules,
    component_rule: Option<&ComponentRule>,
    component: &str,
    relative: &str,
    candidate_sources: &Vec<String>,
) -> (r: Option<String>)
    ensures
        match auto_source(
            *rules,
            match component_rule {
                Some(c) => Some(*c),
                None => None,
            },
            component@,
            relative@,
            views(candidate_sources@),
        ) {
            Some(s) => r matches Some(x) && x@ == s,
            None => r is None,
        },
{
    if candidate_sources.len() == 0 {
        return None;
    }
    if candidate_sources.len() == 1 {
        return Some(candidate_sources[0].clone());
    }
    if rules.conflict_resolution.config_strategy != ConfigStrategy::SourcePriority {
        return None;
    }
    let component_rule = match component_rule {
        Some(c) => c,
        None => {
            return None;
        },
    };
    let has_preserve = match matching_preserve_paths(component_rule, component, relative) {
        Some(paths) => paths.len() > 0,
        None => false,
    };
    if component_rule.action == PromotionAction::Always || has_preserve {
        return rules.resolve_config_source(candidate_sources.as_slice());
    }
    None
}

// ---------------------------------------------------------------------------
// Placing files
// ---------------------------------------------------------------------------

/// Where the file of a group goes: promoted from the candidate at an index,
/// kept as the destination has it, or left for review.
#[derive(PartialEq, Eq, Structural, Clone, Copy)]
pub enum Placement {
    Auto(usize),
    Retained,
    Review(ReviewItemKind),
}

/// Why an item of a kind is left for review.
pub open spec fn reason_of(kind: ReviewItemKind) -> Seq<char> {
    match kind {
        ReviewItemKind::NewComponent => "Component does not exist in destination; review before promoting"@,
        ReviewItemKind::RuleReview => "Component is marked action: review; classify before promoting non-version files"@,
        ReviewItemKind::ConflictingFile => "Conflicting file content across sources; choose the source to promote"@,
    }
}

/// Why an item of a kind is left for review.
pub fn reason_text(kind: ReviewItemKind) -> (r: &'static str)
    ensures
        r@ == reason_of(kind),
{
    match kind {
        ReviewItemKind::NewComponent => "Component does not exist in destination; review before promoting",
        ReviewItemKind::RuleReview => "Component is marked action: review; classify before promoting non-version files",
        ReviewItemKind::ConflictingFile => "Conflicting file content across sources; choose the source to promote",
    }
}

/// Index of the first candidate from source `s`, if any.
pub open spec fn find_source(cs: Seq<FileCandidate>, s: Seq<char>) -> Option<int>
    decreases cs.len(),
{
    if cs.len() == 0 {
        None
    } else if cs[0].source_name@ == s {
        Some(0)
    } else {
        match find_source(cs.drop_first(), s) {
            Some(i) => Some(i + 1),
            None => None,
        }
    }
}

/// All candidates have the content of the first.
pub open spec fn identical_contents(cs: Seq<FileCandidate>) -> bool {
    forall|i: int| 0 <= i < cs.len() ==> #[trigger] cs[i].content_hash == cs[0].content_hash
}

/// Where the file of a group goes. A component the destination lacks is
/// reviewed; a version-managed file is promoted only where the destination
/// has none; a component marked for review is reviewed; otherwise a
/// resolvable conflict, a single candidate or identical candidates are
/// promoted, and differing candidates are reviewed.
pub open spec fn placement(config: Config, g: FileGroup) -> Placement {
    let cs = g.candidates@;
    let c0 = cs[0];
    let component = c0.component@;
    if !c0.existing_component {
        Placement::Review(ReviewItemKind::NewComponent)
    } else if c0.version_managed {
        if g.dest_has_file {
            Placement::Retained
        } else {
            Placement::Auto(0)
        }
    } else if config.rules.action_for(component) == PromotionAction::Review {
        Placement::Review(ReviewItemKind::RuleReview)
    } else {
        match auto_source(
            config.rules,
            value_of(config.rules.components@, component),
            component,
            g.relative@,
            group_sources(cs),
        ) {
            Some(s) => Placement::Auto(
                match find_source(cs, s) {
                    Some(i) => i as usize,
                    None => 0,
                },
            ),
            None => if cs.len() == 1 || identical_contents(cs) {
                Placement::Auto(0)
            } else {
                Placement::Review(ReviewItemKind::ConflictingFile)
            },
        }
    }
}

/// Index of the first candidate from source `s`, or of the first candidate.
fn candidate_of_source(cs: &Vec<FileCandidate>, s: &str) -> (r: usize)
    requires
        cs@.len() > 0,
    ensures
        r == match find_source(cs@, s@) {
            Some(i) => i as usize,
            None => 0usize,
        },
        r < cs@.len(),
{
    let mut i: usize = 0;
    assert(cs@.skip(0) =~= cs@);
    while i < cs.len()
        invariant
            i <= cs@.len(),
            find_source(cs@, s@) == match find_source(cs@.skip(i as int), s@) {
                Some(j) => Some(j + i),
                None => None,
            },
        decreases cs@.len() - i,
    {
        assert(cs@.skip(i as int).drop_first() =~= cs@.skip(i + 1));
        if str_eq(cs[i].source_name.as_str(), s) {
            return i;
        }
        i += 1;
    }
    0
}

/// Whether every candidate has the content of the first.
fn all_identical(cs: &Vec<FileCandidate>) -> (r: bool)
    requires
        cs@.len() > 0,
    ensures
        r == identical_contents(cs@),
{
    let h = cs[0].content_hash;
    let mut i: usize = 0;
    while i < cs.len()
        invariant
            i <= cs@.len(),
            h == cs@[0].content_hash,
            forall|j: int| 0 <= j < i ==> #[trigger] cs@[j].content_hash == h,
        decreases cs@.len() - i,
    {
        if cs[i].content_hash != h {
            return false;
        }
        i += 1;
    }
    true
}

/// Where the file of a group goes.
pub fn place(config: &Config, g: &FileGroup) -> (r: Placement)
    requires
        g.candidates@.len() > 0,
    ensures
        r == placement(*config, *g),
        r matches Placement::Auto(i) ==> i < g.candidates@.len(),
{
    let cs = &g.candidates;
    let c0 = &cs[0];
    let component = c0.component.as_str();
    if !c0.existing_component {
        return Placement::Review(ReviewItemKind::NewComponent);
    }
    if c0.version_managed {
        if g.dest_has_file {
            return Placement::Retained;
        }
        return Placement::Auto(0);
    }
    if config.rules.get_action(component) == PromotionAction::Review {
        return Placement::Review(ReviewItemKind::RuleReview);
    }
    let sources = unique_sources(cs);
    let rule = config.rules.get_component_rule(component);
    match should_auto_resolve_conflict(&config.rules, rule, component, g.relative.as_str(), &sources) {
        Some(s) => Placement::Auto(candidate_of_source(cs, s.as_str())),
        None => {
            if cs.len() == 1 || all_identical(cs) {
                Placement::Auto(0)
            } else {
                Placement::Review(ReviewItemKind::ConflictingFile)
            }
        },
    }
}

// ---------------------------------------------------------------------------
// Review items, keyed by kind and component
// ---------------------------------------------------------------------------

/// The key of a review item: its kind's name and its component.
pub open spec fn review_key(kind: ReviewItemKind, component: Seq<char>) -> Seq<char> {
    kind_name(kind) + ":"@ + component
}

/// Review entries as texts.
pub open spec fn map_view(m: Seq<(String, ReviewItem)>) -> Seq<(Seq<char>, ReviewItemView)> {
    Seq::new(m.len(), |i: int| (m[i].0@, m[i].1@))
}

/// Every item lists its files and sources strictly increasing.
pub open spec fn items_wf(m: Seq<(Seq<char>, ReviewItemView)>) -> bool {
    forall|i: int|
        0 <= i < m.len() ==> strictly_sorted(#[trigger] m[i].1.files) && strictly_sorted(
            m[i].1.candidate_sources,
        )
}

/// Position of the first entry with key `key`, if any.
pub open spec fn entry_position(m: Seq<(Seq<char>, ReviewItemView)>, key: Seq<char>) -> Option<int> {
    if exists|i: int| 0 <= i < m.len() && m[i].0 == key {
        Some(
            choose|i: int|
                0 <= i < m.len() && m[i].0 == key && forall|j: int| 0 <= j < i ==> m[j].0 != key,
        )
    } else {
        None
    }
}

/// Where a new key goes: after the leading entries whose keys are below it.
pub open spec fn insert_position(m: Seq<(Seq<char>, ReviewItemView)>, key: Seq<char>) -> int
    decreases m.len(),
{
    if m.len() == 0 {
        0
    } else if crate::text::lex_lt(m[0].0, key) {
        1 + insert_position(m.drop_first(), key)
    } else {
        0
    }
}

/// The entries after a file of a component is left for review: an item with
/// the same kind and component gains the file and the sources; otherwise a
/// new item is put in key order.
pub open spec fn upserted(
    m: Seq<(Seq<char>, ReviewItemView)>,
    kind: ReviewItemKind,
    component: Seq<char>,
    file: Seq<char>,
    sources: Seq<Seq<char>>,
    reason: Seq<char>,
) -> Seq<(Seq<char>, ReviewItemView)> {
    let key = review_key(kind, component);
    match entry_position(m, key) {
        Some(i) => m.update(
            i,
            (
                key,
                ReviewItemView {
                    id: m[i].1.id,
                    kind: m[i].1.kind,
                    component: m[i].1.component,
                    files: sorted_set(m[i].1.files.to_set().insert(file)),
                    candidate_sources: sorted_set(
                        m[i].1.candidate_sources.to_set() + sources.to_set(),
                    ),
                    reason: m[i].1.reason,
                    decision: m[i].1.decision,
                    selected_source: m[i].1.selected_source,
                    notes: m[i].1.notes,
                },
            ),
        ),
        None => m.insert(
            insert_position(m, key),
            (
                key,
                ReviewItemView {
                    id: Seq::empty(),
                    kind: kind,
                    component: component,
                    files: seq![file],
                    candidate_sources: sources,
                    reason: reason,
                    decision: None,
                    selected_source: None,
                    notes: None,
                },
            ),
        ),
    }
}

/// Adds a file of a component, left for review, to the review entries.
fn upsert_review_item(
    review_map: &mut Vec<(String, ReviewItem)>,
    kind: ReviewItemKind,
    component: &str,
    relative: &str,
    candidate_sources: &Vec<String>,
    reason: &str,
)
    requires
        items_wf(map_view(old(review_map)@)),
        strictly_sorted(views(candidate_sources@)),
    ensures
        items_wf(map_view(final(review_map)@)),
        map_view(final(review_map)@) == upserted(
            map_view(old(review_map)@),
            kind,
            component@,
            relative@,
            views(candidate_sources@),
            reason@,
        ),
{
    let ghost m = map_view(review_map@);
    let key = cat(&[kind.name(), ":", component]);
    proof {
        reveal_with_fuel(cat_views, 4);
    }
    assert(key@ == review_key(kind, component@));
    let mut i: usize = 0;
    while i < review_map.len()
        invariant
            i <= review_map@.len(),
            m == map_view(review_map@),
            forall|j: int| 0 <= j < i ==> m[j].0 != key@,
        ensures
            i <= review_map@.len(),
            i < review_map@.len() ==> m[i as int].0 == key@,
            forall|j: int| 0 <= j < i ==> m[j].0 != key@,
        decreases review_map@.len() - i,
    {
        if str_eq(review_map[i].0.as_str(), key.as_str()) {
            break;
        }
        i += 1;
    }
    if i < review_map.len() {
        assert(m[i as int].0 == key@);
        let ghost pos = entry_position(m, key@);
        assert(pos == Some(i as int)) by {
            let c = choose|c: int|
                0 <= c < m.len() && m[c].0 == key@ && forall|j: int| 0 <= j < c ==> m[j].0 != key@;
            assert(0 <= c < m.len() && m[c].0 == key@ && forall|j: int|
                0 <= j < c ==> m[j].0 != key@);
            if c < i {
                assert(m[c].0 != key@);
            }
            if c > i {
                assert(m[i as int].0 != key@);
            }
        }
        let mut item = review_map[i].1.copy();
        assert(strictly_sorted(views(item.files@)) && strictly_sorted(
            views(item.candidate_sources@),
        )) by {
            assert(m[i as int].1 == item@);
            assert(strictly_sorted(m[i as int].1.files));
            assert(strictly_sorted(m[i as int].1.candidate_sources));
        }
        let ghost old_sources = views(item.candidate_sources@);
        insert_sorted_unique(&mut item.files, owned(relative));
        proof {
            lemma_is_sorted_set(views(item.files@));
        }
        let ghost before = item;
        let mut k: usize = 0;
        assert(views(candidate_sources@).take(0).to_set() =~= Set::<Seq<char>>::empty());
        assert(old_sources.to_set() + views(candidate_sources@).take(0).to_set() =~= old_sources.to_set());
        while k < candidate_sources.len()
            invariant
                k <= candidate_sources@.len(),
                item.id == before.id,
                item.kind == before.kind,
                item.component == before.component,
                item.files == before.files,
                item.reason == before.reason,
                item.decision == before.decision,
                item.selected_source == before.selected_source,
                item.notes == before.notes,
                strictly_sorted(views(item.candidate_sources@)),
                views(item.candidate_sources@).to_set() == old_sources.to_set() + views(
                    candidate_sources@,
                ).take(k as int).to_set(),
            decreases candidate_sources@.len() - k,
        {
            insert_sorted_unique(&mut item.candidate_sources, candidate_sources[k].clone());
            let ghost cs = views(candidate_sources@);
            assert(cs.take(k + 1) =~= cs.take(k as int).push(cs[k as int]));
            proof {
                cs.take(k as int).lemma_push_to_set_commute(cs[k as int]);
            }
            k += 1;
            assert(views(item.candidate_sources@).to_set() =~= old_sources.to_set() + cs.take(
                k as int,
            ).to_set());
        }
        assert(views(candidate_sources@).take(k as int) =~= views(candidate_sources@));
        proof {
            lemma_is_sorted_set(views(item.candidate_sources@));
        }
        let key2 = review_map[i].0.clone();
        review_map.set(i, (key2, item));
        assert(items_wf(map_view(review_map@))) by {
            assert forall|j: int| 0 <= j < map_view(review_map@).len() implies strictly_sorted(
                #[trigger] map_view(review_map@)[j].1.files,
            ) && strictly_sorted(map_view(review_map@)[j].1.candidate_sources) by {
                if j != i {
                    assert(map_view(review_map@)[j] == m[j]);
                    assert(strictly_sorted(m[j].1.files));
                } else {
                    assert(map_view(review_map@)[j].1 == item@);
                    assert(strictly_sorted(views(item.files@)));
                    assert(strictly_sorted(views(item.candidate_sources@)));
                }
            }
        }
        assert(map_view(review_map@) =~= upserted(
            m,
            kind,
            component@,
            relative@,
            views(candidate_sources@),
            reason@,
        ));
    } else {
        assert(entry_position(m, key@) is None);
        let mut p: usize = 0;
        assert(m.skip(0) =~= m);
        while p < review_map.len() && crate::text::string_less(
            review_map[p].0.as_str(),
            key.as_str(),
        )
            invariant
                p <= review_map@.len(),
                m == map_view(review_map@),
                insert_position(m, key@) == p + insert_position(m.skip(p as int), key@),
            decreases review_map@.len() - p,
        {
            assert(m.skip(p as int).drop_first() =~= m.skip(p + 1));
            p += 1;
        }
        assert(insert_position(m.skip(p as int), key@) == 0);
        let mut files: Vec<String> = Vec::new();
        files.push(owned(relative));
        let item = ReviewItem {
            id: String::new(),
            kind: kind,
            component: owned(component),
            files,
            candidate_sources: copy_strings(candidate_sources),
            reason: owned(reason),
            decision: None,
            selected_source: None,
            notes: None,
        };
        assert(views(item.files@) =~= seq![relative@]);
        review_map.insert(p, (key, item));
        assert(items_wf(map_view(review_map@))) by {
            assert forall|j: int| 0 <= j < map_view(review_map@).len() implies strictly_sorted(
                #[trigger] map_view(review_map@)[j].1.files,
            ) && strictly_sorted(map_view(review_map@)[j].1.candidate_sources) by {
                if j < p {
                    assert(map_view(review_map@)[j] == m[j]);
                    assert(strictly_sorted(m[j].1.files));
                } else if j > p {
                    assert(map_view(review_map@)[j] == m[j - 1]);
                    assert(strictly_sorted(m[j - 1].1.files));
                } else {
                    assert(views(review_map@[j].1.files@) =~= seq![relative@]);
                }
            }
        }
        assert(map_view(review_map@) =~= upserted(
            m,
            kind,
            component@,
            relative@,
            views(candidate_sources@),
            reason@,
        ));
    }
}

// ---------------------------------------------------------------------------
// The analysis
// ---------------------------------------------------------------------------

/// The outcome of analysing a promotion. Files are keyed by their relative
/// paths; `source_lookup` gives the file each source offers for a path.
pub struct PromotionAnalysis {
    pub route_key: String,
    pub fingerprint: String,
    pub auto_files: Vec<(String, (String, String))>,
    pub retained_paths: Vec<String>,
    pub review_items: Vec<ReviewItem>,
    pub source_lookup: Vec<((String, String), String)>,
}

/// A list of `(path, (source, file))` records, as texts.
pub open spec fn records_view(v: Seq<(String, (String, String))>) -> Seq<(Seq<char>, (Seq<char>, Seq<char>))> {
    Seq::new(v.len(), |i: int| (v[i].0@, (v[i].1.0@, v[i].1.1@)))
}

/// A list of `((path, source), file)` records, as texts.
pub open spec fn lookup_view(v: Seq<((String, String), String)>) -> Seq<((Seq<char>, Seq<char>), Seq<char>)> {
    Seq::new(v.len(), |i: int| ((v[i].0.0@, v[i].0.1@), v[i].1@))
}

/// The promoted files of the groups, in order: path, source and file.
pub open spec fn auto_entries(config: Config, groups: Seq<FileGroup>) -> Seq<(Seq<char>, (Seq<char>, Seq<char>))>
    decreases groups.len(),
{
    if groups.len() == 0 {
        Seq::empty()
    } else {
        let rest = auto_entries(config, groups.drop_last());
        let g = groups.last();
        match placement(config, g) {
            Placement::Auto(i) => rest.push(
                (
                    g.relative@,
                    (g.candidates@[i as int].source_name@, g.candidates@[i as int].absolute_path@),
                ),
            ),
            _ => rest,
        }
    }
}

/// The paths of the groups whose destination file is kept, in order.
pub open spec fn retained_entries(config: Config, groups: Seq<FileGroup>) -> Seq<Seq<char>>
    decreases groups.len(),
{
    if groups.len() == 0 {
        Seq::empty()
    } else {
        let rest = retained_entries(config, groups.drop_last());
        let g = groups.last();
        match placement(config, g) {
            Placement::Auto(_) => rest,
            _ => rest.push(g.relative@),
        }
    }
}

/// The review entries after the groups, keyed by kind and component.
pub open spec fn review_entries(config: Config, groups: Seq<FileGroup>) -> Seq<(Seq<char>, ReviewItemView)>
    decreases groups.len(),
{
    if groups.len() == 0 {
        Seq::empty()
    } else {
        let m = review_entries(config, groups.drop_last());
        let g = groups.last();
        match placement(config, g) {
            Placement::Review(kind) => upserted(
                m,
                kind,
                g.candidates@[0].component@,
                g.relative@,
                group_sources(g.candidates@),
                reason_of(kind),
            ),
            _ => m,
        }
    }
}

/// The items of review entries, each with its id.
pub open spec fn with_ids(m: Seq<(Seq<char>, ReviewItemView)>) -> Seq<ReviewItemView> {
    Seq::new(
        m.len(),
        |i: int|
            ReviewItemView {
                id: item_id(m[i].1.kind, m[i].1.component, m[i].1.files),
                kind: m[i].1.kind,
                component: m[i].1.component,
                files: m[i].1.files,
                candidate_sources: m[i].1.candidate_sources,
                reason: m[i].1.reason,
                decision: m[i].1.decision,
                selected_source: m[i].1.selected_source,
                notes: m[i].1.notes,
            },
    )
}

/// The file each source offers for the path of a group.
pub open spec fn group_lookup(g: FileGroup) -> Seq<((Seq<char>, Seq<char>), Seq<char>)> {
    Seq::new(
        g.candidates@.len(),
        |i: int| ((g.relative@, g.candidates@[i].source_name@), g.candidates@[i].absolute_path@),
    )
}

/// The files the sources offer, group by group.
pub open spec fn lookup_entries(groups: Seq<FileGroup>) -> Seq<((Seq<char>, Seq<char>), Seq<char>)>
    decreases groups.len(),
{
    if groups.len() == 0 {
        Seq::empty()
    } else {
        lookup_entries(groups.drop_last()) + group_lookup(groups.last())
    }
}

/// The fingerprint line of a source file.
pub open spec fn source_part(source: Seq<char>, relative: Seq<char>, hash: u64) -> Seq<char> {
    "src:"@ + source + ":"@ + relative + ":"@ + decimal(hash as nat)
}

/// The fingerprint line of a destination file.
pub open spec fn dest_part(relative: Seq<char>, hash: u64) -> Seq<char> {
    "dst:"@ + relative + ":"@ + decimal(hash as nat)
}

/// The fingerprint lines of a group's candidates.
pub open spec fn group_parts(g: FileGroup) -> Seq<Seq<char>> {
    Seq::new(
        g.candidates@.len(),
        |i: int|
            source_part(g.candidates@[i].source_name@, g.relative@, g.candidates@[i].content_hash),
    )
}

/// The fingerprint lines of all candidates, group by group.
pub open spec fn source_parts(groups: Seq<FileGroup>) -> Seq<Seq<char>>
    decreases groups.len(),
{
    if groups.len() == 0 {
        Seq::empty()
    } else {
        source_parts(groups.drop_last()) + group_parts(groups.last())
    }
}

/// The fingerprint lines of the destination files.
pub open spec fn dest_parts(dest_files: Seq<(String, u64)>) -> Seq<Seq<char>> {
    Seq::new(dest_files.len(), |i: int| dest_part(dest_files[i].0@, dest_files[i].1))
}

/// The fingerprint of a promotion: the hash of all its fingerprint lines,
/// sorted, one per line.
pub open spec fn fingerprint_of(groups: Seq<FileGroup>, dest_files: Seq<(String, u64)>) -> Seq<char> {
    hash_hex(
        join(sorted_of((source_parts(groups) + dest_parts(dest_files)).to_multiset()), "\n"@),
    )
}

/// Appends the lookup records and fingerprint lines of a group.
fn record_group(
    g: &FileGroup,
    lookup: &mut Vec<((String, String), String)>,
    parts: &mut Vec<String>,
)
    ensures
        lookup_view(final(lookup)@) == lookup_view(old(lookup)@) + group_lookup(*g),
        views(final(parts)@) == views(old(parts)@) + group_parts(*g),
{
    let ghost l0 = lookup_view(lookup@);
    let ghost p0 = views(parts@);
    let cs = &g.candidates;
    let mut i: usize = 0;
    while i < cs.len()
        invariant
            i <= cs@.len(),
            *cs == g.candidates,
            lookup_view(lookup@) == l0 + group_lookup(*g).take(i as int),
            views(parts@) == p0 + group_parts(*g).take(i as int),
        decreases cs@.len() - i,
    {
        let c = &cs[i];
        let ghost lp = lookup@;
        let ghost pp = parts@;
        lookup.push(((g.relative.clone(), c.source_name.clone()), c.absolute_path.clone()));
        let h = decimal_string(c.content_hash);
        let part = cat(
            &["src:", c.source_name.as_str(), ":", g.relative.as_str(), ":", h.as_str()],
        );
        proof {
            reveal_with_fuel(cat_views, 7);
        }
        parts.push(part);
        assert(lookup_view(lookup@) =~= lookup_view(lp).push(group_lookup(*g)[i as int]));
        assert(views(parts@) =~= views(pp).push(group_parts(*g)[i as int]));
        i += 1;
        assert(lookup_view(lookup@) =~= l0 + group_lookup(*g).take(i as int));
        assert(views(parts@) =~= p0 + group_parts(*g).take(i as int));
    }
    assert(group_lookup(*g).take(i as int) =~= group_lookup(*g));
    assert(group_parts(*g).take(i as int) =~= group_parts(*g));
}

/// Analyse a multi-source promotion: place the file of every group, gather
/// the files left for review into items keyed by kind and component, and
/// fingerprint the sources and the destination. Each group holds the
/// candidates that the sources offer for one relative path; `dest_files`
/// are the destination's files with their content hashes.
pub fn analyze_multi_source_promotion(
    config: &Config,
    source_names: &Vec<String>,
    groups: &Vec<FileGroup>,
    dest_files: &Vec<(String, u64)>,
    dest: &str,
    filters: &Vec<String>,
) -> (r: PromotionAnalysis)
    requires
        forall|i: int| 0 <= i < groups@.len() ==> #[trigger] groups@[i].candidates@.len() > 0,
    ensures
        r.route_key@ == route_key_of(views(source_names@), dest@, views(filters@)),
        r.fingerprint@ == fingerprint_of(groups@, dest_files@),
        records_view(r.auto_files@) == auto_entries(*config, groups@),
        views(r.retained_paths@) == retained_entries(*config, groups@),
        r.review_items.deep_view() == with_ids(review_entries(*config, groups@)),
        lookup_view(r.source_lookup@) == lookup_entries(groups@),
{
    let mut auto_files: Vec<(String, (String, String))> = Vec::new();
    let mut retained: Vec<String> = Vec::new();
    let mut review_map: Vec<(String, ReviewItem)> = Vec::new();
    let mut lookup: Vec<((String, String), String)> = Vec::new();
    let mut parts: Vec<String> = Vec::new();
    let mut gi: usize = 0;
    assert(map_view(review_map@) =~= review_entries(*config, groups@.take(0)));
    assert(records_view(auto_files@) =~= auto_entries(*config, groups@.take(0)));
    assert(views(retained@) =~= retained_entries(*config, groups@.take(0)));
    assert(lookup_view(lookup@) =~= lookup_entries(groups@.take(0)));
    assert(views(parts@) =~= source_parts(groups@.take(0)));
    while gi < groups.len()
        invariant
            gi <= groups@.len(),
            forall|i: int| 0 <= i < groups@.len() ==> #[trigger] groups@[i].candidates@.len() > 0,
            items_wf(map_view(review_map@)),
            map_view(review_map@) == review_entries(*config, groups@.take(gi as int)),
            records_view(auto_files@) == auto_entries(*config, groups@.take(gi as int)),
            views(retained@) == retained_entries(*config, groups@.take(gi as int)),
            lookup_view(lookup@) == lookup_entries(groups@.take(gi as int)),
            views(parts@) == source_parts(groups@.take(gi as int)),
        decreases groups@.len() - gi,
    {
        let g = &groups[gi];
        assert(g.candidates@.len() > 0);
        let ghost prefix = groups@.take(gi as int);
        assert(groups@.take(gi + 1).drop_last() =~= prefix);
        assert(groups@.take(gi + 1).last() == *g);
        record_group(g, &mut lookup, &mut parts);
        let ghost a0 = auto_files@;
        let ghost r0 = retained@;
        match place(config, g) {
            Placement::Auto(i) => {
                let c = &g.candidates[i];
                auto_files.push(
                    (g.relative.clone(), (c.source_name.clone(), c.absolute_path.clone())),
                );
                assert(records_view(auto_files@) =~= records_view(a0).push(
                    (g.relative@, (c.source_name@, c.absolute_path@)),
                ));
            },
            Placement::Retained => {
                retained.push(g.relative.clone());
                assert(views(retained@) =~= views(r0).push(g.relative@));
            },
            Placement::Review(kind) => {
                retained.push(g.relative.clone());
                assert(views(retained@) =~= views(r0).push(g.relative@));
                let sources = unique_sources(&g.candidates);
                upsert_review_item(
                    &mut review_map,
                    kind,
                    g.candidates[0].component.as_str(),
                    g.relative.as_str(),
                    &sources,
                    reason_text(kind),
                );
            },
        }
        gi += 1;
    }
    assert(groups@.take(gi as int) =~= groups@);
    let ghost sp = views(parts@);
    let mut d: usize = 0;
    while d < dest_files.len()
        invariant
            d <= dest_files@.len(),
            views(parts@) == sp + dest_parts(dest_files@).take(d as int),
        decreases dest_files@.len() - d,
    {
        let h = decimal_string(dest_files[d].1);
        let part = cat(&["dst:", dest_files[d].0.as_str(), ":", h.as_str()]);
        proof {
            reveal_with_fuel(cat_views, 5);
        }
        let ghost pp = parts@;
        parts.push(part);
        assert(views(parts@) =~= views(pp).push(dest_parts(dest_files@)[d as int]));
        d += 1;
        assert(views(parts@) =~= sp + dest_parts(dest_files@).take(d as int));
    }
    assert(dest_parts(dest_files@).take(d as int) =~= dest_parts(dest_files@));
    let sorted = sort_strings(parts);
    proof {
        lemma_is_sorted_of(views(sorted@));
    }
    let joined = join_strings(&sorted, "\n");
    let fingerprint = hash_string(joined.as_str());
    let mut items: Vec<ReviewItem> = Vec::new();
    let ghost m = map_view(review_map@);
    let mut k: usize = 0;
    while k < review_map.len()
        invariant
            k <= review_map@.len(),
            m == map_view(review_map@),
            items.deep_view() == with_ids(m).take(k as int),
        decreases review_map@.len() - k,
    {
        let mut item = review_map[k].1.copy();
        assert(item@ == m[k as int].1);
        item.id = build_review_item_id(&item.kind, item.component.as_str(), &item.files);
        let ghost prev = items@;
        items.push(item);
        proof {
            crate::versions::models::lemma_deep_view_push(prev, items@, item);
        }
        k += 1;
        assert(items.deep_view() =~= with_ids(m).take(k as int));
    }
    assert(with_ids(m).take(k as int) =~= with_ids(m));
    PromotionAnalysis {
        route_key: build_route_key(source_names, dest, filters),
        fingerprint,
        auto_files,
        retained_paths: retained,
        review_items: items,
        source_lookup: lookup,
    }
}

/// How many items are of a kind.
pub open spec fn count_kind(items: Seq<ReviewItemView>, kind: ReviewItemKind) -> nat
    decreases items.len(),
{
    if items.len() == 0 {
        0
    } else {
        count_kind(items.drop_last(), kind) + if items.last().kind == kind {
            1nat
        } else {
            0nat
        }
    }
}

/// How many items are of a kind.
fn count_items_of_kind(items: &Vec<ReviewItem>, kind: ReviewItemKind) -> (r: usize)
    ensures
        r == count_kind(items.deep_view(), kind),
{
    let ghost v = items.deep_view();
    let mut n: usize = 0;
    let mut i: usize = 0;
    while i < items.len()
        invariant
            i <= items@.len(),
            v == items.deep_view(),
            n == count_kind(v.take(i as int), kind),
            n <= i,
        decreases items@.len() - i,
    {
        assert(v.take(i + 1).drop_last() =~= v.take(i as int));
        assert(v[i as int] == items@[i as int]@);
        if items[i].kind == kind {
            n += 1;
        }
        i += 1;
    }
    assert(v.take(i as int) =~= v);
    n
}

/// The artifact that records an analysis for review: format version 1,
/// keyed by the analysis's route, pending, made for the route's sources,
/// destination and filters, fingerprinted like the analysis, holding its
/// review items and counting its files and items; both its timestamps are
/// the same instant.
pub open spec fn pending_artifact_of(
    r: ReviewArtifact,
    analysis: PromotionAnalysis,
    sources: Seq<String>,
    dest: Seq<char>,
    filters: Seq<String>,
) -> bool {
    &&& r.version == 1
    &&& r.id@ == analysis.route_key@
    &&& r.created_at@ == r.updated_at@
    &&& r.status == ReviewArtifactStatus::Pending
    &&& r.sources@ == sources
    &&& r.dest@ == dest
    &&& r.filters@ == filters
    &&& r.route_key@ == analysis.route_key@
    &&& r.fingerprint@ == analysis.fingerprint@
    &&& r.summary.auto_files == analysis.auto_files@.len()
    &&& r.summary.retained_files == analysis.retained_paths@.len()
    &&& r.summary.review_items == analysis.review_items@.len()
    &&& r.summary.new_components == count_kind(analysis.review_items.deep_view(), ReviewItemKind::NewComponent)
    &&& r.summary.conflicting_files == count_kind(
        analysis.review_items.deep_view(),
        ReviewItemKind::ConflictingFile,
    )
    &&& r.items.deep_view() == analysis.review_items.deep_view()
}

/// The artifact that records an analysis, pending classification. Its
/// timestamps are the current time.
pub fn artifact_from_analysis(
    analysis: &PromotionAnalysis,
    sources: &Vec<String>,
    dest: &str,
    filters: &Vec<String>,
) -> (r: ReviewArtifact)
    ensures
        pending_artifact_of(r, *analysis, sources@, dest@, filters@),
{
    let timestamp = now_rfc3339();
    let mut items: Vec<ReviewItem> = Vec::new();
    let mut i: usize = 0;
    while i < analysis.review_items.len()
        invariant
            i <= analysis.review_items@.len(),
            items.deep_view() == analysis.review_items.deep_view().take(i as int),
        decreases analysis.review_items@.len() - i,
    {
        let item = analysis.review_items[i].copy();
        let ghost prev = items@;
        items.push(item);
        proof {
            crate::versions::models::lemma_deep_view_push(prev, items@, item);
        }
        i += 1;
        assert(items.deep_view() =~= analysis.review_items.deep_view().take(i as int));
    }
    assert(analysis.review_items.deep_view().take(i as int) =~= analysis.review_items.deep_view());
    ReviewArtifact {
        version: 1,
        id: analysis.route_key.clone(),
        created_at: timestamp.clone(),
        updated_at: timestamp,
        status: ReviewArtifactStatus::Pending,
        sources: copy_strings(sources),
        dest: owned(dest),
        filters: copy_strings(filters),
        route_key: analysis.route_key.clone(),
        fingerprint: analysis.fingerprint.clone(),
        summary: ReviewSummary {
            auto_files: analysis.auto_files.len(),
            retained_files: analysis.retained_paths.len(),
            review_items: analysis.review_items.len(),
            new_components: count_items_of_kind(&analysis.review_items, ReviewItemKind::NewComponent),
            conflicting_files: count_items_of_kind(
                &analysis.review_items,
                ReviewItemKind::ConflictingFile,
            ),
        },
        items,
    }
}

} // verus!
