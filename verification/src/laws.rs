//! Properties of the library as a whole: what holds across its functions
//! and for every input, stated over the specifications their contracts use.
use vstd::prelude::*;
use crate::commands::diff::{change_of, copy_skipped, deletions_of, dir_listed, parent_parts, some_under};
use crate::commands::filters_in_force;
use crate::commands::preserve::{path_steps, preserved_doc, value_at, value_set, StepView};
use crate::commands::promote::{admitted, applicable, deletions};
use crate::commands::snapshot_log::{recorded_snapshots, snapshot_log, snapshot_record};
use crate::config::{Config, PromotionAction, PromotionRules};
use crate::paths::protected_path;
use crate::review::analyze::{
    auto_entries, identical_contents, placement, retained_entries, review_entries, FileGroup, Placement,
    PromotionAnalysis,
};
use crate::review::apply::{marked_applied, ready_for_apply};
use crate::review::models::{ReviewArtifact, ReviewArtifactStatus, ReviewItemKind};
use crate::versions::apply::component_selected;
use crate::versions::conflict::{conflict_kept, handling_for};
use crate::versions::models::ConflictView;
use crate::config::SourceChangeHandling;
use crate::text::views;
use crate::versions::merge::{merged_of, SourcedVersions};
use crate::versions::snapshot::{rollback_effect, snapshot_index, without_id, RollbackPlan};
use crate::versions::models::{Snapshot, SnapshotStatus};
use crate::yaml::{entry_index, entry_value, get_key, key_text, lemma_entry_index, untag, YamlView};

verus! {

/// Looking through the tags that `retag` puts back finds the new value.
proof fn lemma_untag_retag(v: YamlView, inner: YamlView)
    requires
        !(inner is Tagged),
    ensures
        untag(crate::commands::preserve::retag(v, inner)) == inner,
    decreases v,
{
    if let YamlView::Tagged(_, x) = v {
        lemma_untag_retag(*x, inner);
    }
}

/// Reading a path right after writing a value there gives that value back:
/// whatever the document, missing mappings, sequences and keys are made on
/// the way.
pub proof fn preserved_value_reads_back(v: YamlView, steps: Seq<StepView>, x: YamlView)
    ensures
        value_at(value_set(v, steps, x), steps) == Some(x),
    decreases steps.len(),
{
    if steps.len() > 0 {
        let rest = steps.drop_first();
        match steps[0] {
            StepView::Key(k) => {
                let base = match untag(v) {
                    YamlView::Mapping(_) => v,
                    _ => YamlView::Mapping(Seq::empty()),
                };
                let es = match untag(base) {
                    YamlView::Mapping(es) => es,
                    _ => Seq::empty(),
                };
                lemma_entry_index(es, k);
                let es2 = match entry_index(es, k) {
                    Some(i) => es.update(i, (es[i].0, value_set(es[i].1, rest, x))),
                    None => es.push((YamlView::Text(k), value_set(YamlView::Null, rest, x))),
                };
                lemma_untag_retag(base, YamlView::Mapping(es2));
                lemma_entry_index(es2, k);
                match entry_index(es, k) {
                    Some(i) => {
                        assert forall|j: int| 0 <= j < i implies es2[j].0 != YamlView::Text(k) by {
                            assert(es2[j] == es[j]);
                        }
                        assert(es2[i].0 == YamlView::Text(k));
                        if entry_index(es2, k) != Some(i) {
                            let m = entry_index(es2, k)->0;
                            assert(m < i || m > i);
                        }
                        assert(entry_value(es2, k) == Some(value_set(es[i].1, rest, x)));
                        preserved_value_reads_back(es[i].1, rest, x);
                    },
                    None => {
                        assert forall|j: int| 0 <= j < es.len() implies es2[j].0 != YamlView::Text(k) by {
                            assert(es2[j] == es[j]);
                        }
                        assert(es2[es.len() as int].0 == YamlView::Text(k));
                        if entry_index(es2, k) != Some(es.len() as int) {
                            let m = entry_index(es2, k)->0;
                            assert(m < es.len());
                        }
                        assert(entry_value(es2, k) == Some(value_set(YamlView::Null, rest, x)));
                        preserved_value_reads_back(YamlView::Null, rest, x);
                    },
                }
                assert(get_key(value_set(v, steps, x), k) == entry_value(es2, k));
            },
            StepView::Index(n) => {
                let base = match untag(v) {
                    YamlView::Sequence(_) => v,
                    _ => YamlView::Sequence(Seq::empty()),
                };
                let items = match untag(base) {
                    YamlView::Sequence(items) => items,
                    _ => Seq::empty(),
                };
                let p = crate::commands::preserve::padded(items, n as int);
                let p2 = p.update(n as int, value_set(p[n as int], rest, x));
                lemma_untag_retag(base, YamlView::Sequence(p2));
                preserved_value_reads_back(p[n as int], rest, x);
            },
        }
    }
}

/// Preserving one path keeps the destination's value there, when the
/// destination has one.
pub proof fn preserve_keeps_destination_value(source: YamlView, dest: YamlView, path: Seq<char>)
    requires
        value_at(dest, path_steps(path)) is Some,
    ensures
        value_at(preserved_doc(source, dest, seq![path]), path_steps(path)) == value_at(dest, path_steps(path)),
{
    let steps = path_steps(path);
    let x = value_at(dest, steps)->0;
    assert(seq![path].drop_last() =~= Seq::<Seq<char>>::empty());
    reveal_with_fuel(preserved_doc, 2);
    assert(preserved_doc(source, dest, seq![path]) == value_set(source, steps, x));
    preserved_value_reads_back(source, steps, x);
}

/// A promotion never deletes a file under a protected directory.
pub proof fn protected_files_are_never_deleted(
    dest_files: Seq<Seq<char>>,
    protected_dirs: Seq<Seq<char>>,
    provided: Seq<(String, (String, String))>,
    retained: Seq<Seq<char>>,
)
    ensures
        forall|i: int| 0 <= i < deletions(dest_files, protected_dirs, provided, retained).len()
            ==> !protected_path(#[trigger] deletions(dest_files, protected_dirs, provided, retained)[i], protected_dirs),
    decreases dest_files.len(),
{
    if dest_files.len() > 0 {
        protected_files_are_never_deleted(dest_files.drop_last(), protected_dirs, provided, retained);
        let rest = deletions(dest_files.drop_last(), protected_dirs, provided, retained);
        let all = deletions(dest_files, protected_dirs, provided, retained);
        assert forall|i: int| 0 <= i < all.len() implies !protected_path(#[trigger] all[i], protected_dirs) by {
            if i < rest.len() {
                assert(all[i] == rest[i]);
            }
        }
    }
}

/// Without `--include-protected`, no file under a protected directory takes
/// part in a promotion.
pub proof fn protected_files_are_not_promoted(
    config: Config,
    only_existing: bool,
    source: Seq<char>,
    relative: Seq<char>,
    component_exists: bool,
)
    requires
        admitted(config, false, only_existing, source, relative, component_exists),
    ensures
        !protected_path(relative, views(config.protected_dirs@)),
{
}

/// A component whose rule says `never` is not promoted: no source offers a
/// file of it.
pub proof fn never_components_are_not_promoted(
    config: Config,
    include_protected: bool,
    only_existing: bool,
    source: Seq<char>,
    relative: Seq<char>,
    component_exists: bool,
)
    requires
        admitted(config, include_protected, only_existing, source, relative, component_exists),
        config.rules.components@.len() > 0,
    ensures
        config.rules.action_for(crate::paths::component_of(relative)) != PromotionAction::Never,
{
}

/// A review artifact is applied only once it is classified and made for
/// the present state of the sources and destination: a stale or
/// unclassified artifact never is.
pub proof fn stale_reviews_are_not_applied(artifact: ReviewArtifact, analysis: PromotionAnalysis)
    requires
        artifact.fingerprint@ != analysis.fingerprint@ || artifact.status != ReviewArtifactStatus::Classified,
    ensures
        !ready_for_apply(artifact, analysis),
{
}

/// A classified review that fits its analysis is consumed once: the review
/// gate applies it, the artifact marked applied keeps all it recorded but
/// no longer fits the analysis (a later run asks for a fresh review instead
/// of applying it again), and the snapshot record of the promotion has the
/// status `applied` and names the artifact.
pub proof fn classified_reviews_are_consumed_once(
    analysis: PromotionAnalysis,
    artifact: ReviewArtifact,
    after: ReviewArtifact,
    review_path: Seq<char>,
    id: Seq<char>,
    created_at: Seq<char>,
)
    requires
        ready_for_apply(artifact, analysis),
        marked_applied(artifact, after),
    ensures
        applicable(Some(&artifact), analysis),
        !applicable(Some(&after), analysis),
        after.items == artifact.items,
        after.fingerprint == artifact.fingerprint,
        key_text(snapshot_record(id, created_at, Some(review_path)), "status"@) == Some("applied"@),
        key_text(snapshot_record(id, created_at, Some(review_path)), "review_artifact"@) == Some(
            review_path,
        ),
        key_text(snapshot_record(id, created_at, Some(review_path)), "id"@) == Some(id),
{
    reveal_strlit("id");
    reveal_strlit("created_at");
    reveal_strlit("status");
    reveal_strlit("review_artifact");
    let es = seq![
        (YamlView::Text("id"@), YamlView::Text(id)),
        (YamlView::Text("created_at"@), YamlView::Text(created_at)),
        (YamlView::Text("status"@), YamlView::Text("applied"@)),
        (YamlView::Text("review_artifact"@), YamlView::Text(review_path)),
    ];
    let base = seq![
        (YamlView::Text("id"@), YamlView::Text(id)),
        (YamlView::Text("created_at"@), YamlView::Text(created_at)),
        (YamlView::Text("status"@), YamlView::Text("applied"@)),
    ];
    assert(base.push((YamlView::Text("review_artifact"@), YamlView::Text(review_path))) =~= es);
    assert(snapshot_record(id, created_at, Some(review_path)) == YamlView::Mapping(es));
    lemma_entry_index(es, "id"@);
    lemma_entry_index(es, "status"@);
    lemma_entry_index(es, "review_artifact"@);
    assert(entry_index(es, "id"@) == Some(0int));
    assert("status"@ != "id"@ && "status"@ != "created_at"@) by {
        assert("status"@[0] != "id"@[0]);
        assert("status"@[0] != "created_at"@[0]);
    }
    assert(entry_index(es, "status"@) == Some(2int)) by {
        assert(es[0].0 != YamlView::Text("status"@));
        assert(es[1].0 != YamlView::Text("status"@));
    }
    assert("review_artifact"@ != "id"@ && "review_artifact"@ != "created_at"@
        && "review_artifact"@ != "status"@) by {
        assert("review_artifact"@[0] != "id"@[0]);
        assert("review_artifact"@[0] != "created_at"@[0]);
        assert("review_artifact"@[0] != "status"@[0]);
    }
    assert(entry_index(es, "review_artifact"@) == Some(3int)) by {
        assert(es[0].0 != YamlView::Text("review_artifact"@));
        assert(es[1].0 != YamlView::Text("review_artifact"@));
        assert(es[2].0 != YamlView::Text("review_artifact"@));
    }
}

/// A file whose source and destination contents are the same is not
/// copied.
pub proof fn identical_files_are_not_copied(content: Seq<char>)
    ensures
        change_of(Some(content), Some(content)) is None,
{
}

/// Only files that the destination has and the source lacks are deleted.
pub proof fn deleted_files_are_missing_from_source(
    delete: bool,
    dest_based: bool,
    dest_files: Seq<Seq<char>>,
    source_files: Seq<Seq<char>>,
    source_subdirs: Seq<Seq<char>>,
)
    ensures
        forall|i: int| 0 <= i < deletions_of(delete, dest_based, dest_files, source_files, source_subdirs).len()
            ==> {
            let f = #[trigger] deletions_of(delete, dest_based, dest_files, source_files, source_subdirs)[i];
            dest_files.contains(f) && !source_files.contains(f)
        },
        !delete ==> deletions_of(delete, dest_based, dest_files, source_files, source_subdirs).len() == 0,
    decreases dest_files.len(),
{
    if dest_files.len() > 0 {
        deleted_files_are_missing_from_source(delete, dest_based, dest_files.drop_last(), source_files, source_subdirs);
        let prev = deletions_of(delete, dest_based, dest_files.drop_last(), source_files, source_subdirs);
        assert forall|i: int| 0 <= i < prev.len() implies dest_files.contains(#[trigger] prev[i]) by {
            let k = choose|k: int| 0 <= k < dest_files.drop_last().len() && dest_files.drop_last()[k] == prev[i];
            assert(dest_files[k] == prev[i]);
        }
        assert(dest_files[dest_files.len() - 1] == dest_files.last());
    }
}

/// With `--dest-based`, a source file is compared for copying only when
/// its directory exists in the destination: as a directory, or as the
/// directory of a destination file.
pub proof fn dest_based_copies_only_into_existing_directories(
    file: Seq<char>,
    dest_subdirs: Seq<Seq<char>>,
    dest_files: Seq<Seq<char>>,
)
    requires
        !copy_skipped(true, file, dest_subdirs, dest_files),
    ensures
        parent_parts(file) matches Some(pp) ==> dir_listed(dest_subdirs, pp) || some_under(dest_files, pp),
{
}

/// With `--dest-based`, a destination file is deleted only when its
/// directory exists in the source.
pub proof fn dest_based_deletes_only_in_source_directories(
    delete: bool,
    dest_files: Seq<Seq<char>>,
    source_files: Seq<Seq<char>>,
    source_subdirs: Seq<Seq<char>>,
)
    ensures
        forall|i: int| 0 <= i < deletions_of(delete, true, dest_files, source_files, source_subdirs).len()
            ==> (parent_parts(#[trigger] deletions_of(delete, true, dest_files, source_files, source_subdirs)[i])
            matches Some(pp) ==> dir_listed(source_subdirs, pp)),
    decreases dest_files.len(),
{
    if dest_files.len() > 0 {
        dest_based_deletes_only_in_source_directories(delete, dest_files.drop_last(), source_files, source_subdirs);
    }
}

/// Promotion always filters by something: the given filters, or `.*`.
pub proof fn filters_are_never_empty(given: Seq<Seq<char>>)
    ensures
        filters_in_force(given).len() > 0,
        given.len() > 0 ==> filters_in_force(given) == given,
{
}

/// Snapshots keep their ids when one is rolled back.
proof fn lemma_same_ids_same_index(a: Seq<Snapshot>, b: Seq<Snapshot>, id: Seq<char>)
    requires
        a.len() == b.len(),
        forall|j: int| 0 <= j < a.len() ==> (#[trigger] a[j]).id == b[j].id,
    ensures
        snapshot_index(a, id) == snapshot_index(b, id),
    decreases a.len(),
{
    if a.len() > 0 {
        assert(a[0].id == b[0].id);
        lemma_same_ids_same_index(a.drop_first(), b.drop_first(), id);
    }
}

/// Rolling back is done once: rolling the same snapshot back again changes
/// nothing and hands out nothing to undo.
pub proof fn rollback_happens_once(
    s0: Seq<Snapshot>,
    s1: Seq<Snapshot>,
    s2: Seq<Snapshot>,
    id: Seq<char>,
    first: RollbackPlan,
    second: RollbackPlan,
)
    requires
        rollback_effect(s0, s1, id, first),
        rollback_effect(s1, s2, id, second),
    ensures
        !second.rolled_back,
        second.restorations@.len() == 0,
        s2 == s1,
{
    if let Some(i) = snapshot_index(s0, id) {
        if s0[i].status != SnapshotStatus::RolledBack {
            assert forall|j: int| 0 <= j < s1.len() implies (#[trigger] s1[j]).id == s0[j].id by {
                if j != i {
                    assert(s1[j] == s0[j]);
                }
            }
            lemma_same_ids_same_index(s1, s0, id);
        }
    }
}

/// After deleting a snapshot's id, no snapshot has it.
pub proof fn deleted_snapshots_are_gone(s: Seq<Snapshot>, id: Seq<char>)
    ensures
        snapshot_index(without_id(s, id), id) is None,
{
    let w = without_id(s, id);
    assert forall|k: int| 0 <= k < w.len() implies (#[trigger] w[k]).id@ != id by {
        broadcast use vstd::seq_lib::group_filter_ensures;
    }
    lemma_no_index(w, id);
}

/// No snapshot with the id: no index.
proof fn lemma_no_index(s: Seq<Snapshot>, id: Seq<char>)
    requires
        forall|k: int| 0 <= k < s.len() ==> (#[trigger] s[k]).id@ != id,
    ensures
        snapshot_index(s, id) is None,
    decreases s.len(),
{
    if s.len() > 0 {
        assert(s[0].id@ != id);
        assert forall|k: int| 0 <= k < s.drop_first().len() implies (#[trigger] s.drop_first()[k]).id@ != id by {
            assert(s.drop_first()[k] == s[k + 1]);
        }
        lemma_no_index(s.drop_first(), id);
    }
}

/// A merge never keeps a component whose rule says `never`.
pub proof fn never_components_are_not_merged(rules: PromotionRules, groups: Seq<(Seq<char>, Seq<SourcedVersions>)>)
    ensures
        forall|i: int| 0 <= i < merged_of(rules, groups).len() ==> rules.action_for(
            (#[trigger] merged_of(rules, groups)[i]).0,
        ) != PromotionAction::Never,
    decreases groups.len(),
{
    if groups.len() > 0 {
        never_components_are_not_merged(rules, groups.drop_last());
    }
}

/// A snapshot log holds exactly the records it was written with.
pub proof fn snapshot_log_holds_its_records(records: Seq<YamlView>)
    ensures
        recorded_snapshots(snapshot_log(records)) == records,
{
    let es = seq![(YamlView::Text("snapshots"@), YamlView::Sequence(records))];
    lemma_entry_index(es, "snapshots"@);
    assert(entry_index(es, "snapshots"@) == Some(0int));
}


/// Every file group of a multi-source promotion is either promoted from one
/// source or kept as the destination has it (until a review decides).
pub proof fn every_file_is_promoted_or_retained(config: Config, groups: Seq<FileGroup>)
    ensures
        auto_entries(config, groups).len() + retained_entries(config, groups).len() == groups.len(),
    decreases groups.len(),
{
    if groups.len() > 0 {
        every_file_is_promoted_or_retained(config, groups.drop_last());
    }
}

/// A promotion that only brings version files of components the
/// destination already has needs no review.
pub proof fn version_only_promotions_need_no_review(config: Config, groups: Seq<FileGroup>)
    requires
        forall|i: int| 0 <= i < groups.len() ==> (#[trigger] groups[i]).candidates@.len() > 0
            && groups[i].candidates@[0].existing_component && groups[i].candidates@[0].version_managed,
    ensures
        review_entries(config, groups).len() == 0,
    decreases groups.len(),
{
    if groups.len() > 0 {
        assert forall|i: int| 0 <= i < groups.drop_last().len() implies (#[trigger] groups.drop_last()[i]).candidates@.len() > 0
            && groups.drop_last()[i].candidates@[0].existing_component && groups.drop_last()[i].candidates@[0].version_managed by {
            assert(groups.drop_last()[i] == groups[i]);
        }
        version_only_promotions_need_no_review(config, groups.drop_last());
        assert(groups.last() == groups[groups.len() - 1]);
    }
}

/// Some group of a component that the destination has offers `path`.
pub open spec fn offered_by_existing_component(groups: Seq<FileGroup>, path: Seq<char>) -> bool {
    exists|k: int| 0 <= k < groups.len() && groups[k].relative@ == path && groups[k].candidates@[0].existing_component
}

/// A file of a component that the destination lacks is never promoted
/// without review: its path is kept for review, and every promoted file
/// belongs to a component that the destination has.
pub proof fn new_components_are_not_promoted(config: Config, groups: Seq<FileGroup>)
    requires
        forall|i: int| 0 <= i < groups.len() ==> (#[trigger] groups[i]).candidates@.len() > 0,
    ensures
        forall|k: int| 0 <= k < groups.len() && !(#[trigger] groups[k]).candidates@[0].existing_component
            ==> retained_entries(config, groups).contains(groups[k].relative@),
        forall|j: int| 0 <= j < auto_entries(config, groups).len() ==> offered_by_existing_component(
            groups,
            (#[trigger] auto_entries(config, groups)[j]).0,
        ),
    decreases groups.len(),
{
    if groups.len() > 0 {
        let d = groups.drop_last();
        let n = groups.len() - 1;
        let g = groups.last();
        assert(g == groups[n]);
        assert forall|i: int| 0 <= i < d.len() implies (#[trigger] d[i]).candidates@.len() > 0 by {
            assert(d[i] == groups[i]);
        }
        new_components_are_not_promoted(config, d);
        let rd = retained_entries(config, d);
        let ad = auto_entries(config, d);
        assert forall|k: int| 0 <= k < groups.len() && !(#[trigger] groups[k]).candidates@[0].existing_component
            implies retained_entries(config, groups).contains(groups[k].relative@) by {
            if k < n {
                assert(d[k] == groups[k]);
                assert(rd.contains(d[k].relative@));
                let w = choose|w: int| 0 <= w < rd.len() && rd[w] == d[k].relative@;
                if !(placement(config, g) is Auto) {
                    assert(rd.push(g.relative@)[w] == rd[w]);
                }
            } else {
                assert(placement(config, g) == Placement::Review(ReviewItemKind::NewComponent));
                assert(rd.push(g.relative@)[rd.len() as int] == g.relative@);
            }
        }
        assert forall|j: int| 0 <= j < auto_entries(config, groups).len() implies offered_by_existing_component(
            groups,
            (#[trigger] auto_entries(config, groups)[j]).0,
        ) by {
            if j < ad.len() {
                assert(offered_by_existing_component(d, ad[j].0));
                let k = choose|k: int| 0 <= k < d.len() && d[k].relative@ == ad[j].0
                    && d[k].candidates@[0].existing_component;
                assert(d[k] == groups[k]);
                if placement(config, g) is Auto {
                    assert(auto_entries(config, groups)[j] == ad[j]);
                }
                assert(0 <= k < groups.len() && groups[k].relative@ == auto_entries(config, groups)[j].0
                    && groups[k].candidates@[0].existing_component);
            } else {
                assert(placement(config, g) is Auto);
                assert(groups[n].relative@ == auto_entries(config, groups)[j].0);
                assert(0 <= n < groups.len() && groups[n].relative@ == auto_entries(config, groups)[j].0
                    && groups[n].candidates@[0].existing_component);
            }
        }
    } else {
        assert(auto_entries(config, groups).len() == 0);
    }
}

/// Sources that offer identical contents for a file never need a choice
/// between them.
pub proof fn identical_files_need_no_choice(config: Config, g: FileGroup)
    requires
        g.candidates@.len() > 0,
        identical_contents(g.candidates@),
    ensures
        !(placement(config, g) matches Placement::Review(ReviewItemKind::ConflictingFile)),
{
}

/// Without component filters every component is applied.
pub proof fn no_filter_selects_every_component(component: Seq<char>)
    ensures
        component_selected(component, Seq::empty()),
{
}

/// Filtering conflicts by the rules only ever drops source changes
/// (repository or registry changes) that the rules ignore.
pub proof fn only_ignored_source_changes_are_dropped(rules: PromotionRules, c: ConflictView)
    requires
        !conflict_kept(rules, c),
    ensures
        c.kind is RepositoryChange || c.kind is RegistryChange,
        handling_for(rules, c.component) == SourceChangeHandling::Ignore,
{
}

} // verus!
