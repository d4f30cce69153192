//! Properties of a multi-source analysis: how its promoted files, kept
//! files and review items relate, stated over the specifications that
//! `analyze_multi_source_promotion`'s contract uses.
use vstd::prelude::*;
use crate::config::Config;
use crate::review::analyze::{
    auto_entries, entry_position, group_sources, insert_position, item_id, placement, retained_entries,
    review_entries, source_names_of, upserted, with_ids, FileGroup, Placement,
};
use crate::review::models::ReviewItemView;
use crate::text::{lemma_sorted_set_props, strictly_sorted};

verus! {

/// Some group is for `path`.
pub open spec fn path_of_group(groups: Seq<FileGroup>, path: Seq<char>) -> bool {
    exists|k: int| 0 <= k < groups.len() && groups[k].relative@ == path
}

/// Every group has a candidate, and no two groups are for the same path.
pub open spec fn groups_well_formed(groups: Seq<FileGroup>) -> bool {
    &&& forall|i: int| 0 <= i < groups.len() ==> (#[trigger] groups[i]).candidates@.len() > 0
    &&& forall|i: int, j: int| 0 <= i < j < groups.len() ==> groups[i].relative@ != groups[j].relative@
}

/// The first groups of well-formed groups are well formed.
proof fn lemma_prefix_well_formed(groups: Seq<FileGroup>)
    requires
        groups_well_formed(groups),
        groups.len() > 0,
    ensures
        groups_well_formed(groups.drop_last()),
{
    let d = groups.drop_last();
    assert forall|i: int| 0 <= i < d.len() implies (#[trigger] d[i]).candidates@.len() > 0 by {
        assert(d[i] == groups[i]);
    }
    assert forall|i: int, j: int| 0 <= i < j < d.len() implies d[i].relative@ != d[j].relative@ by {
        assert(d[i] == groups[i] && d[j] == groups[j]);
    }
}

/// A first entry with `key`, given one at `w`.
proof fn lemma_first_entry(m: Seq<(Seq<char>, ReviewItemView)>, key: Seq<char>, w: int) -> (c: int)
    requires
        0 <= w < m.len(),
        m[w].0 == key,
    ensures
        0 <= c < m.len(),
        m[c].0 == key,
        forall|j: int| 0 <= j < c ==> m[j].0 != key,
    decreases w,
{
    if exists|j: int| 0 <= j < w && m[j].0 == key {
        let j = choose|j: int| 0 <= j < w && m[j].0 == key;
        lemma_first_entry(m, key, j)
    } else {
        w
    }
}

/// The position `entry_position` gives holds the key.
proof fn lemma_entry_position_bounds(m: Seq<(Seq<char>, ReviewItemView)>, key: Seq<char>)
    ensures
        entry_position(m, key) matches Some(i) ==> 0 <= i < m.len() && m[i].0 == key,
{
    if exists|i: int| 0 <= i < m.len() && m[i].0 == key {
        let w = choose|i: int| 0 <= i < m.len() && m[i].0 == key;
        let c = lemma_first_entry(m, key, w);
        assert(0 <= c < m.len() && m[c].0 == key && forall|j: int| 0 <= j < c ==> m[j].0 != key);
    }
}

/// Where a new review key goes lies within the entries.
proof fn lemma_insert_position_bounds(m: Seq<(Seq<char>, ReviewItemView)>, key: Seq<char>)
    ensures
        0 <= insert_position(m, key) <= m.len(),
    decreases m.len(),
{
    if m.len() > 0 {
        lemma_insert_position_bounds(m.drop_first(), key);
    }
}

/// The promoted and kept paths are paths of the groups, and none is both.
proof fn lemma_auto_retained(config: Config, groups: Seq<FileGroup>)
    requires
        groups_well_formed(groups),
    ensures
        forall|i: int| 0 <= i < auto_entries(config, groups).len() ==> path_of_group(
            groups,
            (#[trigger] auto_entries(config, groups)[i]).0,
        ),
        forall|j: int| 0 <= j < retained_entries(config, groups).len() ==> path_of_group(
            groups,
            #[trigger] retained_entries(config, groups)[j],
        ),
        forall|i: int, j: int|
            0 <= i < auto_entries(config, groups).len() && 0 <= j < retained_entries(config, groups).len()
                ==> (#[trigger] auto_entries(config, groups)[i]).0 != #[trigger] retained_entries(config, groups)[j],
    decreases groups.len(),
{
    if groups.len() > 0 {
        let d = groups.drop_last();
        let n = groups.len() - 1;
        let g = groups.last();
        assert(g == groups[n]);
        lemma_prefix_well_formed(groups);
        lemma_auto_retained(config, d);
        let ad = auto_entries(config, d);
        let rd = retained_entries(config, d);
        let a = auto_entries(config, groups);
        let r = retained_entries(config, groups);
        assert forall|p: Seq<char>| path_of_group(d, p) implies path_of_group(groups, p) && p != g.relative@ by {
            let k = choose|k: int| 0 <= k < d.len() && d[k].relative@ == p;
            assert(d[k] == groups[k]);
            assert(0 <= k < groups.len() && groups[k].relative@ == p);
        }
        assert(path_of_group(groups, g.relative@)) by {
            assert(groups[n].relative@ == g.relative@);
        }
        assert forall|i: int| 0 <= i < a.len() implies path_of_group(groups, (#[trigger] a[i]).0) by {
            if i < ad.len() {
                assert(a[i] == ad[i]);
                assert(path_of_group(d, ad[i].0));
            }
        }
        assert forall|j: int| 0 <= j < r.len() implies path_of_group(groups, #[trigger] r[j]) by {
            if j < rd.len() {
                assert(r[j] == rd[j]);
                assert(path_of_group(d, rd[j]));
            }
        }
        assert forall|i: int, j: int| 0 <= i < a.len() && 0 <= j < r.len() implies (#[trigger] a[i]).0
            != #[trigger] r[j] by {
            if placement(config, g) is Auto {
                assert(r == rd);
                if i < ad.len() {
                    assert(a[i] == ad[i]);
                } else {
                    assert(a[i].0 == g.relative@);
                    assert(path_of_group(d, rd[j]));
                }
            } else {
                assert(a == ad);
                if j < rd.len() {
                    assert(r[j] == rd[j]);
                } else {
                    assert(r[j] == g.relative@);
                    assert(path_of_group(d, ad[i].0));
                }
            }
        }
    }
}

/// Every file of a review item is a kept path, and every item lists its
/// files and its candidate sources in increasing order without repeats.
proof fn lemma_review_entries(config: Config, groups: Seq<FileGroup>)
    requires
        groups_well_formed(groups),
    ensures
        forall|k: int, f: Seq<char>|
            0 <= k < review_entries(config, groups).len() && #[trigger] review_entries(config, groups)[k].1.files.contains(f)
                ==> retained_entries(config, groups).contains(f),
        forall|k: int| 0 <= k < review_entries(config, groups).len() ==> strictly_sorted(
            (#[trigger] review_entries(config, groups)[k]).1.files,
        ) && strictly_sorted(review_entries(config, groups)[k].1.candidate_sources),
    decreases groups.len(),
{
    if groups.len() > 0 {
        let d = groups.drop_last();
        let n = groups.len() - 1;
        let g = groups.last();
        assert(g == groups[n]);
        lemma_prefix_well_formed(groups);
        lemma_review_entries(config, d);
        let md = review_entries(config, d);
        let m = review_entries(config, groups);
        let rd = retained_entries(config, d);
        let r = retained_entries(config, groups);
        assert forall|f: Seq<char>| rd.contains(f) implies r.contains(f) by {
            let w = choose|w: int| 0 <= w < rd.len() && rd[w] == f;
            if !(placement(config, g) is Auto) {
                assert(r[w] == rd[w]);
            }
        }
        match placement(config, g) {
            Placement::Review(kind) => {
                assert(r[rd.len() as int] == g.relative@);
                let key = crate::review::analyze::review_key(kind, g.candidates@[0].component@);
                let sources = group_sources(g.candidates@);
                lemma_sorted_set_props(source_names_of(g.candidates@).to_set());
                lemma_entry_position_bounds(md, key);
                match entry_position(md, key) {
                    Some(i) => {
                        assert(0 <= i < md.len());
                        let fs = md[i].1.files.to_set().insert(g.relative@);
                        let cs = md[i].1.candidate_sources.to_set() + sources.to_set();
                        lemma_sorted_set_props(fs);
                        lemma_sorted_set_props(cs);
                        assert forall|k: int, f: Seq<char>| 0 <= k < m.len() && #[trigger] m[k].1.files.contains(f)
                            implies r.contains(f) by {
                            if k == i {
                                assert(m[k].1.files.to_set().contains(f));
                                if f != g.relative@ {
                                    assert(md[i].1.files.to_set().contains(f));
                                    assert(md[i].1.files.contains(f));
                                }
                            } else {
                                assert(m[k] == md[k]);
                            }
                        }
                        assert forall|k: int| 0 <= k < m.len() implies strictly_sorted((#[trigger] m[k]).1.files)
                            && strictly_sorted(m[k].1.candidate_sources) by {
                            if k != i {
                                assert(m[k] == md[k]);
                            }
                        }
                    },
                    None => {
                        let p = insert_position(md, key);
                        lemma_insert_position_bounds(md, key);
                        assert forall|k: int, f: Seq<char>| 0 <= k < m.len() && #[trigger] m[k].1.files.contains(f)
                            implies r.contains(f) by {
                            if k < p {
                                assert(m[k] == md[k]);
                            } else if k == p {
                                assert(m[k].1.files == seq![g.relative@]);
                            } else {
                                assert(m[k] == md[k - 1]);
                            }
                        }
                        assert forall|k: int| 0 <= k < m.len() implies strictly_sorted((#[trigger] m[k]).1.files)
                            && strictly_sorted(m[k].1.candidate_sources) by {
                            if k < p {
                                assert(m[k] == md[k]);
                            } else if k > p {
                                assert(m[k] == md[k - 1]);
                            }
                        }
                    },
                }
            },
            _ => {
                assert(m == md);
            },
        }
    }
}

/// In the analysis of groups for distinct paths, no path is both promoted
/// and kept; every file of a review item is kept (until a review decides);
/// each item lists its files and candidate sources in increasing order
/// without repeats; and each item's id is the hash of its kind, component
/// and files.
pub proof fn analysis_keeps_promoted_and_reviewed_apart(config: Config, groups: Seq<FileGroup>)
    requires
        groups_well_formed(groups),
    ensures
        forall|i: int, j: int|
            0 <= i < auto_entries(config, groups).len() && 0 <= j < retained_entries(config, groups).len()
                ==> (#[trigger] auto_entries(config, groups)[i]).0 != #[trigger] retained_entries(config, groups)[j],
        forall|k: int, f: Seq<char>|
            0 <= k < with_ids(review_entries(config, groups)).len() && #[trigger] with_ids(review_entries(config, groups))[k].files.contains(f) ==> retained_entries(config, groups).contains(f),
        forall|k: int| 0 <= k < with_ids(review_entries(config, groups)).len() ==> {
            let item = #[trigger] with_ids(review_entries(config, groups))[k];
            &&& strictly_sorted(item.files)
            &&& strictly_sorted(item.candidate_sources)
            &&& item.id == item_id(item.kind, item.component, item.files)
        },
{
    lemma_auto_retained(config, groups);
    lemma_review_entries(config, groups);
    let m = review_entries(config, groups);
    assert forall|k: int| 0 <= k < with_ids(m).len() implies (#[trigger] with_ids(m)[k]).files == m[k].1.files
        && with_ids(m)[k].candidate_sources == m[k].1.candidate_sources by {}
}

} // verus!
