//! Gathering the files that sources offer into one group per relative path.
use vstd::prelude::*;
use crate::review::analyze::{FileCandidate, FileGroup};
use crate::text::{lemma_lex_total, lemma_strict_insert, lex_lt, str_eq, string_less, strictly_sorted, views};

verus! {

/// The relative paths of some groups.
pub open spec fn group_paths(gs: Seq<FileGroup>) -> Seq<Seq<char>> {
    gs.map_values(|g: FileGroup| g.relative@)
}

/// The relative paths that some entries name.
pub open spec fn entry_paths(entries: Seq<(String, FileCandidate)>) -> Set<Seq<char>>
    decreases entries.len(),
{
    if entries.len() == 0 {
        Set::empty()
    } else {
        entry_paths(entries.drop_last()).insert(entries.last().0@)
    }
}

/// The candidates of the entries for a relative path, in entry order.
pub open spec fn candidates_for(entries: Seq<(String, FileCandidate)>, relative: Seq<char>) -> Seq<FileCandidate>
    decreases entries.len(),
{
    if entries.len() == 0 {
        Seq::empty()
    } else {
        let rest = candidates_for(entries.drop_last(), relative);
        if entries.last().0@ == relative {
            rest.push(entries.last().1)
        } else {
            rest
        }
    }
}

/// A path that no entry names has no candidates.
pub proof fn lemma_no_candidates(entries: Seq<(String, FileCandidate)>, relative: Seq<char>)
    requires
        !entry_paths(entries).contains(relative),
    ensures
        candidates_for(entries, relative).len() == 0,
    decreases entries.len(),
{
    if entries.len() > 0 {
        lemma_no_candidates(entries.drop_last(), relative);
    }
}

/// The groups of some entries: one per relative path, in increasing order
/// of the path's text, each with the candidates offered for that path in
/// the order they came, and with whether the destination already has a
/// file there.
pub open spec fn grouped_as(
    groups: Seq<FileGroup>,
    entries: Seq<(String, FileCandidate)>,
    dest_existing: Seq<Seq<char>>,
) -> bool {
    &&& strictly_sorted(group_paths(groups))
    &&& group_paths(groups).to_set() == entry_paths(entries)
    &&& forall|k: int| 0 <= k < groups.len() ==> (#[trigger] groups[k]).candidates@ == candidates_for(entries, groups[k].relative@)
    &&& forall|k: int| 0 <= k < groups.len() ==> (#[trigger] groups[k]).dest_has_file == dest_existing.contains(groups[k].relative@)
}

/// Groups the files the sources offer by relative path.
pub fn group_candidates(entries: Vec<(String, FileCandidate)>, dest_existing: &Vec<String>) -> (r: Vec<FileGroup>)
    ensures
        grouped_as(r@, entries@, views(dest_existing@)),
{
    let ghost all = entries@;
    let mut rest = entries;
    let mut groups: Vec<FileGroup> = Vec::new();
    let ghost mut i: int = 0;
    proof {
        assert(all.take(0) =~= Seq::<(String, FileCandidate)>::empty());
        assert(group_paths(groups@).to_set() =~= Set::<Seq<char>>::empty());
        assert(rest@ =~= all.skip(0));
    }
    while rest.len() > 0
        invariant
            0 <= i <= all.len(),
            rest@ == all.skip(i),
            grouped_as(groups@, all.take(i), views(dest_existing@)),
        decreases rest@.len(),
    {
        let (rel, cand) = rest.remove(0);
        proof {
            assert(all[i] == (rel, cand));
            assert(all.take(i + 1).drop_last() =~= all.take(i));
            assert(all.take(i + 1).last() == (rel, cand));
        }
        let ghost prev = groups@;
        let ghost paths = group_paths(prev);
        let mut p: usize = 0;
        while p < groups.len() && string_less(groups[p].relative.as_str(), rel.as_str())
            invariant
                p <= groups@.len(),
                groups@ == prev,
                paths == group_paths(prev),
                forall|j: int| 0 <= j < p ==> lex_lt(#[trigger] paths[j], rel@),
            decreases groups@.len() - p,
        {
            p += 1;
        }
        if p < groups.len() && str_eq(groups[p].relative.as_str(), rel.as_str()) {
            let mut g = groups.remove(p);
            g.candidates.push(cand);
            groups.insert(p, g);
            proof {
                assert(group_paths(groups@) =~= paths);
                assert(entry_paths(all.take(i + 1)) =~= entry_paths(all.take(i))) by {
                    assert(paths[p as int] == rel@);
                    assert(paths.to_set().contains(rel@));
                }
                assert forall|k: int| 0 <= k < groups@.len() implies (#[trigger] groups@[k]).candidates@
                    == candidates_for(all.take(i + 1), groups@[k].relative@) by {
                    if k != p {
                        assert(groups@[k] == prev[k]);
                        assert(paths[k] != paths[p as int]);
                    }
                }
            }
        } else {
            proof {
                if p < paths.len() {
                    lemma_lex_total(paths[p as int], rel@);
                }
                assert(!paths.to_set().contains(rel@)) by {
                    if paths.to_set().contains(rel@) {
                        let k = choose|k: int| 0 <= k < paths.len() && paths[k] == rel@;
                        if k < p {
                            assert(lex_lt(paths[k], rel@));
                            crate::text::lemma_lex_irreflexive(rel@);
                        } else if k > p {
                            assert(lex_lt(paths[p as int], paths[k]));
                            crate::text::lemma_lex_asymmetric(rel@, paths[p as int]);
                        }
                    }
                }
                lemma_no_candidates(all.take(i), rel@);
                lemma_strict_insert(paths, p as int, rel@);
            }
            let has = crate::text::contains_string(dest_existing, rel.as_str());
            let mut cands: Vec<FileCandidate> = Vec::new();
            cands.push(cand);
            let g = FileGroup { relative: rel, candidates: cands, dest_has_file: has };
            groups.insert(p, g);
            proof {
                assert(group_paths(groups@) =~= paths.insert(p as int, g.relative@));
                assert(entry_paths(all.take(i + 1)) =~= entry_paths(all.take(i)).insert(g.relative@));
                assert(candidates_for(all.take(i), g.relative@) =~= Seq::<FileCandidate>::empty());
                assert forall|k: int| 0 <= k < groups@.len() implies (#[trigger] groups@[k]).candidates@
                    == candidates_for(all.take(i + 1), groups@[k].relative@) && groups@[k].dest_has_file == views(dest_existing@).contains(groups@[k].relative@) by {
                    if k < p {
                        assert(groups@[k] == prev[k]);
                        assert(lex_lt(paths[k], rel@));
                        crate::text::lemma_lex_irreflexive(rel@);
                    } else if k > p {
                        assert(groups@[k] == prev[k - 1]);
                        assert(paths[k - 1] != rel@);
                    } else {
                        assert(candidates_for(all.take(i + 1), rel@) =~= seq![cand]);
                    }
                }
            }
        }
        proof {
            i = i + 1;
            assert(rest@ =~= all.skip(i));
        }
    }
    proof {
        assert(all.take(i) =~= all);
    }
    groups
}

} // verus!
