//! Applying review decisions.
use vstd::prelude::*;
use crate::error::PromrailError;
use crate::review::analyze::{PromotionAnalysis, lookup_view, records_view};
use crate::review::models::{
    ReviewArtifact, ReviewArtifactStatus, ReviewDecision, ReviewItem, ReviewItemView,
};
use crate::text::{cat, cat_views, contains_string, str_eq, views};
use crate::ext::now_rfc3339;

verus! {

/// The ids of some items.
pub open spec fn id_set(items: Seq<ReviewItemView>) -> Set<Seq<char>> {
    items.map_values(|it: ReviewItemView| it.id).to_set()
}

/// Whether every item of `a` has an id that some item of `b` has.
fn ids_within(a: &Vec<ReviewItem>, b: &Vec<ReviewItem>) -> (r: bool)
    ensures
        r == id_set(a.deep_view()).subset_of(id_set(b.deep_view())),
{
    let ghost av = a.deep_view().map_values(|it: ReviewItemView| it.id);
    let ghost bv = b.deep_view().map_values(|it: ReviewItemView| it.id);
    let mut i: usize = 0;
    while i < a.len()
        invariant
            i <= a@.len(),
            av == a.deep_view().map_values(|it: ReviewItemView| it.id),
            bv == b.deep_view().map_values(|it: ReviewItemView| it.id),
            forall|j: int| 0 <= j < i ==> bv.contains(#[trigger] av[j]),
        decreases a@.len() - i,
    {
        let mut found = false;
        let mut k: usize = 0;
        while k < b.len()
            invariant
                k <= b@.len(),
                i < a@.len(),
                av == a.deep_view().map_values(|it: ReviewItemView| it.id),
                bv == b.deep_view().map_values(|it: ReviewItemView| it.id),
                found <==> exists|j: int| 0 <= j < k && bv[j] == av[i as int],
            decreases b@.len() - k,
        {
            assert(bv[k as int] == b@[k as int].id@);
            assert(av[i as int] == a@[i as int].id@);
            if str_eq(b[k].id.as_str(), a[i].id.as_str()) {
                found = true;
            }
            k += 1;
        }
        if !found {
            assert(!bv.contains(av[i as int]));
            assert(!id_set(a.deep_view()).subset_of(id_set(b.deep_view()))) by {
                assert(id_set(a.deep_view()).contains(av[i as int]));
            }
            return false;
        }
        i += 1;
    }
    assert(id_set(a.deep_view()).subset_of(id_set(b.deep_view()))) by {
        assert forall|x: Seq<char>| id_set(a.deep_view()).contains(x) implies id_set(
            b.deep_view(),
        ).contains(x) by {
            let j = choose|j: int| 0 <= j < av.len() && av[j] == x;
            assert(bv.contains(av[j]));
        }
    }
    true
}

/// An artifact is ready once it is classified, its fingerprint matches the
/// analysis, and it holds the items of the analysis by id.
pub open spec fn ready_for_apply(artifact: ReviewArtifact, analysis: PromotionAnalysis) -> bool {
    &&& artifact.status == ReviewArtifactStatus::Classified
    &&& artifact.fingerprint@ == analysis.fingerprint@
    &&& id_set(analysis.review_items.deep_view()) == id_set(artifact.items.deep_view())
}

/// Whether a classified artifact still matches the analysis of the
/// promotion it was made for.
pub fn artifact_ready_for_apply(artifact: &ReviewArtifact, analysis: &PromotionAnalysis) -> (r:
    Result<bool, PromrailError>)
    ensures
        r matches Ok(b) && b == ready_for_apply(*artifact, *analysis),
{
    if artifact.status != ReviewArtifactStatus::Classified {
        return Ok(false);
    }
    if !str_eq(artifact.fingerprint.as_str(), analysis.fingerprint.as_str()) {
        return Ok(false);
    }
    let a = ids_within(&analysis.review_items, &artifact.items);
    let b = ids_within(&artifact.items, &analysis.review_items);
    proof {
        let x = id_set(analysis.review_items.deep_view());
        let y = id_set(artifact.items.deep_view());
        if a && b {
            assert(x =~= y);
        }
    }
    Ok(a && b)
}

/// A promoted file: its path, the chosen source and the source's file.
pub type ApprovedRecord = (Seq<char>, (Seq<char>, Seq<char>));

/// The file that `source` offers for `path`, by the first matching record.
pub open spec fn lookup_file(lookup: Seq<((Seq<char>, Seq<char>), Seq<char>)>, path: Seq<char>, source: Seq<char>) -> Option<Seq<char>>
    decreases lookup.len(),
{
    if lookup.len() == 0 {
        None
    } else if lookup[0].0 == (path, source) {
        Some(lookup[0].1)
    } else {
        lookup_file(lookup.drop_first(), path, source)
    }
}

/// `records` with `path` approved from `source`'s `file`: the record of the
/// path is replaced, or one is added last.
pub open spec fn approve(records: Seq<ApprovedRecord>, path: Seq<char>, source: Seq<char>, file: Seq<char>) -> Seq<ApprovedRecord> {
    if exists|i: int| 0 <= i < records.len() && records[i].0 == path {
        let i = choose|i: int| 0 <= i < records.len() && records[i].0 == path && forall|j: int| 0 <= j < i ==> records[j].0 != path;
        records.update(i, (path, (source, file)))
    } else {
        records.push((path, (source, file)))
    }
}

/// The source a promoted item is taken from: the selected one, or its only
/// candidate.
pub open spec fn promoted_source(item: ReviewItemView) -> Option<Seq<char>> {
    match item.selected_source {
        Some(s) => Some(s),
        None => if item.candidate_sources.len() == 1 {
            Some(item.candidate_sources[0])
        } else {
            None
        },
    }
}

/// The records after approving each file of a promoted item; the message of
/// the first file that the source does not offer.
pub open spec fn approve_files(
    id: Seq<char>,
    files: Seq<Seq<char>>,
    source: Seq<char>,
    lookup: Seq<((Seq<char>, Seq<char>), Seq<char>)>,
    records: Seq<ApprovedRecord>,
) -> Result<Seq<ApprovedRecord>, Seq<char>>
    decreases files.len(),
{
    if files.len() == 0 {
        Ok(records)
    } else {
        match lookup_file(lookup, files[0], source) {
            None => Err(
                "review item "@ + id + " references missing source file "@ + files[0] + " from "@
                    + source,
            ),
            Some(f) => approve_files(
                id,
                files.drop_first(),
                source,
                lookup,
                approve(records, files[0], source, f),
            ),
        }
    }
}

/// The records after one item's decision, or the message of what is wrong
/// with it.
pub open spec fn item_outcome(
    item: ReviewItemView,
    lookup: Seq<((Seq<char>, Seq<char>), Seq<char>)>,
    records: Seq<ApprovedRecord>,
) -> Result<Seq<ApprovedRecord>, Seq<char>> {
    match item.decision {
        None => Err("review item "@ + item.id + " is missing a decision"@),
        Some(ReviewDecision::Skip) => Ok(records),
        Some(ReviewDecision::Promote) => match promoted_source(item) {
            None => Err(
                "review item "@ + item.id + " is promoted but selected_source is missing"@,
            ),
            Some(s) => if !item.candidate_sources.contains(s) {
                Err("review item "@ + item.id + " selected invalid source "@ + s)
            } else {
                approve_files(item.id, item.files, s, lookup, records)
            },
        },
    }
}

/// The records after the decisions of the items, in order; the first
/// problem stops them.
pub open spec fn decisions_outcome(
    items: Seq<ReviewItemView>,
    lookup: Seq<((Seq<char>, Seq<char>), Seq<char>)>,
    records: Seq<ApprovedRecord>,
) -> Result<Seq<ApprovedRecord>, Seq<char>>
    decreases items.len(),
{
    if items.len() == 0 {
        Ok(records)
    } else {
        match item_outcome(items[0], lookup, records) {
            Err(e) => Err(e),
            Ok(next) => decisions_outcome(items.drop_first(), lookup, next),
        }
    }
}

/// Position of the record of `(path, source)` in the lookup.
fn find_lookup(lookup: &Vec<((String, String), String)>, path: &str, source: &str) -> (r: Option<
    usize,
>)
    ensures
        match r {
            Some(i) => i < lookup@.len() && lookup_file(lookup_view(lookup@), path@, source@)
                == Some(lookup@[i as int].1@),
            None => lookup_file(lookup_view(lookup@), path@, source@) is None,
        },
{
    let ghost l = lookup_view(lookup@);
    let mut i: usize = 0;
    assert(l.skip(0) =~= l);
    while i < lookup.len()
        invariant
            i <= lookup@.len(),
            l == lookup_view(lookup@),
            lookup_file(l, path@, source@) == lookup_file(l.skip(i as int), path@, source@),
        decreases lookup@.len() - i,
    {
        assert(l.skip(i as int).drop_first() =~= l.skip(i + 1));
        assert(l.skip(i as int)[0] == l[i as int]);
        if str_eq(lookup[i].0.0.as_str(), path) && str_eq(lookup[i].0.1.as_str(), source) {
            return Some(i);
        }
        i += 1;
    }
    None
}

/// Approves `path` from `source`'s `file` in `records`.
fn approve_record(records: &mut Vec<(String, (String, String))>, path: &String, source: &String, file: &String)
    ensures
        records_view(final(records)@) == approve(records_view(old(records)@), path@, source@, file@),
{
    let ghost r0 = records_view(records@);
    let mut i: usize = 0;
    while i < records.len()
        invariant
            i <= records@.len(),
            r0 == records_view(records@),
            r0 == records_view(old(records)@),
            forall|j: int| 0 <= j < i ==> r0[j].0 != path@,
        decreases records@.len() - i,
    {
        if str_eq(records[i].0.as_str(), path.as_str()) {
            assert(r0[i as int].0 == path@);
            let ghost c = choose|c: int| 0 <= c < r0.len() && r0[c].0 == path@ && forall|j: int| 0 <= j < c ==> r0[j].0 != path@;
            assert(c == i) by {
                assert(0 <= c < r0.len() && r0[c].0 == path@ && forall|j: int| 0 <= j < c ==> r0[j].0 != path@);
                if c < i {
                    assert(r0[c].0 != path@);
                }
                if c > i {
                    assert(r0[i as int].0 != path@);
                }
            }
            records.set(i, (path.clone(), (source.clone(), file.clone())));
            assert(records_view(records@) =~= approve(r0, path@, source@, file@));
            return;
        }
        i += 1;
    }
    records.push((path.clone(), (source.clone(), file.clone())));
    assert(records_view(records@) =~= approve(r0, path@, source@, file@));
}

/// A copy of some records.
pub fn copy_records(v: &Vec<(String, (String, String))>) -> (r: Vec<(String, (String, String))>)
    ensures
        records_view(r@) == records_view(v@),
{
    let mut r: Vec<(String, (String, String))> = Vec::new();
    let mut i: usize = 0;
    while i < v.len()
        invariant
            i <= v@.len(),
            records_view(r@) == records_view(v@).take(i as int),
        decreases v@.len() - i,
    {
        let ghost prev = r@;
        r.push((v[i].0.clone(), (v[i].1.0.clone(), v[i].1.1.clone())));
        assert(records_view(r@) =~= records_view(prev).push(records_view(v@)[i as int]));
        i += 1;
        assert(records_view(r@) =~= records_view(v@).take(i as int));
    }
    assert(records_view(v@).take(i as int) =~= records_view(v@));
    r
}

/// The files to promote after review: the automatically promoted ones and
/// the files of the items promoted from their chosen source. An item without
/// a decision, a promoted item without a source or with a source that is not
/// a candidate, or a file that the source does not offer, make the artifact
/// invalid.
pub fn apply_review_decisions(artifact: &ReviewArtifact, analysis: &PromotionAnalysis) -> (r: Result<
    Vec<(String, (String, String))>,
    PromrailError,
>)
    ensures
        match decisions_outcome(
            artifact.items.deep_view(),
            lookup_view(analysis.source_lookup@),
            records_view(analysis.auto_files@),
        ) {
            Ok(records) => r matches Ok(v) && records_view(v@) == records,
            Err(msg) => r matches Err(PromrailError::ReviewArtifactInvalid(m)) && m@ == msg,
        },
{
    let ghost items = artifact.items.deep_view();
    let ghost lookup = lookup_view(analysis.source_lookup@);
    let ghost total = decisions_outcome(items, lookup, records_view(analysis.auto_files@));
    let mut approved = copy_records(&analysis.auto_files);
    let mut i: usize = 0;
    assert(items.skip(0) =~= items);
    while i < artifact.items.len()
        invariant
            i <= artifact.items@.len(),
            items == artifact.items.deep_view(),
            lookup == lookup_view(analysis.source_lookup@),
            total == decisions_outcome(items, lookup, records_view(analysis.auto_files@)),
            total == decisions_outcome(items.skip(i as int), lookup, records_view(approved@)),
        decreases artifact.items@.len() - i,
    {
        let item = &artifact.items[i];
        let ghost iv = items[i as int];
        assert(iv == item@);
        assert(items.skip(i as int).drop_first() =~= items.skip(i + 1));
        assert(items.skip(i as int)[0] == iv);
        match item.decision {
            None => {
                let msg = cat(&["review item ", item.id.as_str(), " is missing a decision"]);
                proof {
                    reveal_with_fuel(cat_views, 4);
                }
                return Err(PromrailError::ReviewArtifactInvalid(msg));
            },
            Some(ReviewDecision::Skip) => {},
            Some(ReviewDecision::Promote) => {
                let selected = match &item.selected_source {
                    Some(s) => s.clone(),
                    None => {
                        if item.candidate_sources.len() == 1 {
                            item.candidate_sources[0].clone()
                        } else {
                            let msg = cat(
                                &[
                                    "review item ",
                                    item.id.as_str(),
                                    " is promoted but selected_source is missing",
                                ],
                            );
                            proof {
                                reveal_with_fuel(cat_views, 4);
                            }
                            return Err(PromrailError::ReviewArtifactInvalid(msg));
                        }
                    },
                };
                assert(promoted_source(iv) == Some(selected@));
                if !contains_string(&item.candidate_sources, selected.as_str()) {
                    let msg = cat(
                        &[
                            "review item ",
                            item.id.as_str(),
                            " selected invalid source ",
                            selected.as_str(),
                        ],
                    );
                    proof {
                        reveal_with_fuel(cat_views, 5);
                    }
                    return Err(PromrailError::ReviewArtifactInvalid(msg));
                }
                let ghost files = iv.files;
                let ghost start = records_view(approved@);
                let mut f: usize = 0;
                assert(files.skip(0) =~= files);
                while f < item.files.len()
                    invariant
                        f <= item.files@.len(),
                        files == views(item.files@),
                        iv == item@,
                        items == artifact.items.deep_view(),
                        total == decisions_outcome(items, lookup, records_view(analysis.auto_files@)),
                        items.skip(i as int)[0] == iv,
                        items.skip(i as int).len() > 0,
                        total == decisions_outcome(items.skip(i as int), lookup, start),
                        item_outcome(iv, lookup, start) == approve_files(
                            iv.id,
                            files,
                            selected@,
                            lookup,
                            start,
                        ),
                        lookup == lookup_view(analysis.source_lookup@),
                        approve_files(iv.id, files, selected@, lookup, start) == approve_files(
                            iv.id,
                            files.skip(f as int),
                            selected@,
                            lookup,
                            records_view(approved@),
                        ),
                    decreases item.files@.len() - f,
                {
                    assert(files.skip(f as int).drop_first() =~= files.skip(f + 1));
                    assert(files.skip(f as int)[0] == item.files@[f as int]@);
                    match find_lookup(&analysis.source_lookup, item.files[f].as_str(), selected.as_str()) {
                        None => {
                            let msg = cat(
                                &[
                                    "review item ",
                                    item.id.as_str(),
                                    " references missing source file ",
                                    item.files[f].as_str(),
                                    " from ",
                                    selected.as_str(),
                                ],
                            );
                            proof {
                                reveal_with_fuel(cat_views, 7);
                            }
                            assert(msg@ == "review item "@ + iv.id + " references missing source file "@
                                + files.skip(f as int)[0] + " from "@ + selected@);
                            assert(approve_files(
                                iv.id,
                                files.skip(f as int),
                                selected@,
                                lookup,
                                records_view(approved@),
                            ) == Err::<Seq<ApprovedRecord>, Seq<char>>(msg@));
                            assert(total == Err::<Seq<ApprovedRecord>, Seq<char>>(msg@));
                            return Err(PromrailError::ReviewArtifactInvalid(msg));
                        },
                        Some(k) => {
                            approve_record(
                                &mut approved,
                                &item.files[f],
                                &selected,
                                &analysis.source_lookup[k].1,
                            );
                        },
                    }
                    f += 1;
                }
            },
        }
        i += 1;
    }
    Ok(approved)
}

/// `after` is `before` marked applied: its status is `Applied` and all it
/// records but the time of its last update is as it was.
pub open spec fn marked_applied(before: ReviewArtifact, after: ReviewArtifact) -> bool {
    &&& after.status == ReviewArtifactStatus::Applied
    &&& after.version == before.version
    &&& after.id == before.id
    &&& after.created_at == before.created_at
    &&& after.sources == before.sources
    &&& after.dest == before.dest
    &&& after.filters == before.filters
    &&& after.route_key == before.route_key
    &&& after.fingerprint == before.fingerprint
    &&& after.summary == before.summary
    &&& after.items == before.items
}

/// Marks an artifact as applied after its promotion, stamping the time of
/// the update; everything else it records stays as it was.
pub fn mark_applied(artifact: &mut ReviewArtifact)
    ensures
        marked_applied(*old(artifact), *final(artifact)),
{
    artifact.status = ReviewArtifactStatus::Applied;
    artifact.updated_at = now_rfc3339();
}

} // verus!
