//! Snapshot management for promotion tracking: the snapshots of a
//! destination, and how a rollback restores the versions they recorded.
use vstd::prelude::*;
use crate::ext::{
    entries_tags_named, items_tags_named, lemma_entry_tags, lemma_item_tags, parse_yaml,
    render_yaml, tags_named, yaml_document, yaml_rendering,
};
use crate::text::{owned, str_eq, views};
use crate::versions::apply::{lemma_with_key_value_tags};
use crate::versions::models::{
    FileVersionChange, FileVersionChangeView, Snapshot, SnapshotFile, SnapshotStatus,
    VersionChangeKind,
};
use crate::yaml::{
    YamlValue, YamlView, as_text, entries_view, entry_index, entry_lookup, entry_position,
    entry_value, get_key, get_text, items_view, key_text, lemma_entries_view,
    lemma_entry_index, lemma_items_view, set_key_value, text_of, with_key_value,
};

verus! {

// ---------------------------------------------------------------------------
// Restoring chart versions
// ---------------------------------------------------------------------------

/// A listed chart called `name` that has a version gets `version`.
pub open spec fn restored_chart_item(item: YamlView, name: Seq<char>, version: Seq<char>) -> YamlView {
    if key_text(item, "name"@) == Some(name) && get_key(item, "version"@) is Some {
        with_key_value(item, "version"@, YamlView::Text(version))
    } else {
        item
    }
}

/// A chart list with the charts called `name` restored, looking through tags.
pub open spec fn restored_chart_list(list: YamlView, name: Seq<char>, version: Seq<char>) -> YamlView
    decreases list,
{
    match list {
        YamlView::Tagged(t, inner) => YamlView::Tagged(
            t,
            Box::new(restored_chart_list(*inner, name, version)),
        ),
        YamlView::Sequence(items) => YamlView::Sequence(
            Seq::new(items.len(), |i: int| restored_chart_item(items[i], name, version)),
        ),
        _ => list,
    }
}

/// A document with the chart list under `key` restored, looking through tags.
pub open spec fn restored_chart_doc(doc: YamlView, key: Seq<char>, name: Seq<char>, version: Seq<char>) -> YamlView
    decreases doc,
{
    match doc {
        YamlView::Tagged(t, inner) => YamlView::Tagged(
            t,
            Box::new(restored_chart_doc(*inner, key, name, version)),
        ),
        YamlView::Mapping(es) => match entry_index(es, key) {
            Some(i) => YamlView::Mapping(
                es.update(i, (es[i].0, restored_chart_list(es[i].1, name, version))),
            ),
            None => doc,
        },
        _ => doc,
    }
}

/// Restores one listed chart.
fn restore_chart_item(item: &YamlValue, name: &str, version: &str) -> (r: YamlValue)
    ensures
        r@ == restored_chart_item(item@, name@, version@),
        tags_named(item@) ==> tags_named(r@),
{
    if let Some(n) = get_text(item, "name") {
        if str_eq(n.as_str(), name) {
            if let Some(_) = crate::yaml::get(item, "version") {
                proof {
                    if tags_named(item@) {
                        lemma_with_key_value_tags(item@, "version"@, YamlView::Text(version@));
                    }
                }
                return set_key_value(item, "version", YamlValue::Text(owned(version)));
            }
        }
    }
    item.copy()
}

/// Restores the charts called `name` of a list, looking through tags.
fn restore_chart_list(list: &YamlValue, name: &str, version: &str) -> (r: YamlValue)
    ensures
        r@ == restored_chart_list(list@, name@, version@),
        tags_named(list@) ==> tags_named(r@),
    decreases list,
{
    match list {
        YamlValue::Tagged(t, inner) => {
            assert(list@ == YamlView::Tagged(t@, Box::new((**inner)@)));
            let x = restore_chart_list(inner, name, version);
            let r = YamlValue::Tagged(t.clone(), Box::new(x));
            assert(r@ == YamlView::Tagged(t@, Box::new(x@)));
            proof {
                crate::versions::apply::lemma_tags_tagged(t@, (**inner)@);
                crate::versions::apply::lemma_tags_tagged(t@, x@);
            }
            r
        },
        YamlValue::Sequence(items) => {
            let ghost iv = items_view(items@);
            proof {
                lemma_items_view(items@);
            }
            let ghost target = Seq::new(iv.len(), |i: int| restored_chart_item(iv[i], name@, version@));
            let mut out: Vec<YamlValue> = Vec::new();
            let mut i: usize = 0;
            while i < items.len()
                invariant
                    i <= items@.len(),
                    *list == YamlValue::Sequence(*items),
                    iv == items_view(items@),
                    iv.len() == items@.len(),
                    forall|k: int| 0 <= k < items@.len() ==> #[trigger] iv[k] == items@[k]@,
                    target == Seq::new(iv.len(), |i: int| restored_chart_item(iv[i], name@, version@)),
                    items_view(out@) == target.take(i as int),
                    tags_named(list@) ==> items_tags_named(items_view(out@)),
                decreases items@.len() - i,
            {
                proof {
                    assert(list@ == YamlView::Sequence(iv));
                    if tags_named(list@) {
                        assert(items_tags_named(iv));
                        lemma_item_tags(iv, i as int);
                    }
                }
                let x = restore_chart_item(&items[i], name, version);
                let ghost prev = out@;
                let ghost xv = x@;
                out.push(x);
                assert(out@.drop_last() =~= prev);
                assert(items_view(out@) == items_view(prev).push(xv));
                assert(items_view(prev).push(xv).drop_last() =~= items_view(prev));
                i += 1;
                assert(items_view(out@) =~= target.take(i as int));
            }
            assert(target.take(i as int) =~= target);
            YamlValue::Sequence(out)
        },
        _ => list.copy(),
    }
}

/// Restores the charts called `name` under `key` of a document.
fn restore_chart_doc(doc: &YamlValue, key: &str, name: &str, version: &str) -> (r: YamlValue)
    ensures
        r@ == restored_chart_doc(doc@, key@, name@, version@),
        tags_named(doc@) ==> tags_named(r@),
    decreases doc,
{
    match doc {
        YamlValue::Tagged(t, inner) => {
            assert(doc@ == YamlView::Tagged(t@, Box::new((**inner)@)));
            let x = restore_chart_doc(inner, key, name, version);
            let r = YamlValue::Tagged(t.clone(), Box::new(x));
            assert(r@ == YamlView::Tagged(t@, Box::new(x@)));
            proof {
                crate::versions::apply::lemma_tags_tagged(t@, (**inner)@);
                crate::versions::apply::lemma_tags_tagged(t@, x@);
            }
            r
        },
        YamlValue::Mapping(entries) => {
            proof {
                lemma_entries_view(entries@);
                lemma_entry_index(entries_view(entries@), key@);
            }
            match entry_position(entries, key) {
                Some(i) => {
                    let updated = restore_chart_list(&entries[i].1, name, version);
                    let out = crate::yaml::entries_with_value(entries, i, updated);
                    let r = YamlValue::Mapping(out);
                    proof {
                        let es = entries_view(entries@);
                        let res = entries_view(out@);
                        if tags_named(doc@) {
                            crate::ext::lemma_entries_tags_named(es);
                            crate::ext::lemma_entries_tags_named(res);
                            assert forall|j: int| 0 <= j < res.len() implies tags_named(#[trigger] res[j].0)
                                && tags_named(res[j].1) by {
                                assert(tags_named(es[j].0) && tags_named(es[j].1));
                            }
                        }
                    }
                    r
                },
                None => doc.copy(),
            }
        },
        _ => doc.copy(),
    }
}

// ---------------------------------------------------------------------------
// Restoring image tags
// ---------------------------------------------------------------------------

/// Where the restored tag of a mapping goes: its `tag` entry, when its
/// `repository` is the image's name.
pub open spec fn restore_override(es: Seq<(YamlView, YamlView)>, image: Seq<char>) -> Option<int> {
    match entry_value(es, "repository"@) {
        Some(r) => if text_of(r) == Some(image) {
            entry_index(es, "tag"@)
        } else {
            None
        },
        None => None,
    }
}

/// A value with the tags of the image restored, depth first.
pub open spec fn tags_restored(v: YamlView, image: Seq<char>, tag: Seq<char>) -> YamlView
    decreases v,
{
    match v {
        YamlView::Mapping(es) => YamlView::Mapping(
            restored_entries(es, image, tag, restore_override(es, image)),
        ),
        YamlView::Sequence(items) => YamlView::Sequence(restored_items(items, image, tag)),
        _ => v,
    }
}

/// Mapping entries with tags restored; the overridden entry gets the tag.
pub open spec fn restored_entries(es: Seq<(YamlView, YamlView)>, image: Seq<char>, tag: Seq<char>, ov: Option<int>) -> Seq<(YamlView, YamlView)>
    decreases es,
{
    if es.len() == 0 {
        Seq::empty()
    } else {
        restored_entries(es.drop_last(), image, tag, ov).push(
            (
                es.last().0,
                if ov == Some(es.len() - 1) {
                    YamlView::Text(tag)
                } else {
                    tags_restored(es.last().1, image, tag)
                },
            ),
        )
    }
}

/// Sequence items with tags restored.
pub open spec fn restored_items(items: Seq<YamlView>, image: Seq<char>, tag: Seq<char>) -> Seq<YamlView>
    decreases items,
{
    if items.len() == 0 {
        Seq::empty()
    } else {
        restored_items(items.drop_last(), image, tag).push(tags_restored(items.last(), image, tag))
    }
}

/// Restores the tags of an image in a value.
fn restore_tags(value: &YamlValue, image: &str, tag: &str) -> (r: YamlValue)
    ensures
        r@ == tags_restored(value@, image@, tag@),
        tags_named(value@) ==> tags_named(r@),
    decreases value,
{
    match value {
        YamlValue::Mapping(entries) => {
            let ghost ev = entries_view(entries@);
            proof {
                lemma_entries_view(entries@);
                lemma_entry_index(ev, "tag"@);
            }
            let mut at: usize = entries.len();
            if let Some(r) = entry_lookup(entries, "repository") {
                if let Some(name) = as_text(r) {
                    if str_eq(name.as_str(), image) {
                        if let Some(i) = entry_position(entries, "tag") {
                            at = i;
                        }
                    }
                }
            }
            let ghost ov = restore_override(ev, image@);
            assert(match ov {
                Some(p) => at == p,
                None => at == entries@.len(),
            });
            let mut out: Vec<(YamlValue, YamlValue)> = Vec::new();
            let mut i: usize = 0;
            while i < entries.len()
                invariant
                    i <= entries@.len(),
                    *value == YamlValue::Mapping(*entries),
                    ev == entries_view(entries@),
                    ev.len() == entries@.len(),
                    forall|k: int| 0 <= k < entries@.len() ==> #[trigger] ev[k] == (
                        entries@[k].0@,
                        entries@[k].1@,
                    ),
                    ov == restore_override(ev, image@),
                    match ov {
                        Some(p) => at == p,
                        None => at == entries@.len(),
                    },
                    entries_view(out@) == restored_entries(ev.take(i as int), image@, tag@, ov),
                    tags_named(value@) ==> entries_tags_named(entries_view(out@)),
                decreases entries@.len() - i,
            {
                assert(ev.take(i + 1).drop_last() =~= ev.take(i as int));
                assert(ev.take(i + 1).last() == ev[i as int]);
                proof {
                    assert(value@ == YamlView::Mapping(ev));
                    if tags_named(value@) {
                        assert(entries_tags_named(ev));
                        lemma_entry_tags(ev, i as int);
                    }
                }
                let k = entries[i].0.copy();
                let v = if i == at {
                    YamlValue::Text(owned(tag))
                } else {
                    proof {
                        assert(decreases_to!(*value => value->Mapping_0));
                        assert(decreases_to!(value->Mapping_0 => value->Mapping_0@));
                        assert(decreases_to!(value->Mapping_0@ => value->Mapping_0@[i as int]));
                        assert(decreases_to!(value->Mapping_0@[i as int] => value->Mapping_0@[i as int].1));
                    }
                    restore_tags(&entries[i].1, image, tag)
                };
                let ghost prev = out@;
                let ghost kv = (k@, v@);
                out.push((k, v));
                assert(out@.drop_last() =~= prev);
                assert(entries_view(out@) == entries_view(prev).push(kv));
                assert(entries_view(prev).push(kv).drop_last() =~= entries_view(prev));
                assert(tags_named(value@) ==> tags_named(kv.0));
                assert(tags_named(value@) ==> tags_named(kv.1));
                i += 1;
            }
            assert(ev.take(i as int) =~= ev);
            YamlValue::Mapping(out)
        },
        YamlValue::Sequence(items) => {
            let ghost iv = items_view(items@);
            proof {
                lemma_items_view(items@);
            }
            let mut out: Vec<YamlValue> = Vec::new();
            let mut i: usize = 0;
            while i < items.len()
                invariant
                    i <= items@.len(),
                    *value == YamlValue::Sequence(*items),
                    iv == items_view(items@),
                    iv.len() == items@.len(),
                    forall|k: int| 0 <= k < items@.len() ==> #[trigger] iv[k] == items@[k]@,
                    items_view(out@) == restored_items(iv.take(i as int), image@, tag@),
                    tags_named(value@) ==> items_tags_named(items_view(out@)),
                decreases items@.len() - i,
            {
                assert(iv.take(i + 1).drop_last() =~= iv.take(i as int));
                assert(iv.take(i + 1).last() == iv[i as int]);
                proof {
                    assert(value@ == YamlView::Sequence(iv));
                    if tags_named(value@) {
                        assert(items_tags_named(iv));
                        lemma_item_tags(iv, i as int);
                    }
                    assert(decreases_to!(*value => value->Sequence_0));
                    assert(decreases_to!(value->Sequence_0 => value->Sequence_0@));
                    assert(decreases_to!(value->Sequence_0@ => value->Sequence_0@[i as int]));
                }
                let x = restore_tags(&items[i], image, tag);
                let ghost prev = out@;
                let ghost xv = x@;
                out.push(x);
                assert(out@.drop_last() =~= prev);
                assert(items_view(out@) == items_view(prev).push(xv));
                assert(items_view(prev).push(xv).drop_last() =~= items_view(prev));
                i += 1;
            }
            assert(iv.take(i as int) =~= iv);
            YamlValue::Sequence(out)
        },
        _ => value.copy(),
    }
}

// ---------------------------------------------------------------------------
// Restoring a file
// ---------------------------------------------------------------------------

/// A document with one recorded change undone: a chart's version is set back
/// in `helmCharts` and `dependencies`, an image's tag wherever it is used.
pub open spec fn change_undone(doc: YamlView, change: FileVersionChangeView) -> YamlView {
    match change.kind {
        VersionChangeKind::HelmChart => restored_chart_doc(
            restored_chart_doc(doc, "helmCharts"@, change.name, change.before),
            "dependencies"@,
            change.name,
            change.before,
        ),
        VersionChangeKind::ContainerImage => tags_restored(doc, change.name, change.before),
    }
}

/// The text of a file after a recorded change is undone: content that is not
/// YAML counts as an empty document, and a failed rendering gives nothing.
pub open spec fn restored_text(content: Seq<char>, change: FileVersionChangeView) -> Seq<char> {
    let doc = match yaml_document(content) {
        Some(d) => d,
        None => YamlView::Null,
    };
    match yaml_rendering(change_undone(doc, change)) {
        Some(t) => t,
        None => Seq::empty(),
    }
}

/// Apply a version change to file content, setting back its earlier value.
pub fn apply_version_change(content: &str, change: &FileVersionChange) -> (r: String)
    ensures
        r@ == restored_text(content@, change@),
{
    let doc = match parse_yaml(content) {
        Ok(d) => d,
        Err(_) => YamlValue::Null,
    };
    let updated = match change.kind {
        VersionChangeKind::HelmChart => {
            let a = restore_chart_doc(&doc, "helmCharts", change.name.as_str(), change.before.as_str());
            restore_chart_doc(&a, "dependencies", change.name.as_str(), change.before.as_str())
        },
        VersionChangeKind::ContainerImage => restore_tags(
            &doc,
            change.name.as_str(),
            change.before.as_str(),
        ),
    };
    match render_yaml(&updated) {
        Some(t) => t,
        None => String::new(),
    }
}

// ---------------------------------------------------------------------------
// The snapshots of a destination
// ---------------------------------------------------------------------------

/// Position of the first snapshot with id `id`.
pub open spec fn snapshot_index(s: Seq<Snapshot>, id: Seq<char>) -> Option<int>
    decreases s.len(),
{
    if s.len() == 0 {
        None
    } else if s[0].id@ == id {
        Some(0)
    } else {
        match snapshot_index(s.drop_first(), id) {
            Some(i) => Some(i + 1),
            None => None,
        }
    }
}

/// Position of the first snapshot with id `id`.
pub fn find_snapshot(file: &SnapshotFile, id: &str) -> (r: Option<usize>)
    ensures
        match r {
            Some(i) => i < file.snapshots@.len() && snapshot_index(file.snapshots@, id@) == Some(
                i as int,
            ),
            None => snapshot_index(file.snapshots@, id@) is None,
        },
{
    let s = &file.snapshots;
    let mut i: usize = 0;
    assert(s@.skip(0) =~= s@);
    while i < s.len()
        invariant
            i <= s@.len(),
            *s == file.snapshots,
            snapshot_index(s@, id@) == match snapshot_index(s@.skip(i as int), id@) {
                Some(j) => Some(j + i),
                None => None,
            },
        decreases s@.len() - i,
    {
        assert(s@.skip(i as int).drop_first() =~= s@.skip(i + 1));
        assert(s@.skip(i as int)[0] == s@[i as int]);
        if str_eq(s[i].id.as_str(), id) {
            return Some(i);
        }
        i += 1;
    }
    None
}

/// Create a new snapshot of a promotion from `source_path` to `dest_path`.
pub fn create(source_path: String, dest_path: String, filters: Vec<String>) -> (r: Result<
    Snapshot,
    crate::error::PromrailError,
>)
    ensures
        r matches Ok(s) && s.source_path == source_path && s.dest_path == dest_path && s.filters
            == filters && s.version_changes@.len() == 0 && s.files_modified@.len() == 0
            && s.status == SnapshotStatus::Applied,
{
    Ok(Snapshot::new(source_path, dest_path, filters))
}

/// The snapshot with id `id`, if any (the first such).
pub fn get<'a>(file: &'a SnapshotFile, id: &str) -> (r: Option<&'a Snapshot>)
    ensures
        match snapshot_index(file.snapshots@, id@) {
            Some(i) => r == Some(&file.snapshots@[i]),
            None => r is None,
        },
{
    match find_snapshot(file, id) {
        Some(i) => Some(&file.snapshots[i]),
        None => None,
    }
}

/// Add a snapshot to the snapshot file.
pub fn add(file: &mut SnapshotFile, snapshot: Snapshot)
    ensures
        final(file).snapshots@ == old(file).snapshots@.push(snapshot),
        final(file).version == old(file).version,
{
    file.snapshots.push(snapshot);
}

/// The snapshots that remain when those with id `id` are deleted.
pub open spec fn without_id(s: Seq<Snapshot>, id: Seq<char>) -> Seq<Snapshot> {
    s.filter(|x: Snapshot| x.id@ != id)
}

/// Delete the snapshots with id `id`; whether any was deleted.
pub fn delete(file: &mut SnapshotFile, id: &str) -> (r: bool)
    ensures
        final(file).snapshots@ == without_id(old(file).snapshots@, id@),
        final(file).version == old(file).version,
        r == (without_id(old(file).snapshots@, id@).len() < old(file).snapshots@.len()),
{
    let ghost s0 = file.snapshots@;
    let initial = file.snapshots.len();
    let mut kept: Vec<Snapshot> = Vec::new();
    let mut old_list: Vec<Snapshot> = Vec::new();
    std::mem::swap(&mut old_list, &mut file.snapshots);
    let mut i: usize = 0;
    assert(s0.take(0).filter(|x: Snapshot| x.id@ != id@) =~= Seq::<Snapshot>::empty());
    while old_list.len() > 0
        invariant
            i + old_list@.len() == s0.len(),
            s0.len() == initial,
            old_list@ == s0.skip(i as int),
            kept@ == s0.take(i as int).filter(|x: Snapshot| x.id@ != id@),
        decreases old_list@.len(),
    {
        let x = old_list.remove(0);
        assert(s0.take(i + 1) =~= s0.take(i as int).push(x));
        proof {
            s0.take(i as int).lemma_filter_push(x, |x: Snapshot| x.id@ != id@);
        }
        if !str_eq(x.id.as_str(), id) {
            kept.push(x);
        }
        i += 1;
        assert(old_list@ =~= s0.skip(i as int));
    }
    assert(s0.take(i as int) =~= s0);
    file.snapshots = kept;
    file.snapshots.len() < initial
}

/// What a rollback does: whether it happened, and the recorded changes to
/// undo, each with its component.
pub struct RollbackPlan {
    pub rolled_back: bool,
    pub restorations: Vec<(String, FileVersionChange)>,
}

/// The recorded changes of a snapshot, each with its component, in order.
pub open spec fn recorded_changes(vc: Seq<(String, Vec<FileVersionChange>)>) -> Seq<(Seq<char>, FileVersionChangeView)>
    decreases vc.len(),
{
    if vc.len() == 0 {
        Seq::empty()
    } else {
        recorded_changes(vc.drop_last()) + vc.last().1.deep_view().map_values(
            |c: FileVersionChangeView| (vc.last().0@, c),
        )
    }
}

/// Restorations as texts.
pub open spec fn restorations_view(r: Seq<(String, FileVersionChange)>) -> Seq<(Seq<char>, FileVersionChangeView)> {
    Seq::new(r.len(), |i: int| (r[i].0@, r[i].1@))
}

/// What rolling back the snapshot `id` does to the snapshots `before`,
/// giving `after` and the plan `plan`: a snapshot that is found and not yet
/// rolled back is marked rolled back (everything else kept) and its
/// recorded changes are handed out to be undone; otherwise nothing changes
/// and nothing is handed out.
pub open spec fn rollback_effect(before: Seq<Snapshot>, after: Seq<Snapshot>, id: Seq<char>, plan: RollbackPlan) -> bool {
    match snapshot_index(before, id) {
        None => !plan.rolled_back && plan.restorations@.len() == 0 && after == before,
        Some(i) => if before[i].status == SnapshotStatus::RolledBack {
            !plan.rolled_back && plan.restorations@.len() == 0 && after == before
        } else {
            &&& plan.rolled_back
            &&& restorations_view(plan.restorations@) == recorded_changes(before[i].version_changes@)
            &&& after.len() == before.len()
            &&& forall|j: int| 0 <= j < before.len() && j != i ==> after[j] == before[j]
            &&& after[i].status == SnapshotStatus::RolledBack
            &&& after[i].id == before[i].id
            &&& after[i].version_changes == before[i].version_changes
            &&& after[i].files_modified == before[i].files_modified
        },
    }
}

/// Roll back the snapshot with id `id`: a snapshot that is found and not yet
/// rolled back is marked rolled back, and its recorded changes are handed
/// out to be undone.
pub fn rollback(file: &mut SnapshotFile, id: &str) -> (r: RollbackPlan)
    ensures
        rollback_effect(old(file).snapshots@, final(file).snapshots@, id@, r),
        final(file).version == old(file).version,
{
    let none = RollbackPlan { rolled_back: false, restorations: Vec::new() };
    match find_snapshot(file, id) {
        None => none,
        Some(i) => {
            if file.snapshots[i].status == SnapshotStatus::RolledBack {
                return none;
            }
            let vc = &file.snapshots[i].version_changes;
            let mut restorations: Vec<(String, FileVersionChange)> = Vec::new();
            let mut k: usize = 0;
            while k < vc.len()
                invariant
                    k <= vc@.len(),
                    restorations_view(restorations@) == recorded_changes(vc@.take(k as int)),
                decreases vc@.len() - k,
            {
                assert(vc@.take(k + 1).drop_last() =~= vc@.take(k as int));
                assert(vc@.take(k + 1).last() == vc@[k as int]);
                let ghost start = restorations_view(restorations@);
                let list = &vc[k].1;
                let mut m: usize = 0;
                while m < list.len()
                    invariant
                        m <= list@.len(),
                        k < vc@.len(),
                        *list == vc@[k as int].1,
                        restorations_view(restorations@) == start + list.deep_view().take(
                            m as int,
                        ).map_values(|c: FileVersionChangeView| (vc@[k as int].0@, c)),
                    decreases list@.len() - m,
                {
                    let c = FileVersionChange {
                        file: list[m].file.clone(),
                        kind: list[m].kind,
                        name: list[m].name.clone(),
                        before: list[m].before.clone(),
                        after: list[m].after.clone(),
                    };
                    let ghost prev = restorations@;
                    restorations.push((vc[k].0.clone(), c));
                    assert(restorations_view(restorations@) =~= restorations_view(prev).push(
                        (vc@[k as int].0@, list@[m as int]@),
                    ));
                    m += 1;
                    assert(list.deep_view().take(m as int) =~= list.deep_view().take(
                        m - 1,
                    ).push(list@[m - 1]@));
                    assert(restorations_view(restorations@) =~= start + list.deep_view().take(
                        m as int,
                    ).map_values(|c: FileVersionChangeView| (vc@[k as int].0@, c)));
                }
                assert(list.deep_view().take(m as int) =~= list.deep_view());
                k += 1;
            }
            assert(vc@.take(k as int) =~= vc@);
            let mut snap = file.snapshots.remove(i);
            snap.status = SnapshotStatus::RolledBack;
            file.snapshots.insert(i, snap);
            RollbackPlan { rolled_back: true, restorations }
        },
    }
}

} // verus!
