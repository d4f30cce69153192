//! The snapshot log that a multi-source promotion keeps in the destination
//! (`.promotion-snapshots.yaml`): a mapping whose `snapshots` key holds one
//! record per promotion.
use vstd::prelude::*;
use crate::commands::preserve::{
    lemma_untag_named, lemma_value_at_named, lemma_value_set_named, set_value_at_path, step_view,
    steps_view, value_set, PathToken, StepView,
};
use crate::error::PromrailError;
use crate::ext::{
    lemma_entries_tags_named, lemma_items_tags_named, parse_yaml, render_yaml, tags_named,
    yaml_document, yaml_rendering,
};
use crate::text::views;
use crate::yaml::{
    entries_view, entry_index, entry_lookup, entry_value, get, get_key, items_view,
    lemma_entries_view, lemma_entry_index, lemma_items_view, untag, untag_ref, YamlValue, YamlView,
};

verus! {

/// The records of a snapshot log: the items of its `snapshots` sequence,
/// or none.
pub open spec fn recorded_snapshots(doc: YamlView) -> Seq<YamlView> {
    match get_key(doc, "snapshots"@) {
        Some(x) => match untag(x) {
            YamlView::Sequence(items) => items,
            _ => Seq::empty(),
        },
        None => Seq::empty(),
    }
}

/// A list of texts as a YAML sequence.
pub open spec fn text_list(texts: Seq<Seq<char>>) -> YamlView {
    YamlView::Sequence(texts.map_values(|t: Seq<char>| YamlView::Text(t)))
}

/// The record of a new snapshot: its id, creation time and `applied`
/// status, and the review artifact that was applied, if any.
pub open spec fn snapshot_record(id: Seq<char>, created_at: Seq<char>, review: Option<Seq<char>>) -> YamlView {
    let base = seq![
        (YamlView::Text("id"@), YamlView::Text(id)),
        (YamlView::Text("created_at"@), YamlView::Text(created_at)),
        (YamlView::Text("status"@), YamlView::Text("applied"@)),
    ];
    YamlView::Mapping(
        match review {
            Some(p) => base.push((YamlView::Text("review_artifact"@), YamlView::Text(p))),
            None => base,
        },
    )
}

/// A snapshot log holding just these records.
pub open spec fn snapshot_log(records: Seq<YamlView>) -> YamlView {
    YamlView::Mapping(seq![(YamlView::Text("snapshots"@), YamlView::Sequence(records))])
}

/// The records already in a log text, or `None` when it is not YAML; an
/// absent log holds none.
pub open spec fn prior_records(existing: Option<Seq<char>>) -> Option<Seq<YamlView>> {
    match existing {
        None => Some(Seq::empty()),
        Some(t) => match yaml_document(t) {
            Some(d) => Some(recorded_snapshots(d)),
            None => None,
        },
    }
}

/// The records of a document with named tags have named tags.
pub proof fn lemma_records_named(doc: YamlView)
    requires
        tags_named(doc),
    ensures
        forall|i: int| 0 <= i < recorded_snapshots(doc).len() ==> #[trigger] tags_named(recorded_snapshots(doc)[i]),
{
    lemma_value_at_named(doc, seq![StepView::Key("snapshots"@)]);
    assert(crate::commands::preserve::value_at(doc, seq![StepView::Key("snapshots"@)]) == get_key(doc, "snapshots"@)) by {
        reveal_with_fuel(crate::commands::preserve::value_at, 2);
        assert(seq![StepView::Key("snapshots"@)].drop_first() =~= Seq::<StepView>::empty());
    }
    if let Some(x) = get_key(doc, "snapshots"@) {
        lemma_untag_named(x);
        if let YamlView::Sequence(items) = untag(x) {
            lemma_items_tags_named(items);
        }
    }
}

/// A YAML text value.
fn text_value(s: &str) -> (r: YamlValue)
    ensures
        r@ == YamlView::Text(s@),
{
    YamlValue::Text(crate::text::owned(s))
}

/// Texts as a YAML sequence of text values.
fn text_list_value(texts: &Vec<String>) -> (r: YamlValue)
    ensures
        r@ == text_list(views(texts@)),
        tags_named(r@),
{
    let mut items: Vec<YamlValue> = Vec::new();
    let mut i: usize = 0;
    while i < texts.len()
        invariant
            i <= texts@.len(),
            items_view(items@) == views(texts@).take(i as int).map_values(|t: Seq<char>| YamlView::Text(t)),
        decreases texts@.len() - i,
    {
        let ghost prev = items@;
        items.push(YamlValue::Text(texts[i].clone()));
        proof {
            assert(items@.drop_last() =~= prev);
            lemma_items_view(items@);
            lemma_items_view(prev);
            assert(items_view(items@) =~= views(texts@).take(i + 1).map_values(|t: Seq<char>| YamlView::Text(t)));
        }
        i += 1;
    }
    proof {
        assert(views(texts@).take(i as int) =~= views(texts@));
        lemma_items_view(items@);
        lemma_items_tags_named(items_view(items@));
    }
    YamlValue::Sequence(items)
}

/// The log text with a new snapshot record appended to the records already
/// in `existing` (none when there is no log yet). The log is rewritten
/// with only its `snapshots` key.
pub fn add_snapshot_record(existing: Option<&str>, id: &str, created_at: &str, review_artifact: Option<&str>) -> (r: Result<String, PromrailError>)
    ensures
        match prior_records(match existing {
            Some(t) => Some(t@),
            None => None,
        }) {
            None => r matches Err(PromrailError::Yaml(_)),
            Some(records) => {
                let review = match review_artifact {
                    Some(p) => Some(p@),
                    None => None,
                };
                match yaml_rendering(snapshot_log(records.push(snapshot_record(id@, created_at@, review)))) {
                    Some(t) => r matches Ok(out) && out@ == t,
                    None => r matches Err(PromrailError::Yaml(_)),
                }
            },
        },
{
    let mut records: Vec<YamlValue> = Vec::new();
    proof {
        assert(items_view(records@) =~= Seq::<YamlView>::empty());
    }
    match existing {
        Some(t) => {
            let doc = match parse_yaml(t) {
                Ok(d) => d,
                Err(e) => {
                    return Err(PromrailError::Yaml(e));
                },
            };
            proof {
                lemma_records_named(doc@);
            }
            match get(&doc, "snapshots") {
                Some(x) => match untag_ref(x) {
                    YamlValue::Sequence(items) => {
                        records = crate::commands::preserve::copy_items_of(items);
                    },
                    _ => {},
                },
                None => {},
            }
        },
        None => {},
    }
    let mut fields: Vec<(YamlValue, YamlValue)> = Vec::new();
    fields.push((text_value("id"), text_value(id)));
    fields.push((text_value("created_at"), text_value(created_at)));
    fields.push((text_value("status"), text_value("applied")));
    match review_artifact {
        Some(p) => {
            fields.push((text_value("review_artifact"), text_value(p)));
        },
        None => {},
    }
    let ghost review = match review_artifact {
        Some(p) => Some(p@),
        None => None::<Seq<char>>,
    };
    proof {
        lemma_entries_view(fields@);
        assert(entries_view(fields@) =~= (match snapshot_record(id@, created_at@, review) {
            YamlView::Mapping(es) => es,
            _ => Seq::empty(),
        }));
        lemma_entries_tags_named(entries_view(fields@));
    }
    let ghost prior = items_view(records@);
    let ghost prev = records@;
    records.push(YamlValue::Mapping(fields));
    proof {
        assert(records@.drop_last() =~= prev);
        lemma_items_view(records@);
        lemma_items_view(prev);
        assert(items_view(records@) =~= prior.push(snapshot_record(id@, created_at@, review)));
        lemma_items_tags_named(items_view(records@));
    }
    let mut top: Vec<(YamlValue, YamlValue)> = Vec::new();
    top.push((text_value("snapshots"), YamlValue::Sequence(records)));
    proof {
        lemma_entries_view(top@);
        assert(entries_view(top@) =~= seq![(YamlView::Text("snapshots"@), YamlView::Sequence(items_view(records@)))]);
        lemma_entries_tags_named(entries_view(top@));
    }
    let log = YamlValue::Mapping(top);
    proof {
        assert(log@ == snapshot_log(prior.push(snapshot_record(id@, created_at@, review))));
    }
    match render_yaml(&log) {
        Some(t) => Ok(t),
        None => Err(PromrailError::Yaml(crate::text::owned("document cannot be written as YAML"))),
    }
}


/// Whether a record is the snapshot with this id: a mapping whose `id` is
/// exactly this text.
pub open spec fn is_snapshot(item: YamlView, id: Seq<char>) -> bool {
    match untag(item) {
        YamlView::Mapping(es) => entry_value(es, "id"@) == Some(YamlView::Text(id)),
        _ => false,
    }
}

/// Position of the first record of the snapshot with this id.
pub open spec fn snapshot_position(items: Seq<YamlView>, id: Seq<char>) -> Option<int>
    decreases items.len(),
{
    if items.len() == 0 {
        None
    } else if is_snapshot(items[0], id) {
        Some(0)
    } else {
        match snapshot_position(items.drop_first(), id) {
            Some(i) => Some(i + 1),
            None => None,
        }
    }
}

/// The first match lies in the records and is the snapshot; no earlier
/// record is.
pub proof fn lemma_snapshot_position(items: Seq<YamlView>, id: Seq<char>)
    ensures
        snapshot_position(items, id) matches Some(i) ==> 0 <= i < items.len() && is_snapshot(items[i], id)
            && forall|j: int| 0 <= j < i ==> !is_snapshot(#[trigger] items[j], id),
        snapshot_position(items, id) is None ==> forall|j: int| 0 <= j < items.len() ==> !is_snapshot(#[trigger] items[j], id),
    decreases items.len(),
{
    if items.len() > 0 && !is_snapshot(items[0], id) {
        lemma_snapshot_position(items.drop_first(), id);
        assert forall|j: int| 0 < j < items.len() implies items[j] == items.drop_first()[j - 1] by {}
    }
}

/// A record with the files a promotion touched: the modified files always,
/// the deleted and version-updated ones when there are some. A key already
/// there keeps its place and takes the new value.
pub open spec fn record_with_files(
    item: YamlView,
    files: Seq<Seq<char>>,
    deleted: Seq<Seq<char>>,
    updated: Seq<Seq<char>>,
) -> YamlView {
    let a = value_set(item, seq![StepView::Key("files_modified"@)], text_list(files));
    let b = if deleted.len() > 0 {
        value_set(a, seq![StepView::Key("files_deleted"@)], text_list(deleted))
    } else {
        a
    };
    if updated.len() > 0 {
        value_set(b, seq![StepView::Key("version_updated"@)], text_list(updated))
    } else {
        b
    }
}

/// The log with the files recorded on the first record of the snapshot
/// `id`; unchanged when there is none.
pub open spec fn log_with_files(
    doc: YamlView,
    id: Seq<char>,
    files: Seq<Seq<char>>,
    deleted: Seq<Seq<char>>,
    updated: Seq<Seq<char>>,
) -> YamlView {
    let items = recorded_snapshots(doc);
    match snapshot_position(items, id) {
        Some(j) => value_set(
            doc,
            seq![StepView::Key("snapshots"@), StepView::Index(j as usize)],
            record_with_files(items[j], files, deleted, updated),
        ),
        None => doc,
    }
}

/// A path of one key.
fn key_path(k: &str) -> (r: Vec<PathToken>)
    ensures
        steps_view(r@) == seq![StepView::Key(k@)],
{
    let r = vec![PathToken::Key(crate::text::owned(k))];
    assert(steps_view(r@) =~= seq![StepView::Key(k@)]);
    r
}

/// Records on the snapshot `id` of a log text the files a promotion
/// modified, deleted and updated the versions of, and writes the log back.
/// A text that is not YAML, or a log that cannot be written, gives a YAML
/// error.
pub fn record_snapshot_files(
    content: &str,
    snapshot_id: &str,
    files: &Vec<String>,
    deleted: &Vec<String>,
    version_updated: &Vec<String>,
) -> (r: Result<String, PromrailError>)
    ensures
        match yaml_document(content@) {
            None => r matches Err(PromrailError::Yaml(_)),
            Some(d) => match yaml_rendering(log_with_files(d, snapshot_id@, views(files@), views(deleted@), views(version_updated@))) {
                Some(t) => r matches Ok(out) && out@ == t,
                None => r matches Err(PromrailError::Yaml(_)),
            },
        },
{
    let doc = match parse_yaml(content) {
        Ok(d) => d,
        Err(e) => {
            return Err(PromrailError::Yaml(e));
        },
    };
    proof {
        lemma_records_named(doc@);
        lemma_snapshot_position(recorded_snapshots(doc@), snapshot_id@);
    }
    let ghost items = recorded_snapshots(doc@);
    let mut found: Option<(usize, YamlValue)> = None;
    match get(&doc, "snapshots") {
        Some(x) => match untag_ref(x) {
            YamlValue::Sequence(list) => {
                proof {
                    lemma_items_view(list@);
                    assert(items == items_view(list@));
                }
                let mut j: usize = 0;
                let mut done = false;
                while j < list.len() && !done
                    invariant
                        j <= list@.len(),
                        items == items_view(list@),
                        items.len() == list@.len(),
                        forall|k: int| 0 <= k < list@.len() ==> #[trigger] items[k] == list@[k]@,
                        forall|k: int| 0 <= k < j ==> !is_snapshot(#[trigger] items[k], snapshot_id@),
                        done ==> (found matches Some((jj, item)) && jj == j && j < list@.len()
                            && item@ == items[j as int] && is_snapshot(items[j as int], snapshot_id@)),
                        !done ==> found is None,
                    decreases list@.len() - j + (if done { 0int } else { 1int }),
                {
                    let matched = match untag_ref(&list[j]) {
                        YamlValue::Mapping(es) => {
                            proof {
                                lemma_entries_view(es@);
                            }
                            match entry_lookup(es, "id") {
                                Some(YamlValue::Text(t)) => crate::text::str_eq(t.as_str(), snapshot_id),
                                _ => false,
                            }
                        },
                        _ => false,
                    };
                    if matched {
                        found = Some((j, list[j].copy()));
                        done = true;
                    } else {
                        j += 1;
                    }
                }
            },
            _ => {},
        },
        None => {},
    }
    let out_doc = match found {
        Some((j, item)) => {
            proof {
                assert(snapshot_position(items, snapshot_id@) == Some(j as int));
                assert(tags_named(item@));
            }
            let l1 = text_list_value(files);
            proof {
                lemma_value_set_named(item@, seq![StepView::Key("files_modified"@)], l1@);
            }
            let a = set_value_at_path(&item, &key_path("files_modified"), l1);
            let b = if deleted.len() > 0 {
                let l2 = text_list_value(deleted);
                proof {
                    lemma_value_set_named(a@, seq![StepView::Key("files_deleted"@)], l2@);
                }
                set_value_at_path(&a, &key_path("files_deleted"), l2)
            } else {
                a
            };
            let c = if version_updated.len() > 0 {
                let l3 = text_list_value(version_updated);
                proof {
                    lemma_value_set_named(b@, seq![StepView::Key("version_updated"@)], l3@);
                }
                set_value_at_path(&b, &key_path("version_updated"), l3)
            } else {
                b
            };
            let path = vec![PathToken::Key(crate::text::owned("snapshots")), PathToken::Index(j)];
            proof {
                assert(steps_view(path@) =~= seq![StepView::Key("snapshots"@), StepView::Index(j)]);
                lemma_value_set_named(doc@, steps_view(path@), c@);
            }
            set_value_at_path(&doc, &path, c)
        },
        None => doc,
    };
    match render_yaml(&out_doc) {
        Some(t) => Ok(t),
        None => Err(PromrailError::Yaml(crate::text::owned("document cannot be written as YAML"))),
    }
}

} // verus!
