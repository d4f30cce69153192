//! A model of YAML documents, as plain values, with the lookups that the
//! version tooling makes into them.
use vstd::prelude::*;
use crate::text::str_eq;

verus! {

/// A YAML value. Numbers keep the text they are written with; mappings keep
/// their entries in document order.
pub enum YamlValue {
    Null,
    Bool(bool),
    Number(String),
    Text(String),
    Sequence(Vec<YamlValue>),
    Mapping(Vec<(YamlValue, YamlValue)>),
    Tagged(String, Box<YamlValue>),
}

/// A YAML value as a mathematical value.
pub enum YamlView {
    Null,
    Bool(bool),
    Number(Seq<char>),
    Text(Seq<char>),
    Sequence(Seq<YamlView>),
    Mapping(Seq<(YamlView, YamlView)>),
    Tagged(Seq<char>, Box<YamlView>),
}

/// The view of a YAML value.
pub open spec fn yaml_view(v: YamlValue) -> YamlView
    decreases v,
{
    match v {
        YamlValue::Null => YamlView::Null,
        YamlValue::Bool(b) => YamlView::Bool(b),
        YamlValue::Number(n) => YamlView::Number(n@),
        YamlValue::Text(s) => YamlView::Text(s@),
        YamlValue::Sequence(items) => YamlView::Sequence(items_view(items@)),
        YamlValue::Mapping(entries) => YamlView::Mapping(entries_view(entries@)),
        YamlValue::Tagged(t, inner) => YamlView::Tagged(t@, Box::new(yaml_view(*inner))),
    }
}

/// The views of sequence items.
pub open spec fn items_view(items: Seq<YamlValue>) -> Seq<YamlView>
    decreases items,
{
    if items.len() == 0 {
        Seq::empty()
    } else {
        items_view(items.drop_last()).push(yaml_view(items.last()))
    }
}

/// The views of mapping entries.
pub open spec fn entries_view(entries: Seq<(YamlValue, YamlValue)>) -> Seq<(YamlView, YamlView)>
    decreases entries,
{
    if entries.len() == 0 {
        Seq::empty()
    } else {
        entries_view(entries.drop_last()).push(
            (yaml_view(entries.last().0), yaml_view(entries.last().1)),
        )
    }
}

impl View for YamlValue {
    type V = YamlView;

    open spec fn view(&self) -> YamlView {
        yaml_view(*self)
    }
}

/// The views of sequence items, item by item.
pub proof fn lemma_items_view(items: Seq<YamlValue>)
    ensures
        items_view(items).len() == items.len(),
        forall|i: int| 0 <= i < items.len() ==> #[trigger] items_view(items)[i] == yaml_view(items[i]),
    decreases items.len(),
{
    if items.len() > 0 {
        lemma_items_view(items.drop_last());
        assert forall|i: int| 0 <= i < items.len() implies #[trigger] items_view(items)[i]
            == yaml_view(items[i]) by {
            if i < items.len() - 1 {
                assert(items.drop_last()[i] == items[i]);
            }
        }
    }
}

/// The views of mapping entries, entry by entry.
pub proof fn lemma_entries_view(entries: Seq<(YamlValue, YamlValue)>)
    ensures
        entries_view(entries).len() == entries.len(),
        forall|i: int|
            0 <= i < entries.len() ==> #[trigger] entries_view(entries)[i] == (
                yaml_view(entries[i].0),
                yaml_view(entries[i].1),
            ),
    decreases entries.len(),
{
    if entries.len() > 0 {
        lemma_entries_view(entries.drop_last());
        assert forall|i: int| 0 <= i < entries.len() implies #[trigger] entries_view(entries)[i]
            == (yaml_view(entries[i].0), yaml_view(entries[i].1)) by {
            if i < entries.len() - 1 {
                assert(entries.drop_last()[i] == entries[i]);
            }
        }
    }
}

/// The views of a prefix of the items.
pub proof fn lemma_items_view_take(items: Seq<YamlValue>, k: int)
    requires
        0 <= k <= items.len(),
    ensures
        items_view(items.take(k)) == items_view(items).take(k),
{
    lemma_items_view(items);
    lemma_items_view(items.take(k));
    assert(items_view(items.take(k)) =~= items_view(items).take(k));
}

/// The views of a prefix of the entries.
pub proof fn lemma_entries_view_take(entries: Seq<(YamlValue, YamlValue)>, k: int)
    requires
        0 <= k <= entries.len(),
    ensures
        entries_view(entries.take(k)) == entries_view(entries).take(k),
{
    lemma_entries_view(entries);
    lemma_entries_view(entries.take(k));
    assert(entries_view(entries.take(k)) =~= entries_view(entries).take(k));
}

/// The value under any number of tags.
pub open spec fn untag(v: YamlView) -> YamlView
    decreases v,
{
    match v {
        YamlView::Tagged(_, inner) => untag(*inner),
        _ => v,
    }
}

/// The text of a string value, looking through tags.
pub open spec fn text_of(v: YamlView) -> Option<Seq<char>> {
    match untag(v) {
        YamlView::Text(s) => Some(s),
        _ => None,
    }
}

/// Position of the first entry whose key is the string `key`.
pub open spec fn entry_index(entries: Seq<(YamlView, YamlView)>, key: Seq<char>) -> Option<int>
    decreases entries.len(),
{
    if entries.len() == 0 {
        None
    } else if entries[0].0 == YamlView::Text(key) {
        Some(0)
    } else {
        match entry_index(entries.drop_first(), key) {
            Some(i) => Some(i + 1),
            None => None,
        }
    }
}

/// The value of the first entry whose key is the string `key`.
pub open spec fn entry_value(entries: Seq<(YamlView, YamlView)>, key: Seq<char>) -> Option<YamlView> {
    match entry_index(entries, key) {
        Some(i) => Some(entries[i].1),
        None => None,
    }
}

/// The first-match index lies in the entries and names the key.
pub proof fn lemma_entry_index(entries: Seq<(YamlView, YamlView)>, key: Seq<char>)
    ensures
        entry_index(entries, key) matches Some(i) ==> 0 <= i < entries.len() && entries[i].0
            == YamlView::Text(key) && forall|j: int|
            0 <= j < i ==> entries[j].0 != YamlView::Text(key),
        entry_index(entries, key) is None ==> forall|j: int|
            0 <= j < entries.len() ==> entries[j].0 != YamlView::Text(key),
    decreases entries.len(),
{
    if entries.len() > 0 && entries[0].0 != YamlView::Text(key) {
        lemma_entry_index(entries.drop_first(), key);
        assert forall|j: int| 0 < j < entries.len() implies entries[j] == entries.drop_first()[j
            - 1] by {}
    }
}

/// The value under the string key `key` of a mapping, looking through tags
/// on the mapping.
pub open spec fn get_key(v: YamlView, key: Seq<char>) -> Option<YamlView> {
    match untag(v) {
        YamlView::Mapping(entries) => entry_value(entries, key),
        _ => None,
    }
}

/// The text under the string key `key` of a mapping.
pub open spec fn key_text(v: YamlView, key: Seq<char>) -> Option<Seq<char>> {
    match get_key(v, key) {
        Some(x) => text_of(x),
        None => None,
    }
}

/// The value under any number of tags.
pub fn untag_ref(v: &YamlValue) -> (r: &YamlValue)
    ensures
        r@ == untag(v@),
        !(r is Tagged),
    decreases v,
{
    match v {
        YamlValue::Tagged(_, inner) => untag_ref(inner),
        _ => v,
    }
}

/// The text of a string value, looking through tags.
pub fn as_text(v: &YamlValue) -> (r: Option<&String>)
    ensures
        match r {
            Some(s) => text_of(v@) == Some(s@),
            None => text_of(v@) is None,
        },
{
    match untag_ref(v) {
        YamlValue::Text(s) => Some(s),
        _ => None,
    }
}

/// Whether a key is the string `key`.
pub fn is_text_key(k: &YamlValue, key: &str) -> (r: bool)
    ensures
        r == (k@ == YamlView::Text(key@)),
{
    match k {
        YamlValue::Text(s) => str_eq(s.as_str(), key),
        _ => false,
    }
}

/// Position of the first entry whose key is the string `key`.
pub fn entry_position(entries: &Vec<(YamlValue, YamlValue)>, key: &str) -> (r: Option<usize>)
    ensures
        match r {
            Some(i) => i < entries@.len() && entry_index(entries_view(entries@), key@) == Some(
                i as int,
            ),
            None => entry_index(entries_view(entries@), key@) is None,
        },
{
    let ghost ev = entries_view(entries@);
    proof {
        lemma_entries_view(entries@);
    }
    let mut i: usize = 0;
    assert(ev.skip(0) =~= ev);
    while i < entries.len()
        invariant
            i <= entries@.len(),
            ev == entries_view(entries@),
            ev.len() == entries@.len(),
            forall|k: int| 0 <= k < entries@.len() ==> #[trigger] ev[k] == (
                yaml_view(entries@[k].0),
                yaml_view(entries@[k].1),
            ),
            entry_index(ev, key@) == match entry_index(ev.skip(i as int), key@) {
                Some(j) => Some(j + i),
                None => None,
            },
        decreases entries@.len() - i,
    {
        assert(ev.skip(i as int).drop_first() =~= ev.skip(i + 1));
        assert(ev.skip(i as int)[0] == ev[i as int]);
        if is_text_key(&entries[i].0, key) {
            return Some(i);
        }
        i += 1;
    }
    None
}

/// The value of the first entry whose key is the string `key`.
pub fn entry_lookup<'a>(entries: &'a Vec<(YamlValue, YamlValue)>, key: &str) -> (r: Option<
    &'a YamlValue,
>)
    ensures
        match r {
            Some(x) => entry_value(entries_view(entries@), key@) == Some(x@),
            None => entry_value(entries_view(entries@), key@) is None,
        },
{
    proof {
        lemma_entries_view(entries@);
    }
    match entry_position(entries, key) {
        Some(i) => Some(&entries[i].1),
        None => None,
    }
}

/// The value under the string key `key` of a mapping, looking through tags.
pub fn get<'a>(v: &'a YamlValue, key: &str) -> (r: Option<&'a YamlValue>)
    ensures
        match r {
            Some(x) => get_key(v@, key@) == Some(x@),
            None => get_key(v@, key@) is None,
        },
{
    match untag_ref(v) {
        YamlValue::Mapping(entries) => entry_lookup(entries, key),
        _ => None,
    }
}

/// The text under the string key `key` of a mapping.
pub fn get_text<'a>(v: &'a YamlValue, key: &str) -> (r: Option<&'a String>)
    ensures
        match r {
            Some(s) => key_text(v@, key@) == Some(s@),
            None => key_text(v@, key@) is None,
        },
{
    match get(v, key) {
        Some(x) => as_text(x),
        None => None,
    }
}

/// `entries` with the value of the first entry keyed by the string `key`
/// replaced by `value`; unchanged when no entry has that key.
pub open spec fn with_entry_value(entries: Seq<(YamlView, YamlView)>, key: Seq<char>, value: YamlView) -> Seq<(YamlView, YamlView)> {
    match entry_index(entries, key) {
        Some(i) => entries.update(i, (entries[i].0, value)),
        None => entries,
    }
}

/// `v` with the value under the string key `key` replaced by `value`,
/// looking through tags on the mapping (which are kept).
pub open spec fn with_key_value(v: YamlView, key: Seq<char>, value: YamlView) -> YamlView
    decreases v,
{
    match v {
        YamlView::Tagged(t, inner) => YamlView::Tagged(t, Box::new(with_key_value(*inner, key, value))),
        YamlView::Mapping(entries) => YamlView::Mapping(with_entry_value(entries, key, value)),
        _ => v,
    }
}

impl YamlValue {
    /// A copy of the value.
    pub fn copy(&self) -> (r: Self)
        ensures
            r@ == self@,
        decreases self,
    {
        match self {
            YamlValue::Null => YamlValue::Null,
            YamlValue::Bool(b) => YamlValue::Bool(*b),
            YamlValue::Number(n) => YamlValue::Number(n.clone()),
            YamlValue::Text(s) => YamlValue::Text(s.clone()),
            YamlValue::Tagged(t, inner) => YamlValue::Tagged(t.clone(), Box::new((**inner).copy())),
            YamlValue::Sequence(items) => {
                let mut out: Vec<YamlValue> = Vec::new();
                let mut i: usize = 0;
                while i < items.len()
                    invariant
                        i <= items@.len(),
                        *self == YamlValue::Sequence(*items),
                        items_view(out@) == items_view(items@.take(i as int)),
                    decreases items@.len() - i,
                {
                    proof {
                        assert(decreases_to!(*self => self->Sequence_0));
                        assert(decreases_to!(self->Sequence_0 => self->Sequence_0@));
                        assert(decreases_to!(self->Sequence_0@ => self->Sequence_0@[i as int]));
                    }
                    let c = items[i].copy();
                    let ghost prev = out@;
                    out.push(c);
                    assert(out@.drop_last() =~= prev);
                    assert(items@.take(i + 1).drop_last() =~= items@.take(i as int));
                    i += 1;
                }
                assert(items@.take(i as int) =~= items@);
                YamlValue::Sequence(out)
            },
            YamlValue::Mapping(entries) => {
                let mut out: Vec<(YamlValue, YamlValue)> = Vec::new();
                let mut i: usize = 0;
                while i < entries.len()
                    invariant
                        i <= entries@.len(),
                        *self == YamlValue::Mapping(*entries),
                        entries_view(out@) == entries_view(entries@.take(i as int)),
                    decreases entries@.len() - i,
                {
                    proof {
                        assert(decreases_to!(*self => self->Mapping_0));
                        assert(decreases_to!(self->Mapping_0 => self->Mapping_0@));
                        assert(decreases_to!(self->Mapping_0@ => self->Mapping_0@[i as int]));
                        assert(decreases_to!(self->Mapping_0@[i as int] => self->Mapping_0@[i as int].0));
                        assert(decreases_to!(self->Mapping_0@[i as int] => self->Mapping_0@[i as int].1));
                    }
                    let k = entries[i].0.copy();
                    let v = entries[i].1.copy();
                    let ghost prev = out@;
                    out.push((k, v));
                    assert(out@.drop_last() =~= prev);
                    assert(entries@.take(i + 1).drop_last() =~= entries@.take(i as int));
                    i += 1;
                }
                assert(entries@.take(i as int) =~= entries@);
                YamlValue::Mapping(out)
            },
        }
    }
}

/// Copies of the entries, the value at `at` replaced by `value`.
pub fn entries_with_value(entries: &Vec<(YamlValue, YamlValue)>, at: usize, value: YamlValue) -> (r: Vec<
    (YamlValue, YamlValue),
>)
    requires
        at < entries@.len(),
    ensures
        entries_view(r@) == entries_view(entries@).update(
            at as int,
            (entries_view(entries@)[at as int].0, value@),
        ),
{
    proof {
        lemma_entries_view(entries@);
    }
    let ghost ev = entries_view(entries@);
    let ghost target = ev.update(at as int, (ev[at as int].0, value@));
    let mut out: Vec<(YamlValue, YamlValue)> = Vec::new();
    let mut i: usize = 0;
    let mut value = Some(value);
    let ghost vv = value->0@;
    while i < entries.len()
        invariant
            i <= entries@.len(),
            at < entries@.len(),
            ev == entries_view(entries@),
            ev.len() == entries@.len(),
            forall|k: int| 0 <= k < entries@.len() ==> #[trigger] ev[k] == (
                entries@[k].0@,
                entries@[k].1@,
            ),
            target == ev.update(at as int, (ev[at as int].0, vv)),
            i <= at ==> (value matches Some(x) && x@ == vv),
            entries_view(out@) == target.take(i as int),
        decreases entries@.len() - i,
    {
        proof {
            lemma_entries_view(out@);
        }
        let k = entries[i].0.copy();
        let v = if i == at {
            match value.take() {
                Some(x) => x,
                None => YamlValue::Null,
            }
        } else {
            entries[i].1.copy()
        };
        let ghost prev = out@;
        out.push((k, v));
        assert(out@.drop_last() =~= prev);
        i += 1;
        assert(entries_view(out@) =~= target.take(i as int));
    }
    assert(target.take(i as int) =~= target);
    out
}

/// `v` with the value under the string key `key` replaced by `value`,
/// looking through tags on the mapping.
pub fn set_key_value(v: &YamlValue, key: &str, value: YamlValue) -> (r: YamlValue)
    ensures
        r@ == with_key_value(v@, key@, value@),
    decreases v,
{
    match v {
        YamlValue::Tagged(t, inner) => YamlValue::Tagged(t.clone(), Box::new(set_key_value(inner, key, value))),
        YamlValue::Mapping(entries) => {
            proof {
                lemma_entries_view(entries@);
                lemma_entry_index(entries_view(entries@), key@);
            }
            match entry_position(entries, key) {
                Some(i) => YamlValue::Mapping(entries_with_value(entries, i, value)),
                None => v.copy(),
            }
        },
        _ => v.copy(),
    }
}

} // verus!
