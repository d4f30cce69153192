//! Keeping parts of a destination document when a file is promoted: the
//! dotted paths that a component's preserve rules name are copied from the
//! destination's document into the source's before it is written.
use vstd::prelude::*;
use crate::error::PromrailError;
use crate::ext::{
    entries_tags_named, items_tags_named, lemma_entries_tags_named, lemma_items_tags_named,
    json_document, json_rendering, json_shaped, lemma_entries_json_shaped, lemma_items_json_shaped,
    parse_json, parse_yaml, render_json_pretty, render_yaml, tags_named, yaml_document, yaml_rendering,
};
use crate::text::{parse_u64, parse_u64_chars, split_char, views};
use crate::yaml::{
    entries_view, entry_index, entry_position, entries_with_value, get, get_key, items_view,
    lemma_entries_view, lemma_entry_index, lemma_items_view, untag, untag_ref, YamlValue, YamlView,
};

verus! {

/// One step of a dotted path: a mapping key, or a sequence index.
pub enum PathToken {
    Key(String),
    Index(usize),
}

/// A path step as a mathematical value.
pub enum StepView {
    Key(Seq<char>),
    Index(usize),
}

/// The view of a path step.
pub open spec fn step_view(t: PathToken) -> StepView {
    match t {
        PathToken::Key(k) => StepView::Key(k@),
        PathToken::Index(n) => StepView::Index(n),
    }
}

/// The views of some path steps.
pub open spec fn steps_view(ts: Seq<PathToken>) -> Seq<StepView> {
    ts.map_values(|t: PathToken| step_view(t))
}

/// A segment read as `usize` the way `str::parse::<usize>` reads it.
pub open spec fn parse_index(s: Seq<char>) -> Option<usize> {
    match parse_u64(s) {
        Some(n) => if n <= usize::MAX {
            Some(n as usize)
        } else {
            None
        },
        None => None,
    }
}

/// The step a segment stands for: an index when it reads as one, else a key.
pub open spec fn segment_step(s: Seq<char>) -> StepView {
    match parse_index(s) {
        Some(n) => StepView::Index(n),
        None => StepView::Key(s),
    }
}

/// The steps of the non-empty segments, in order.
pub open spec fn segment_steps(segments: Seq<Seq<char>>) -> Seq<StepView>
    decreases segments.len(),
{
    if segments.len() == 0 {
        Seq::empty()
    } else {
        let rest = segment_steps(segments.drop_last());
        if segments.last().len() == 0 {
            rest
        } else {
            rest.push(segment_step(segments.last()))
        }
    }
}

/// The steps of a dotted path: its non-empty `.`-separated segments.
pub open spec fn path_steps(path: Seq<char>) -> Seq<StepView> {
    segment_steps(split_char(path, '.'))
}

/// Splits a dotted path into steps: empty segments are skipped, a segment
/// that reads as `usize` is an index, any other a key.
pub fn parse_path(path: &str) -> (r: Vec<PathToken>)
    ensures
        steps_view(r@) == path_steps(path@),
{
    let chars = crate::text::chars_of(path);
    let segments = crate::text::split(chars.as_slice(), '.');
    let ghost segs = segments@.map_values(|p: Vec<char>| p@);
    let mut r: Vec<PathToken> = Vec::new();
    let mut i: usize = 0;
    assert(segs.take(0) =~= Seq::<Seq<char>>::empty());
    while i < segments.len()
        invariant
            i <= segments@.len(),
            segs == segments@.map_values(|p: Vec<char>| p@),
            segs == split_char(path@, '.'),
            steps_view(r@) == segment_steps(segs.take(i as int)),
        decreases segments@.len() - i,
    {
        proof {
            assert(segs.take(i + 1).drop_last() =~= segs.take(i as int));
            assert(segs.take(i + 1).last() == segments@[i as int]@);
        }
        let seg = &segments[i];
        if seg.len() > 0 {
            let token = match parse_u64_chars(seg.as_slice()) {
                Some(n) => {
                    if n <= usize::MAX as u64 {
                        PathToken::Index(n as usize)
                    } else {
                        PathToken::Key(crate::text::string_of(seg.as_slice()))
                    }
                },
                None => PathToken::Key(crate::text::string_of(seg.as_slice())),
            };
            let ghost prev = r@;
            r.push(token);
            proof {
                assert(r@.drop_last() =~= prev);
                assert(steps_view(r@) =~= steps_view(prev).push(step_view(token)));
            }
        }
        i += 1;
    }
    assert(segs.take(segments@.len() as int) =~= segs);
    r
}

/// The value a path leads to in a document: keys look through tags on
/// mappings, indexes through tags on sequences.
pub open spec fn value_at(v: YamlView, steps: Seq<StepView>) -> Option<YamlView>
    decreases steps.len(),
{
    if steps.len() == 0 {
        Some(v)
    } else {
        let next = match steps[0] {
            StepView::Key(k) => get_key(v, k),
            StepView::Index(n) => match untag(v) {
                YamlView::Sequence(items) => if n < items.len() {
                    Some(items[n as int])
                } else {
                    None
                },
                _ => None,
            },
        };
        match next {
            Some(x) => value_at(x, steps.drop_first()),
            None => None,
        }
    }
}

/// The value a path leads to in a document.
pub fn get_value_at_path<'a>(value: &'a YamlValue, tokens: &Vec<PathToken>) -> (r: Option<&'a YamlValue>)
    ensures
        match r {
            Some(x) => value_at(value@, steps_view(tokens@)) == Some(x@),
            None => value_at(value@, steps_view(tokens@)) is None,
        },
{
    let ghost steps = steps_view(tokens@);
    let mut current: &YamlValue = value;
    let mut i: usize = 0;
    assert(steps.skip(0) =~= steps);
    while i < tokens.len()
        invariant
            i <= tokens@.len(),
            steps == steps_view(tokens@),
            value_at(value@, steps) == value_at(current@, steps.skip(i as int)),
        decreases tokens@.len() - i,
    {
        proof {
            assert(steps.skip(i as int)[0] == step_view(tokens@[i as int]));
            assert(steps.skip(i as int).drop_first() =~= steps.skip(i + 1));
        }
        match &tokens[i] {
            PathToken::Key(k) => {
                match get(current, k.as_str()) {
                    Some(x) => {
                        current = x;
                    },
                    None => {
                        return None;
                    },
                }
            },
            PathToken::Index(n) => {
                match untag_ref(current) {
                    YamlValue::Sequence(items) => {
                        proof {
                            lemma_items_view(items@);
                        }
                        if *n < items.len() {
                            current = &items[*n];
                        } else {
                            return None;
                        }
                    },
                    _ => {
                        return None;
                    },
                }
            },
        }
        i += 1;
    }
    Some(current)
}

/// `inner` wrapped in the tags that wrap `v`.
pub open spec fn retag(v: YamlView, inner: YamlView) -> YamlView
    decreases v,
{
    match v {
        YamlView::Tagged(t, x) => YamlView::Tagged(t, Box::new(retag(*x, inner))),
        _ => inner,
    }
}

/// `items` extended with nulls so that index `n` exists.
pub open spec fn padded(items: Seq<YamlView>, n: int) -> Seq<YamlView> {
    if n < items.len() {
        items
    } else {
        items + Seq::new((n + 1 - items.len()) as nat, |i: int| YamlView::Null)
    }
}

/// The document with the value at a path replaced by `new`: a value that is
/// not a mapping where a key is wanted becomes an empty mapping, one that
/// is not a sequence where an index is wanted an empty sequence; a missing
/// key is added at the end with a null value, and a short sequence is
/// padded with nulls; tags around a mapping or sequence are kept.
pub open spec fn value_set(v: YamlView, steps: Seq<StepView>, new: YamlView) -> YamlView
    decreases steps.len(),
{
    if steps.len() == 0 {
        new
    } else {
        let rest = steps.drop_first();
        match steps[0] {
            StepView::Key(k) => {
                let base = match untag(v) {
                    YamlView::Mapping(_) => v,
                    _ => YamlView::Mapping(Seq::empty()),
                };
                let es = match untag(base) {
                    YamlView::Mapping(es) => es,
                    _ => Seq::empty(),
                };
                let es2 = match entry_index(es, k) {
                    Some(i) => es.update(i, (es[i].0, value_set(es[i].1, rest, new))),
                    None => es.push((YamlView::Text(k), value_set(YamlView::Null, rest, new))),
                };
                retag(base, YamlView::Mapping(es2))
            },
            StepView::Index(n) => {
                let base = match untag(v) {
                    YamlView::Sequence(_) => v,
                    _ => YamlView::Sequence(Seq::empty()),
                };
                let items = match untag(base) {
                    YamlView::Sequence(items) => items,
                    _ => Seq::empty(),
                };
                let p = padded(items, n as int);
                retag(base, YamlView::Sequence(p.update(n as int, value_set(p[n as int], rest, new))))
            },
        }
    }
}

/// `inner` wrapped in the tags that wrap `v`.
fn retag_value(v: &YamlValue, inner: YamlValue) -> (r: YamlValue)
    ensures
        r@ == retag(v@, inner@),
    decreases v,
{
    match v {
        YamlValue::Tagged(t, x) => YamlValue::Tagged(t.clone(), Box::new(retag_value(x, inner))),
        _ => inner,
    }
}

/// The document with the value at steps `at..` of a path replaced.
fn set_from(v: &YamlValue, tokens: &Vec<PathToken>, at: usize, new: YamlValue) -> (r: YamlValue)
    requires
        at <= tokens@.len(),
    ensures
        r@ == value_set(v@, steps_view(tokens@).skip(at as int), new@),
    decreases tokens@.len() - at,
{
    let ghost steps = steps_view(tokens@).skip(at as int);
    if at == tokens.len() {
        assert(steps.len() == 0);
        return new;
    }
    proof {
        assert(steps[0] == step_view(tokens@[at as int]));
        assert(steps.drop_first() =~= steps_view(tokens@).skip(at + 1));
    }
    match &tokens[at] {
        PathToken::Key(k) => {
            let base = match untag_ref(v) {
                YamlValue::Mapping(_) => v.copy(),
                _ => YamlValue::Mapping(Vec::new()),
            };
            proof {
                assert(entries_view(Seq::<(YamlValue, YamlValue)>::empty()) =~= Seq::<(YamlView, YamlView)>::empty());
            }
            let inner = match untag_ref(&base) {
                YamlValue::Mapping(es) => {
                    proof {
                        lemma_entries_view(es@);
                        lemma_entry_index(entries_view(es@), k@);
                    }
                    match entry_position(es, k.as_str()) {
                        Some(i) => {
                            let child = set_from(&es[i].1, tokens, at + 1, new);
                            YamlValue::Mapping(entries_with_value(es, i, child))
                        },
                        None => {
                            let child = set_from(&YamlValue::Null, tokens, at + 1, new);
                            let mut es2 = copy_entries(es);
                            let ghost prev = es2@;
                            es2.push((YamlValue::Text(k.clone()), child));
                            proof {
                                assert(es2@.drop_last() =~= prev);
                                lemma_entries_view(es2@);
                                lemma_entries_view(prev);
                                assert(entries_view(es2@) =~= entries_view(prev).push(
                                    (YamlView::Text(k@), child@),
                                ));
                            }
                            YamlValue::Mapping(es2)
                        },
                    }
                },
                _ => YamlValue::Mapping(Vec::new()),
            };
            retag_value(&base, inner)
        },
        PathToken::Index(n) => {
            let n = *n;
            let base = match untag_ref(v) {
                YamlValue::Sequence(_) => v.copy(),
                _ => YamlValue::Sequence(Vec::new()),
            };
            proof {
                assert(items_view(Seq::<YamlValue>::empty()) =~= Seq::<YamlView>::empty());
            }
            let inner = match untag_ref(&base) {
                YamlValue::Sequence(items) => {
                    let mut p = copy_items(items);
                    let ghost start = items_view(items@);
                    proof {
                        lemma_items_view(items@);
                        lemma_items_view(p@);
                    }
                    while p.len() <= n
                        invariant
                            start == items_view(items@),
                            items_view(p@).len() == p@.len(),
                            items_view(p@) =~= start + Seq::new((p@.len() - start.len()) as nat, |i: int| YamlView::Null),
                            p@.len() >= start.len(),
                            p@.len() <= n + 1 || p@.len() == start.len(),
                        decreases n + 1 - p@.len(),
                    {
                        let ghost prev = p@;
                        p.push(YamlValue::Null);
                        proof {
                            assert(p@.drop_last() =~= prev);
                            lemma_items_view(p@);
                            lemma_items_view(prev);
                            assert(items_view(p@) =~= items_view(prev).push(YamlView::Null));
                        }
                    }
                    proof {
                        lemma_items_view(p@);
                        assert(items_view(p@) =~= padded(start, n as int));
                    }
                    let child = set_from(&p[n], tokens, at + 1, new);
                    let ghost before = p@;
                    p.set(n, child);
                    proof {
                        lemma_items_view(p@);
                        lemma_items_view(before);
                        assert(items_view(p@) =~= items_view(before).update(n as int, child@));
                    }
                    YamlValue::Sequence(p)
                },
                _ => YamlValue::Sequence(Vec::new()),
            };
            retag_value(&base, inner)
        },
    }
}

/// Copies of some mapping entries.
fn copy_entries(es: &Vec<(YamlValue, YamlValue)>) -> (r: Vec<(YamlValue, YamlValue)>)
    ensures
        entries_view(r@) == entries_view(es@),
{
    let mut r: Vec<(YamlValue, YamlValue)> = Vec::new();
    let mut i: usize = 0;
    proof {
        lemma_entries_view(es@);
    }
    while i < es.len()
        invariant
            i <= es@.len(),
            entries_view(es@).len() == es@.len(),
            forall|k: int| 0 <= k < es@.len() ==> #[trigger] entries_view(es@)[k] == (es@[k].0@, es@[k].1@),
            entries_view(r@) == entries_view(es@).take(i as int),
        decreases es@.len() - i,
    {
        let ghost prev = r@;
        r.push((es[i].0.copy(), es[i].1.copy()));
        proof {
            assert(r@.drop_last() =~= prev);
            lemma_entries_view(r@);
            lemma_entries_view(prev);
            assert(entries_view(r@) =~= entries_view(es@).take(i + 1));
        }
        i += 1;
    }
    assert(entries_view(es@).take(es@.len() as int) =~= entries_view(es@));
    r
}

/// Copies of some sequence items.
pub fn copy_items_of(items: &Vec<YamlValue>) -> (r: Vec<YamlValue>)
    ensures
        items_view(r@) == items_view(items@),
{
    copy_items(items)
}

/// Copies of some sequence items.
fn copy_items(items: &Vec<YamlValue>) -> (r: Vec<YamlValue>)
    ensures
        items_view(r@) == items_view(items@),
{
    let mut r: Vec<YamlValue> = Vec::new();
    let mut i: usize = 0;
    proof {
        lemma_items_view(items@);
    }
    while i < items.len()
        invariant
            i <= items@.len(),
            items_view(items@).len() == items@.len(),
            forall|k: int| 0 <= k < items@.len() ==> #[trigger] items_view(items@)[k] == items@[k]@,
            items_view(r@) == items_view(items@).take(i as int),
        decreases items@.len() - i,
    {
        let ghost prev = r@;
        r.push(items[i].copy());
        proof {
            assert(r@.drop_last() =~= prev);
            lemma_items_view(r@);
            lemma_items_view(prev);
            assert(items_view(r@) =~= items_view(items@).take(i + 1));
        }
        i += 1;
    }
    assert(items_view(items@).take(items@.len() as int) =~= items_view(items@));
    r
}

/// The document with the value at a path replaced by `new_value`.
pub fn set_value_at_path(value: &YamlValue, tokens: &Vec<PathToken>, new_value: YamlValue) -> (r: YamlValue)
    ensures
        r@ == value_set(value@, steps_view(tokens@), new_value@),
{
    assert(steps_view(tokens@).skip(0) =~= steps_view(tokens@));
    set_from(value, tokens, 0, new_value)
}


/// Looking through tags keeps tags named.
pub proof fn lemma_untag_named(v: YamlView)
    requires
        tags_named(v),
    ensures
        tags_named(untag(v)),
    decreases v,
{
    if let YamlView::Tagged(_, x) = v {
        lemma_untag_named(*x);
    }
}

/// Wrapping in named tags keeps tags named.
pub proof fn lemma_retag_named(v: YamlView, inner: YamlView)
    requires
        tags_named(v),
        tags_named(inner),
    ensures
        tags_named(retag(v, inner)),
    decreases v,
{
    if let YamlView::Tagged(_, x) = v {
        lemma_retag_named(*x, inner);
    }
}

/// What a path leads to in a document with named tags has named tags.
pub proof fn lemma_value_at_named(v: YamlView, steps: Seq<StepView>)
    requires
        tags_named(v),
    ensures
        value_at(v, steps) matches Some(x) ==> tags_named(x),
    decreases steps.len(),
{
    if steps.len() > 0 {
        lemma_untag_named(v);
        match steps[0] {
            StepView::Key(k) => {
                if let YamlView::Mapping(es) = untag(v) {
                    lemma_entry_index(es, k);
                    lemma_entries_tags_named(es);
                    if let Some(i) = entry_index(es, k) {
                        assert(tags_named(es[i].1));
                        lemma_value_at_named(es[i].1, steps.drop_first());
                    }
                }
            },
            StepView::Index(n) => {
                if let YamlView::Sequence(items) = untag(v) {
                    lemma_items_tags_named(items);
                    if n < items.len() {
                        assert(tags_named(items[n as int]));
                        lemma_value_at_named(items[n as int], steps.drop_first());
                    }
                }
            },
        }
    }
}

/// Setting a value with named tags in a document with named tags keeps
/// tags named.
pub proof fn lemma_value_set_named(v: YamlView, steps: Seq<StepView>, new: YamlView)
    requires
        tags_named(v),
        tags_named(new),
    ensures
        tags_named(value_set(v, steps, new)),
    decreases steps.len(),
{
    if steps.len() > 0 {
        let rest = steps.drop_first();
        lemma_untag_named(v);
        match steps[0] {
            StepView::Key(k) => {
                let base = match untag(v) {
                    YamlView::Mapping(_) => v,
                    _ => YamlView::Mapping(Seq::empty()),
                };
                assert(tags_named(base)) by {
                    if !(untag(v) is Mapping) {
                        lemma_entries_tags_named(Seq::<(YamlView, YamlView)>::empty());
                    }
                }
                lemma_untag_named(base);
                let es = match untag(base) {
                    YamlView::Mapping(es) => es,
                    _ => Seq::empty(),
                };
                lemma_entries_tags_named(es);
                lemma_entry_index(es, k);
                let es2 = match entry_index(es, k) {
                    Some(i) => es.update(i, (es[i].0, value_set(es[i].1, rest, new))),
                    None => es.push((YamlView::Text(k), value_set(YamlView::Null, rest, new))),
                };
                match entry_index(es, k) {
                    Some(i) => {
                        lemma_value_set_named(es[i].1, rest, new);
                    },
                    None => {
                        lemma_value_set_named(YamlView::Null, rest, new);
                    },
                }
                lemma_entries_tags_named(es2);
                assert(tags_named(YamlView::Mapping(es2)));
                lemma_retag_named(base, YamlView::Mapping(es2));
            },
            StepView::Index(n) => {
                let base = match untag(v) {
                    YamlView::Sequence(_) => v,
                    _ => YamlView::Sequence(Seq::empty()),
                };
                assert(tags_named(base)) by {
                    if !(untag(v) is Sequence) {
                        lemma_items_tags_named(Seq::<YamlView>::empty());
                    }
                }
                lemma_untag_named(base);
                let items = match untag(base) {
                    YamlView::Sequence(items) => items,
                    _ => Seq::empty(),
                };
                lemma_items_tags_named(items);
                let p = padded(items, n as int);
                assert forall|i: int| 0 <= i < p.len() implies #[trigger] tags_named(p[i]) by {
                    if i >= items.len() {
                        assert(p[i] == YamlView::Null);
                    }
                }
                lemma_value_set_named(p[n as int], rest, new);
                let p2 = p.update(n as int, value_set(p[n as int], rest, new));
                lemma_items_tags_named(p2);
                assert(tags_named(YamlView::Sequence(p2)));
                lemma_retag_named(base, YamlView::Sequence(p2));
            },
        }
    }
}

/// What a path leads to in a JSON-shaped document is JSON-shaped.
pub proof fn lemma_value_at_json(v: YamlView, steps: Seq<StepView>)
    requires
        json_shaped(v),
    ensures
        value_at(v, steps) matches Some(x) ==> json_shaped(x),
    decreases steps.len(),
{
    if steps.len() > 0 {
        assert(untag(v) == v);
        match steps[0] {
            StepView::Key(k) => {
                if let YamlView::Mapping(es) = v {
                    lemma_entry_index(es, k);
                    lemma_entries_json_shaped(es);
                    if let Some(i) = entry_index(es, k) {
                        assert(json_shaped(es[i].1));
                        lemma_value_at_json(es[i].1, steps.drop_first());
                    }
                }
            },
            StepView::Index(n) => {
                if let YamlView::Sequence(items) = v {
                    lemma_items_json_shaped(items);
                    if n < items.len() {
                        assert(json_shaped(items[n as int]));
                        lemma_value_at_json(items[n as int], steps.drop_first());
                    }
                }
            },
        }
    }
}

/// Setting a JSON-shaped value in a JSON-shaped document keeps it
/// JSON-shaped: the keys it adds are texts, the padding nulls.
pub proof fn lemma_value_set_json(v: YamlView, steps: Seq<StepView>, new: YamlView)
    requires
        json_shaped(v),
        json_shaped(new),
    ensures
        json_shaped(value_set(v, steps, new)),
    decreases steps.len(),
{
    if steps.len() > 0 {
        let rest = steps.drop_first();
        assert(untag(v) == v);
        match steps[0] {
            StepView::Key(k) => {
                let base = match v {
                    YamlView::Mapping(_) => v,
                    _ => YamlView::Mapping(Seq::empty()),
                };
                let es = match base {
                    YamlView::Mapping(es) => es,
                    _ => Seq::empty(),
                };
                assert(untag(base) == base);
                lemma_entries_json_shaped(es);
                lemma_entry_index(es, k);
                let es2 = match entry_index(es, k) {
                    Some(i) => es.update(i, (es[i].0, value_set(es[i].1, rest, new))),
                    None => es.push((YamlView::Text(k), value_set(YamlView::Null, rest, new))),
                };
                match entry_index(es, k) {
                    Some(i) => {
                        lemma_value_set_json(es[i].1, rest, new);
                    },
                    None => {
                        lemma_value_set_json(YamlView::Null, rest, new);
                    },
                }
                lemma_entries_json_shaped(es2);
                assert(json_shaped(YamlView::Mapping(es2)));
                assert(retag(base, YamlView::Mapping(es2)) == YamlView::Mapping(es2));
            },
            StepView::Index(n) => {
                let base = match v {
                    YamlView::Sequence(_) => v,
                    _ => YamlView::Sequence(Seq::empty()),
                };
                let items = match base {
                    YamlView::Sequence(items) => items,
                    _ => Seq::empty(),
                };
                assert(untag(base) == base);
                lemma_items_json_shaped(items);
                let p = padded(items, n as int);
                assert forall|i: int| 0 <= i < p.len() implies #[trigger] json_shaped(p[i]) by {
                    if i >= items.len() {
                        assert(p[i] == YamlView::Null);
                    }
                }
                lemma_value_set_json(p[n as int], rest, new);
                let p2 = p.update(n as int, value_set(p[n as int], rest, new));
                lemma_items_json_shaped(p2);
                assert(json_shaped(YamlView::Sequence(p2)));
                assert(retag(base, YamlView::Sequence(p2)) == YamlView::Sequence(p2));
            },
        }
    }
}

/// The source document with each path's value taken from the destination
/// document, where the destination has one; paths are applied in order.
pub open spec fn preserved_doc(source: YamlView, dest: YamlView, paths: Seq<Seq<char>>) -> YamlView
    decreases paths.len(),
{
    if paths.len() == 0 {
        source
    } else {
        let prev = preserved_doc(source, dest, paths.drop_last());
        let steps = path_steps(paths.last());
        match value_at(dest, steps) {
            Some(x) => value_set(prev, steps, x),
            None => prev,
        }
    }
}

/// The source text with the destination's values at `paths` kept, both
/// read and written with `serde_yaml`. A text that is not YAML, or a
/// document that cannot be written, gives a YAML error.
pub fn preserve_yaml_with_serde(source_content: &str, dest_content: &str, paths: &Vec<String>) -> (r: Result<String, PromrailError>)
    ensures
        match (yaml_document(source_content@), yaml_document(dest_content@)) {
            (Some(s), Some(d)) => match yaml_rendering(preserved_doc(s, d, views(paths@))) {
                Some(t) => r matches Ok(out) && out@ == t,
                None => r matches Err(PromrailError::Yaml(_)),
            },
            _ => r matches Err(PromrailError::Yaml(_)),
        },
{
    let source_doc = match parse_yaml(source_content) {
        Ok(d) => d,
        Err(e) => {
            return Err(PromrailError::Yaml(e));
        },
    };
    let dest_doc = match parse_yaml(dest_content) {
        Ok(d) => d,
        Err(e) => {
            return Err(PromrailError::Yaml(e));
        },
    };
    let mut doc = source_doc;
    let mut i: usize = 0;
    assert(views(paths@).take(0) =~= Seq::<Seq<char>>::empty());
    while i < paths.len()
        invariant
            i <= paths@.len(),
            tags_named(doc@),
            tags_named(dest_doc@),
            yaml_document(source_content@) == Some(source_doc@),
            doc@ == preserved_doc(source_doc@, dest_doc@, views(paths@).take(i as int)),
        decreases paths@.len() - i,
    {
        let tokens = parse_path(paths[i].as_str());
        proof {
            assert(views(paths@).take(i + 1).drop_last() =~= views(paths@).take(i as int));
            assert(views(paths@).take(i + 1).last() == paths@[i as int]@);
        }
        match get_value_at_path(&dest_doc, &tokens) {
            Some(x) => {
                let value = x.copy();
                proof {
                    lemma_value_at_named(dest_doc@, steps_view(tokens@));
                    lemma_value_set_named(doc@, steps_view(tokens@), value@);
                }
                doc = set_value_at_path(&doc, &tokens, value);
            },
            None => {},
        }
        i += 1;
    }
    assert(views(paths@).take(paths@.len() as int) =~= views(paths@));
    match render_yaml(&doc) {
        Some(t) => Ok(t),
        None => Err(PromrailError::Yaml(crate::text::owned("document cannot be written as YAML"))),
    }
}


/// The extension of a path as `Path::extension` gives it: the part of the
/// file name after its last `.`, unless the name has no `.` other than a
/// leading one.
pub open spec fn extension_of(path: Seq<char>) -> Option<Seq<char>> {
    match crate::paths::file_name_of(path) {
        Some(name) => match crate::text::last_index(name, '.') {
            Some(i) => if i > 0 {
                Some(name.skip(i + 1))
            } else {
                None
            },
            None => None,
        },
        None => None,
    }
}

/// Whether two characters are equal once ASCII upper-case letters are
/// lowered.
pub open spec fn same_char_ignoring_ascii_case(x: char, y: char) -> bool {
    ||| x == y
    ||| ('A' <= x && x <= 'Z' && (y as u32) == (x as u32) + 32)
    ||| ('A' <= y && y <= 'Z' && (x as u32) == (y as u32) + 32)
}

/// Whether two texts are equal when ASCII letters are compared without
/// case.
pub open spec fn same_ignoring_ascii_case(a: Seq<char>, b: Seq<char>) -> bool {
    a.len() == b.len() && forall|i: int| 0 <= i < a.len() ==> same_char_ignoring_ascii_case(#[trigger] a[i], b[i])
}

/// Whether a file is YAML by its extension (`yaml` or `yml`, in any case).
pub open spec fn yaml_extension(path: Seq<char>) -> bool {
    match extension_of(path) {
        Some(e) => same_ignoring_ascii_case(e, "yaml"@) || same_ignoring_ascii_case(e, "yml"@),
        None => false,
    }
}

/// Whether two character slices are equal ignoring ASCII case.
fn chars_eq_ignore_ascii_case(a: &[char], b: &[char]) -> (r: bool)
    ensures
        r == same_ignoring_ascii_case(a@, b@),
{
    if a.len() != b.len() {
        return false;
    }
    let mut i: usize = 0;
    while i < a.len()
        invariant
            i <= a@.len(),
            a@.len() == b@.len(),
            forall|j: int| 0 <= j < i ==> same_char_ignoring_ascii_case(#[trigger] a@[j], b@[j]),
        decreases a@.len() - i,
    {
        let x = a[i] as u32;
        let y = b[i] as u32;
        let same = a[i] == b[i] || ('A' <= a[i] && a[i] <= 'Z' && y == x + 32) || ('A' <= b[i] && b[i] <= 'Z'
            && x == y + 32);
        if !same {
            return false;
        }
        i += 1;
    }
    true
}

/// Whether a file is YAML by its extension (`yaml` or `yml`, in any case).
pub fn is_yaml_file(path: &str) -> (r: bool)
    ensures
        r == yaml_extension(path@),
{
    match crate::paths::file_name(path) {
        Some(name) => {
            let chars = crate::text::chars_of(name.as_str());
            match crate::text::rfind_char(chars.as_slice(), '.') {
                Some(i) => {
                    let n = chars.len();
                    assert(i < n);
                    if i > 0 {
                        let ext = crate::text::slice_of(chars.as_slice(), i + 1, n);
                        proof {
                            assert(ext@ =~= name@.skip(i + 1));
                            reveal_strlit("yaml");
                            reveal_strlit("yml");
                        }
                        let yaml = crate::text::chars_of("yaml");
                        let yml = crate::text::chars_of("yml");
                        chars_eq_ignore_ascii_case(ext.as_slice(), yaml.as_slice())
                            || chars_eq_ignore_ascii_case(ext.as_slice(), yml.as_slice())
                    } else {
                        false
                    }
                },
                None => false,
            }
        },
        None => false,
    }
}

/// The source JSON text with the destination's values at `paths` kept,
/// written pretty with a final newline. A text that is not JSON gives a
/// JSON error.
pub fn preserve_json(source_content: &str, dest_content: &str, paths: &Vec<String>) -> (r: Result<String, PromrailError>)
    ensures
        match (json_document(source_content@), json_document(dest_content@)) {
            (Some(s), Some(d)) => r matches Ok(out) && out@ == json_rendering(preserved_doc(s, d, views(paths@))) + "\n"@,
            _ => r matches Err(PromrailError::Json(_)),
        },
{
    let source_doc = match parse_json(source_content) {
        Ok(d) => d,
        Err(e) => {
            return Err(PromrailError::Json(e));
        },
    };
    let dest_doc = match parse_json(dest_content) {
        Ok(d) => d,
        Err(e) => {
            return Err(PromrailError::Json(e));
        },
    };
    let mut doc = source_doc;
    let mut i: usize = 0;
    assert(views(paths@).take(0) =~= Seq::<Seq<char>>::empty());
    while i < paths.len()
        invariant
            i <= paths@.len(),
            doc@ == preserved_doc(source_doc@, dest_doc@, views(paths@).take(i as int)),
            json_shaped(doc@),
            json_shaped(dest_doc@),
        decreases paths@.len() - i,
    {
        let tokens = parse_path(paths[i].as_str());
        proof {
            lemma_value_at_json(dest_doc@, steps_view(tokens@));
        }
        proof {
            assert(views(paths@).take(i + 1).drop_last() =~= views(paths@).take(i as int));
            assert(views(paths@).take(i + 1).last() == paths@[i as int]@);
        }
        match get_value_at_path(&dest_doc, &tokens) {
            Some(x) => {
                let value = x.copy();
                let ghost before = doc@;
                doc = set_value_at_path(&doc, &tokens, value);
                proof {
                    lemma_value_set_json(before, steps_view(tokens@), value@);
                }
            },
            None => {},
        }
        i += 1;
    }
    assert(views(paths@).take(paths@.len() as int) =~= views(paths@));
    let mut out = render_json_pretty(&doc);
    out.append("\n");
    Ok(out)
}

} // verus!
