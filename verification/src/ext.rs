//! Calls into `std` functions that vstd does not specify and into outside
//! crates. Each item here is trusted: its contract is believed, not proved.
use vstd::prelude::*;
use crate::yaml::{YamlValue, YamlView};
use crate::files::selector::{pattern_bytes, GLOB_SET_LIMIT};
use crate::text::{all_ascii, ascii_lower, views};

verus! {

/// `serde_yaml`'s document value, carried through the YAML wrappers below.
#[verifier::external_type_specification]
#[verifier::external_body]
pub struct ExSerdeYamlValue(serde_yaml::Value);

/// What `serde_yaml::from_str::<serde_yaml::Value>` gives for a text, as a
/// YAML view: `None` when the text is not a YAML document.
pub uninterp spec fn yaml_document(content: Seq<char>) -> Option<YamlView>;

/// What `serde_yaml::to_string` gives for a document: `None` when it fails.
pub uninterp spec fn yaml_rendering(doc: YamlView) -> Option<Seq<char>>;

/// Every tag in `v` has a name. `serde_yaml` writes a tag with its leading
/// `!`, so a parsed document has this property; `serde_yaml::value::Tag::new`
/// panics on an empty name.
pub open spec fn tags_named(v: YamlView) -> bool
    decreases v,
{
    match v {
        YamlView::Tagged(t, inner) => t.len() > 0 && tags_named(*inner),
        YamlView::Sequence(items) => items_tags_named(items),
        YamlView::Mapping(entries) => entries_tags_named(entries),
        _ => true,
    }
}

/// Every item has named tags.
pub open spec fn items_tags_named(items: Seq<YamlView>) -> bool
    decreases items,
{
    if items.len() == 0 {
        true
    } else {
        items_tags_named(items.drop_last()) && tags_named(items.last())
    }
}

/// Every key and value has named tags.
pub open spec fn entries_tags_named(entries: Seq<(YamlView, YamlView)>) -> bool
    decreases entries,
{
    if entries.len() == 0 {
        true
    } else {
        entries_tags_named(entries.drop_last()) && tags_named(entries.last().0) && tags_named(
            entries.last().1,
        )
    }
}

/// Items have named tags exactly when each one has.
pub proof fn lemma_items_tags_named(items: Seq<YamlView>)
    ensures
        items_tags_named(items) <==> forall|i: int|
            0 <= i < items.len() ==> #[trigger] tags_named(items[i]),
    decreases items.len(),
{
    if items.len() > 0 {
        let d = items.drop_last();
        lemma_items_tags_named(d);
        if forall|i: int| 0 <= i < items.len() ==> #[trigger] tags_named(items[i]) {
            assert forall|i: int| 0 <= i < d.len() implies #[trigger] tags_named(d[i]) by {
                assert(d[i] == items[i]);
            }
            assert(tags_named(items[items.len() - 1]));
        }
        if items_tags_named(items) {
            assert forall|i: int| 0 <= i < items.len() implies #[trigger] tags_named(items[i]) by {
                if i < items.len() - 1 {
                    assert(d[i] == items[i]);
                }
            }
        }
    }
}

/// Entries have named tags exactly when each key and value has.
#[verifier::spinoff_prover]
pub proof fn lemma_entries_tags_named(entries: Seq<(YamlView, YamlView)>)
    ensures
        entries_tags_named(entries) <==> forall|i: int|
            0 <= i < entries.len() ==> tags_named(#[trigger] entries[i].0) && tags_named(
                entries[i].1,
            ),
    decreases entries.len(),
{
    if entries.len() > 0 {
        let d = entries.drop_last();
        lemma_entries_tags_named(d);
        if forall|i: int|
            0 <= i < entries.len() ==> tags_named(#[trigger] entries[i].0) && tags_named(
                entries[i].1,
            ) {
            assert forall|i: int| 0 <= i < d.len() implies tags_named(#[trigger] d[i].0)
                && tags_named(d[i].1) by {
                assert(d[i] == entries[i]);
            }
            assert(tags_named(entries[entries.len() - 1].0));
        }
        if entries_tags_named(entries) {
            assert forall|i: int| 0 <= i < entries.len() implies tags_named(
                #[trigger] entries[i].0,
            ) && tags_named(entries[i].1) by {
                assert(entries_tags_named(d));
                if i < entries.len() - 1 {
                    assert(d[i] == entries[i]);
                    assert(tags_named(d[i].0) && tags_named(d[i].1));
                } else {
                    assert(entries.last() == entries[i]);
                }
            }
        }
    }
}

/// A document that JSON can hold as it is: no tags anywhere, and every
/// mapping key is a text.
pub open spec fn json_shaped(v: YamlView) -> bool
    decreases v,
{
    match v {
        YamlView::Tagged(_, _) => false,
        YamlView::Sequence(items) => items_json_shaped(items),
        YamlView::Mapping(entries) => entries_json_shaped(entries),
        _ => true,
    }
}

/// Every item is JSON-shaped.
pub open spec fn items_json_shaped(items: Seq<YamlView>) -> bool
    decreases items,
{
    if items.len() == 0 {
        true
    } else {
        items_json_shaped(items.drop_last()) && json_shaped(items.last())
    }
}

/// Every key is a text and every value JSON-shaped.
pub open spec fn entries_json_shaped(entries: Seq<(YamlView, YamlView)>) -> bool
    decreases entries,
{
    if entries.len() == 0 {
        true
    } else {
        entries_json_shaped(entries.drop_last()) && entries.last().0 is Text && json_shaped(
            entries.last().1,
        )
    }
}

/// Items are JSON-shaped exactly when each one is.
pub proof fn lemma_items_json_shaped(items: Seq<YamlView>)
    ensures
        items_json_shaped(items) <==> forall|i: int| 0 <= i < items.len() ==> #[trigger] json_shaped(items[i]),
    decreases items.len(),
{
    if items.len() > 0 {
        let d = items.drop_last();
        lemma_items_json_shaped(d);
        if forall|i: int| 0 <= i < items.len() ==> #[trigger] json_shaped(items[i]) {
            assert forall|i: int| 0 <= i < d.len() implies #[trigger] json_shaped(d[i]) by {
                assert(d[i] == items[i]);
            }
            assert(json_shaped(items[items.len() - 1]));
        }
        if items_json_shaped(items) {
            assert forall|i: int| 0 <= i < items.len() implies #[trigger] json_shaped(items[i]) by {
                if i < items.len() - 1 {
                    assert(d[i] == items[i]);
                }
            }
        }
    }
}

/// Entries are JSON-shaped exactly when each key is a text and each value
/// JSON-shaped.
pub proof fn lemma_entries_json_shaped(entries: Seq<(YamlView, YamlView)>)
    ensures
        entries_json_shaped(entries) <==> forall|i: int|
            0 <= i < entries.len() ==> (#[trigger] entries[i]).0 is Text && json_shaped(entries[i].1),
    decreases entries.len(),
{
    if entries.len() > 0 {
        lemma_entries_json_shaped(entries.drop_last());
        assert forall|i: int| 0 <= i < entries.len() - 1 implies entries.drop_last()[i] == entries[i] by {}
        assert(entries.last() == entries[entries.len() - 1]);
    }
}

/// What `str::to_lowercase` returns: the Unicode lower-case mapping.
pub uninterp spec fn lowercase(s: Seq<char>) -> Seq<char>;

/// What `glob_match::glob_match(glob, path)` returns.
pub uninterp spec fn glob_matches(glob: Seq<char>, path: Seq<char>) -> bool;

/// Whether `globset` builds one set of the patterns: `Glob::new` parses
/// each of them and `GlobSet::new` of them all builds, which compiles their
/// regexes together.
pub uninterp spec fn glob_list_valid(patterns: Seq<Seq<char>>) -> bool;

/// Whether the glob `pattern`, as `globset` compiles it, matches `path`.
pub uninterp spec fn glob_set_matches(pattern: Seq<char>, path: Seq<char>) -> bool;

/// What compiling `pattern` with `regex::Regex::new` and matching `text`
/// gives: `None` when the pattern does not compile.
pub uninterp spec fn regex_outcome(pattern: Seq<char>, text: Seq<char>) -> Option<bool>;

/// What `std`'s `DefaultHasher::new()` produces for a `str`.
pub uninterp spec fn default_hash_of_str(s: Seq<char>) -> u64;

/// What `std`'s `DefaultHasher::new()` produces for a byte slice.
pub uninterp spec fn default_hash_of_bytes(b: Seq<u8>) -> u64;

/// Calls `str::to_lowercase`; the result is named `lowercase`. For ASCII
/// text the Unicode lower-case mapping that the documentation names turns
/// `A` to `Z` into `a` to `z` and leaves every other character as it is.
#[verifier::external_body]
pub(crate) fn to_lowercase(s: &str) -> (r: String)
    ensures
        r@ == lowercase(s@),
        all_ascii(s@) ==> r@ == s@.map_values(|c: char| ascii_lower(c)),
{
    s.to_lowercase()
}

/// Calls `glob_match::glob_match`; the crate's matcher never panics (it
/// refuses patterns nested more than ten braces deep by returning `false`).
#[verifier::external_body]
pub(crate) fn glob_match(glob: &str, path: &str) -> (r: bool)
    ensures
        r == glob_matches(glob@, path@),
{
    glob_match::glob_match(glob, path)
}

/// Builds one `globset::GlobSet` of the patterns (`Glob::new` on each, then
/// `GlobSet::new`): `None` when that succeeds, otherwise the message of the
/// first error, whose text is left unsaid. The patterns are bounded far
/// below the size at which the set's `aho-corasick` automata would fail.
#[verifier::external_body]
pub(crate) fn glob_list_error(patterns: &Vec<String>) -> (r: Option<String>)
    requires
        pattern_bytes(views(patterns@)) < GLOB_SET_LIMIT,
    ensures
        r is None <==> glob_list_valid(views(patterns@)),
{
    match patterns.iter().map(|p| globset::Glob::new(p)).collect::<Result<Vec<_>, _>>() {
        Ok(globs) => globset::GlobSet::new(globs).err().map(|err| err.to_string()),
        Err(err) => Some(err.to_string()),
    }
}

/// Builds the `globset::GlobSet` of patterns that it accepts and asks
/// `is_match(path)`, which is true when any glob of the set matches. The
/// builds cannot fail on such patterns; `false` stands for that case only
/// to keep the call free of panics.
#[verifier::external_body]
pub(crate) fn glob_list_is_match(patterns: &Vec<String>, path: &str) -> (r: bool)
    requires
        glob_list_valid(views(patterns@)),
        pattern_bytes(views(patterns@)) < GLOB_SET_LIMIT,
    ensures
        r == (exists|i: int| 0 <= i < patterns@.len() && glob_set_matches(#[trigger] patterns@[i]@, path@)),
{
    match patterns.iter().map(|p| globset::Glob::new(p)).collect::<Result<Vec<_>, _>>() {
        Ok(globs) => globset::GlobSet::new(globs).map(|set| set.is_match(path)).unwrap_or(false),
        Err(_) => false,
    }
}

/// Compiles `pattern` with `regex::Regex::new` and, when that succeeds, asks
/// `is_match(text)`.
#[verifier::external_body]
pub(crate) fn regex_match(pattern: &str, text: &str) -> (r: Option<bool>)
    ensures
        r == regex_outcome(pattern@, text@),
{
    regex::Regex::new(pattern).ok().map(|re| re.is_match(text))
}

/// The current UTC time formatted as RFC 3339 by the `time` crate (empty if
/// formatting fails). Nothing is promised of the text: it depends on the clock.
#[verifier::external_body]
pub(crate) fn now_rfc3339() -> (r: String) {
    time::OffsetDateTime::now_utc().format(&time::format_description::well_known::Rfc3339)
        .unwrap_or_default()
}

/// The current UTC time as `[year][month][day][hour][minute][second]`,
/// formatted by the `time` crate. Nothing is promised: it depends on the clock.
#[verifier::external_body]
pub(crate) fn now_compact_timestamp() -> (r: String) {
    time::format_description::parse("[year][month][day][hour][minute][second]").ok()
        .and_then(|fmt| time::OffsetDateTime::now_utc().format(&fmt).ok()).unwrap_or_default()
}

/// The home directory that `dirs::home_dir` reports, displayed as text.
/// Nothing is promised: it depends on the environment.
#[verifier::external_body]
pub(crate) fn home_dir() -> (r: Option<String>) {
    dirs::home_dir().map(|p| p.display().to_string())
}

/// Hashes a `str` with `std`'s `DefaultHasher::new()` (fixed keys, so the
/// value depends on the text alone).
#[verifier::external_body]
pub(crate) fn hash_str(s: &str) -> (r: u64)
    ensures
        r == default_hash_of_str(s@),
{
    std::hash::BuildHasher::hash_one(
        &std::hash::BuildHasherDefault::<std::collections::hash_map::DefaultHasher>::default(),
        s,
    )
}

/// Hashes a byte slice with `std`'s `DefaultHasher::new()` (fixed keys, so
/// the value depends on the bytes alone).
#[verifier::external_body]
pub(crate) fn hash_bytes(b: &[u8]) -> (r: u64)
    ensures
        r == default_hash_of_bytes(b@),
{
    std::hash::BuildHasher::hash_one(
        &std::hash::BuildHasherDefault::<std::collections::hash_map::DefaultHasher>::default(),
        b,
    )
}

/// An item of items with named tags has named tags.
pub proof fn lemma_item_tags(items: Seq<YamlView>, i: int)
    requires
        items_tags_named(items),
        0 <= i < items.len(),
    ensures
        tags_named(items[i]),
{
    lemma_items_tags_named(items);
}

/// A key and value of entries with named tags have named tags.
pub proof fn lemma_entry_tags(entries: Seq<(YamlView, YamlView)>, i: int)
    requires
        entries_tags_named(entries),
        0 <= i < entries.len(),
    ensures
        tags_named(entries[i].0),
        tags_named(entries[i].1),
{
    lemma_entries_tags_named(entries);
    assert(tags_named(entries[i].0) && tags_named(entries[i].1));
}

/// Converts a `serde_yaml` value, variant for variant: numbers by their
/// `Display` text, tags by their `Display` text (which starts with `!`).
#[verifier::external_body]
fn yaml_from_value(v: &serde_yaml::Value) -> YamlValue {
    match v {
        serde_yaml::Value::Null => YamlValue::Null,
        serde_yaml::Value::Bool(b) => YamlValue::Bool(*b),
        serde_yaml::Value::Number(n) => YamlValue::Number(n.to_string()),
        serde_yaml::Value::String(s) => YamlValue::Text(s.clone()),
        serde_yaml::Value::Sequence(items) => YamlValue::Sequence(items.iter().map(yaml_from_value).collect()),
        serde_yaml::Value::Mapping(m) => YamlValue::Mapping(m.iter().map(|(k, x)| (yaml_from_value(k), yaml_from_value(x))).collect()),
        serde_yaml::Value::Tagged(t) => YamlValue::Tagged(t.tag.to_string(), Box::new(yaml_from_value(&t.value))),
    }
}

/// Converts back to a `serde_yaml` value, variant for variant; a number's
/// text is read back with `serde_yaml::Number`'s `FromStr`, and kept as a
/// string if that refuses it.
#[verifier::external_body]
fn value_from_yaml(v: &YamlValue) -> serde_yaml::Value
    requires
        tags_named(v@),
{
    match v {
        YamlValue::Null => serde_yaml::Value::Null,
        YamlValue::Bool(b) => serde_yaml::Value::Bool(*b),
        YamlValue::Number(n) => yaml_number(n),
        YamlValue::Text(s) => serde_yaml::Value::String(s.clone()),
        YamlValue::Sequence(items) => serde_yaml::Value::Sequence(items.iter().map(value_from_yaml).collect()),
        YamlValue::Mapping(m) => serde_yaml::Value::Mapping(m.iter().map(|(k, x)| (value_from_yaml(k), value_from_yaml(x))).collect()),
        YamlValue::Tagged(t, x) => yaml_tagged(t, x),
    }
}

/// A number's text read back with `serde_yaml::Number`'s `FromStr`, kept
/// as a string if that refuses it.
#[verifier::external_body]
fn yaml_number(n: &String) -> serde_yaml::Value {
    n.parse().map(serde_yaml::Value::Number).unwrap_or_else(|_| serde_yaml::Value::String(n.clone()))
}

/// A tagged value, its tag made with `serde_yaml::value::Tag::new`, which
/// panics on an empty tag.
#[verifier::external_body]
fn yaml_tagged(t: &String, x: &YamlValue) -> serde_yaml::Value
    requires
        t@.len() > 0,
        tags_named(x@),
{
    serde_yaml::Value::Tagged(Box::new(serde_yaml::value::TaggedValue { tag: serde_yaml::value::Tag::new(t.clone()), value: value_from_yaml(x) }))
}

/// Parses `content` with `serde_yaml::from_str::<serde_yaml::Value>`; the
/// result is named `yaml_document`, and tags in it have names. On failure
/// the error's message is returned; its text is left unsaid.
#[verifier::external_body]
pub(crate) fn parse_yaml(content: &str) -> (r: Result<YamlValue, String>)
    ensures
        match r {
            Ok(d) => yaml_document(content@) == Some(d@) && tags_named(d@),
            Err(_) => yaml_document(content@) is None,
        },
{
    serde_yaml::from_str::<serde_yaml::Value>(content).map(|v| yaml_from_value(&v)).map_err(|e| e.to_string())
}

/// Writes `doc` with `serde_yaml::to_string`; the result is named
/// `yaml_rendering`.
#[verifier::external_body]
pub(crate) fn render_yaml(doc: &YamlValue) -> (r: Option<String>)
    requires
        tags_named(doc@),
    ensures
        r matches Some(s) ==> yaml_rendering(doc@) == Some(s@),
        r is None ==> yaml_rendering(doc@) is None,
{
    serde_yaml::to_string(&value_from_yaml(doc)).ok()
}


/// `serde_json`'s value, carried through the JSON wrappers below.
#[verifier::external_type_specification]
#[verifier::external_body]
pub struct ExSerdeJsonValue(serde_json::Value);

/// What `serde_json::from_str::<serde_json::Value>` gives for a text, as a
/// document view (objects as mappings with text keys, arrays as
/// sequences): `None` when the text is not JSON.
pub uninterp spec fn json_document(content: Seq<char>) -> Option<YamlView>;

/// What `serde_json::to_string_pretty` writes for a JSON-shaped document.
pub uninterp spec fn json_rendering(doc: YamlView) -> Seq<char>;

/// Converts a `serde_json` value, variant for variant: numbers by their
/// `Display` text, objects as mappings with text keys in the map's order.
#[verifier::external_body]
fn doc_from_json(v: &serde_json::Value) -> YamlValue {
    match v {
        serde_json::Value::Null => YamlValue::Null,
        serde_json::Value::Bool(b) => YamlValue::Bool(*b),
        serde_json::Value::Number(n) => YamlValue::Number(n.to_string()),
        serde_json::Value::String(s) => YamlValue::Text(s.clone()),
        serde_json::Value::Array(items) => YamlValue::Sequence(items.iter().map(doc_from_json).collect()),
        serde_json::Value::Object(m) => YamlValue::Mapping(m.iter().map(|(k, x)| (YamlValue::Text(k.clone()), doc_from_json(x))).collect()),
    }
}

/// Converts a JSON-shaped document to a `serde_json` value, variant for
/// variant: a number's text is read back with `serde_json::Number`'s
/// `FromStr` (kept as a string if refused), a mapping becomes an object
/// keyed by its text keys. Tags and other keys do not occur (`requires`);
/// their arms give `Null` and the empty key only to keep the match whole.
#[verifier::external_body]
fn json_from_doc(v: &YamlValue) -> serde_json::Value
    requires
        json_shaped(v@),
{
    match v {
        YamlValue::Null | YamlValue::Tagged(_, _) => serde_json::Value::Null,
        YamlValue::Bool(b) => serde_json::Value::Bool(*b),
        YamlValue::Number(n) => json_number(n),
        YamlValue::Text(s) => serde_json::Value::String(s.clone()),
        YamlValue::Sequence(items) => serde_json::Value::Array(items.iter().map(json_from_doc).collect()),
        YamlValue::Mapping(m) => serde_json::Value::Object(m.iter().map(|(k, x)| (json_key(k), json_from_doc(x))).collect()),
    }
}

/// A number's text read back with `serde_json::Number`'s `FromStr`, kept
/// as a string if that refuses it.
#[verifier::external_body]
fn json_number(n: &String) -> serde_json::Value {
    n.parse().map(serde_json::Value::Number).unwrap_or_else(|_| serde_json::Value::String(n.clone()))
}

/// A text key's text, as a `serde_json` object key.
#[verifier::external_body]
fn json_key(k: &YamlValue) -> String
    requires
        k is Text,
{
    match k {
        YamlValue::Text(t) => t.clone(),
        _ => String::new(),
    }
}

/// Parses `content` with `serde_json::from_str::<serde_json::Value>`; the
/// result is named `json_document`, holds no tags and keys its mappings by
/// texts (a JSON object's keys are strings). On failure the
/// error's message is returned; its text is left unsaid.
#[verifier::external_body]
pub(crate) fn parse_json(content: &str) -> (r: Result<YamlValue, String>)
    ensures
        match r {
            Ok(d) => json_document(content@) == Some(d@) && tags_named(d@) && json_shaped(d@),
            Err(_) => json_document(content@) is None,
        },
{
    serde_json::from_str::<serde_json::Value>(content).map(|v| doc_from_json(&v)).map_err(|e| e.to_string())
}

/// Writes `doc` with `serde_json::to_string_pretty`, which cannot fail on a
/// `serde_json::Value` (its object keys are strings); the result is named
/// `json_rendering`.
#[verifier::external_body]
pub(crate) fn render_json_pretty(doc: &YamlValue) -> (r: String)
    requires
        json_shaped(doc@),
    ensures
        r@ == json_rendering(doc@),
{
    serde_json::to_string_pretty(&json_from_doc(doc)).unwrap_or_default()
}

} // verus!
