//! Maps keyed by strings, held as vectors of `(key, value)` entries.
//!
//! The configuration maps come from YAML mappings, whose keys are unique; a
//! lookup answers with the first entry carrying the key.
use vstd::prelude::*;
use crate::text::str_eq;

verus! {

/// Index of the first entry whose key is `key`.
pub open spec fn key_index<V>(entries: Seq<(String, V)>, key: Seq<char>) -> Option<int>
    decreases entries.len(),
{
    if entries.len() == 0 {
        None
    } else if entries[0].0@ == key {
        Some(0)
    } else {
        match key_index(entries.drop_first(), key) {
            Some(i) => Some(i + 1),
            None => None,
        }
    }
}

/// Whether some entry carries `key`.
pub open spec fn has_key<V>(entries: Seq<(String, V)>, key: Seq<char>) -> bool {
    key_index(entries, key) is Some
}

/// The value of the first entry carrying `key`.
pub open spec fn value_of<V>(entries: Seq<(String, V)>, key: Seq<char>) -> Option<V> {
    match key_index(entries, key) {
        Some(i) => Some(entries[i].1),
        None => None,
    }
}

pub proof fn lemma_key_index_bounds<V>(entries: Seq<(String, V)>, key: Seq<char>)
    ensures
        key_index(entries, key) matches Some(i) ==> 0 <= i < entries.len() && entries[i].0@ == key
            && forall|j: int| 0 <= j < i ==> entries[j].0@ != key,
        key_index(entries, key) is None ==> forall|j: int|
            0 <= j < entries.len() ==> entries[j].0@ != key,
    decreases entries.len(),
{
    if entries.len() > 0 && entries[0].0@ != key {
        lemma_key_index_bounds(entries.drop_first(), key);
        assert forall|j: int| 0 < j < entries.len() implies entries[j] == entries.drop_first()[j
            - 1] by {}
    }
}

pub proof fn lemma_key_index_is<V>(entries: Seq<(String, V)>, key: Seq<char>, i: int)
    requires
        0 <= i < entries.len(),
        entries[i].0@ == key,
        forall|j: int| 0 <= j < i ==> entries[j].0@ != key,
    ensures
        key_index(entries, key) == Some(i),
    decreases entries.len(),
{
    if i > 0 {
        lemma_key_index_is(entries.drop_first(), key, i - 1);
    }
}

pub proof fn lemma_key_index_none<V>(entries: Seq<(String, V)>, key: Seq<char>)
    requires
        forall|j: int| 0 <= j < entries.len() ==> entries[j].0@ != key,
    ensures
        key_index(entries, key) is None,
    decreases entries.len(),
{
    if entries.len() > 0 {
        lemma_key_index_none(entries.drop_first(), key);
    }
}

/// Position of the first entry carrying `key`.
pub fn find_key<V>(entries: &Vec<(String, V)>, key: &str) -> (r: Option<usize>)
    ensures
        match r {
            Some(i) => key_index(entries@, key@) == Some(i as int) && i < entries@.len(),
            None => key_index(entries@, key@) is None,
        },
{
    let mut i: usize = 0;
    while i < entries.len()
        invariant
            i <= entries@.len(),
            forall|j: int| 0 <= j < i ==> entries@[j].0@ != key@,
        decreases entries@.len() - i,
    {
        if str_eq(entries[i].0.as_str(), key) {
            proof {
                lemma_key_index_is(entries@, key@, i as int);
            }
            return Some(i);
        }
        i += 1;
    }
    proof {
        lemma_key_index_none(entries@, key@);
    }
    None
}

/// The value of the first entry carrying `key`.
pub fn lookup<'a, V>(entries: &'a Vec<(String, V)>, key: &str) -> (r: Option<&'a V>)
    ensures
        match r {
            Some(v) => value_of(entries@, key@) == Some(*v),
            None => value_of(entries@, key@) is None,
        },
{
    match find_key(entries, key) {
        Some(i) => Some(&entries[i].1),
        None => None,
    }
}

/// Whether some entry carries `key`.
pub fn contains_key<V>(entries: &Vec<(String, V)>, key: &str) -> (r: bool)
    ensures
        r == has_key(entries@, key@),
{
    find_key(entries, key).is_some()
}

} // verus!
