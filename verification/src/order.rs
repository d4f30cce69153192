//! Orders on texts and on version numbers.
use vstd::prelude::*;
use std::cmp::Ordering;
use crate::text::{
    before_first, chars_of, find_char, lemma_first_index_bounds, lemma_suffix_end, lemma_suffix_start,
    lemma_suffix_step, parse_u64, parse_u64_chars, slice_of, split, split_char, suffix_from,
    trim_start_char, trim_start_matches,
};

verus! {

/// Lexicographic order of two texts, by code point.
pub open spec fn text_order(a: Seq<char>, b: Seq<char>) -> Ordering
    decreases a.len(),
{
    if a.len() == 0 && b.len() == 0 {
        Ordering::Equal
    } else if a.len() == 0 {
        Ordering::Less
    } else if b.len() == 0 {
        Ordering::Greater
    } else if a[0] < b[0] {
        Ordering::Less
    } else if a[0] > b[0] {
        Ordering::Greater
    } else {
        text_order(a.drop_first(), b.drop_first())
    }
}

/// Lexicographic order of two number sequences (a proper prefix is smaller),
/// the order of `Vec<u64>`.
pub open spec fn numbers_order(a: Seq<u64>, b: Seq<u64>) -> Ordering
    decreases a.len(),
{
    if a.len() == 0 && b.len() == 0 {
        Ordering::Equal
    } else if a.len() == 0 {
        Ordering::Less
    } else if b.len() == 0 {
        Ordering::Greater
    } else if a[0] < b[0] {
        Ordering::Less
    } else if a[0] > b[0] {
        Ordering::Greater
    } else {
        numbers_order(a.drop_first(), b.drop_first())
    }
}

/// Order of two number sequences where a missing number counts as zero.
pub open spec fn padded_order(a: Seq<u64>, b: Seq<u64>) -> Ordering
    decreases a.len() + b.len(),
{
    if a.len() == 0 && b.len() == 0 {
        Ordering::Equal
    } else {
        let x: u64 = if a.len() > 0 { a[0] } else { 0 };
        let y: u64 = if b.len() > 0 { b[0] } else { 0 };
        if x < y {
            Ordering::Less
        } else if x > y {
            Ordering::Greater
        } else {
            padded_order(
                if a.len() > 0 { a.drop_first() } else { a },
                if b.len() > 0 { b.drop_first() } else { b },
            )
        }
    }
}

/// The dot-separated parts of a version, after leading `v`s and then leading
/// `V`s are removed.
pub open spec fn version_parts(v: Seq<char>) -> Seq<Seq<char>> {
    split_char(trim_start_char(trim_start_char(v, 'v'), 'V'), '.')
}

/// The number a version part stands for: its text before any `-`, as a `u64`.
pub open spec fn part_number(p: Seq<char>) -> Option<u64> {
    parse_u64(before_first(p, '-'))
}

/// Every part read as a number, or `None` as soon as one is not a number.
pub open spec fn all_numbers(parts: Seq<Seq<char>>) -> Option<Seq<u64>>
    decreases parts.len(),
{
    if parts.len() == 0 {
        Some(Seq::empty())
    } else {
        match (all_numbers(parts.drop_last()), part_number(parts.last())) {
            (Some(ns), Some(n)) => Some(ns.push(n)),
            _ => None,
        }
    }
}

/// The parts that read as numbers, the others left out.
pub open spec fn some_numbers(parts: Seq<Seq<char>>) -> Seq<u64>
    decreases parts.len(),
{
    if parts.len() == 0 {
        Seq::empty()
    } else {
        match part_number(parts.last()) {
            Some(n) => some_numbers(parts.drop_last()).push(n),
            None => some_numbers(parts.drop_last()),
        }
    }
}

/// The numbers of a version when every part is numeric.
pub open spec fn semver_numbers(v: Seq<char>) -> Option<Seq<u64>> {
    all_numbers(version_parts(v))
}

/// How two versions compare: numerically when both are fully numeric,
/// otherwise as texts.
pub open spec fn version_order(a: Seq<char>, b: Seq<char>) -> Ordering {
    match (semver_numbers(a), semver_numbers(b)) {
        (Some(x), Some(y)) => numbers_order(x, y),
        _ => text_order(a, b),
    }
}

/// How two versions compare by their numeric parts, non-numeric parts left
/// out and missing parts counted as zero.
pub open spec fn loose_version_order(a: Seq<char>, b: Seq<char>) -> Ordering {
    padded_order(some_numbers(version_parts(a)), some_numbers(version_parts(b)))
}

/// The numbers of `v`'s version parts, or `None` when one is not numeric.
pub fn version_numbers(v: &str) -> (r: Option<Vec<u64>>)
    ensures
        match r {
            Some(x) => semver_numbers(v@) == Some(x@),
            None => semver_numbers(v@) is None,
        },
{
    let parts = numeric_parts(v);
    let mut out: Vec<u64> = Vec::new();
    let mut i: usize = 0;
    while i < parts.len()
        invariant
            i <= parts@.len(),
            parts@.len() == version_parts(v@).len(),
            forall|k: int| 0 <= k < parts@.len() ==> #[trigger] parts@[k] == part_number(version_parts(v@)[k]),
            all_numbers(version_parts(v@).take(i as int)) == Some(out@),
        decreases parts@.len() - i,
    {
        assert(version_parts(v@).take(i + 1).drop_last() =~= version_parts(v@).take(i as int));
        match parts[i] {
            Some(n) => {
                out.push(n);
            },
            None => {
                proof {
                    lemma_all_numbers_prefix_none(version_parts(v@), i as int + 1);
                }
                return None;
            },
        }
        i += 1;
    }
    assert(version_parts(v@).take(parts@.len() as int) =~= version_parts(v@));
    Some(out)
}

pub proof fn lemma_all_numbers_prefix_none(parts: Seq<Seq<char>>, k: int)
    requires
        0 <= k <= parts.len(),
        all_numbers(parts.take(k)) is None,
    ensures
        all_numbers(parts) is None,
    decreases parts.len() - k,
{
    if k < parts.len() {
        assert(parts.take(k + 1).drop_last() =~= parts.take(k));
        lemma_all_numbers_prefix_none(parts, k + 1);
    } else {
        assert(parts.take(k) =~= parts);
    }
}

/// The numbers of `v`'s numeric version parts.
pub fn loose_numbers(v: &str) -> (r: Vec<u64>)
    ensures
        r@ == some_numbers(version_parts(v@)),
{
    let parts = numeric_parts(v);
    let mut out: Vec<u64> = Vec::new();
    let mut i: usize = 0;
    while i < parts.len()
        invariant
            i <= parts@.len(),
            parts@.len() == version_parts(v@).len(),
            forall|k: int| 0 <= k < parts@.len() ==> #[trigger] parts@[k] == part_number(version_parts(v@)[k]),
            some_numbers(version_parts(v@).take(i as int)) == out@,
        decreases parts@.len() - i,
    {
        assert(version_parts(v@).take(i + 1).drop_last() =~= version_parts(v@).take(i as int));
        match parts[i] {
            Some(n) => {
                out.push(n);
            },
            None => {},
        }
        i += 1;
    }
    assert(version_parts(v@).take(parts@.len() as int) =~= version_parts(v@));
    out
}

/// Each version part read as a number.
fn numeric_parts(v: &str) -> (r: Vec<Option<u64>>)
    ensures
        r@.len() == version_parts(v@).len(),
        forall|k: int| 0 <= k < r@.len() ==> #[trigger] r@[k] == part_number(version_parts(v@)[k]),
{
    let chars = chars_of(v);
    let t1 = trim_start_matches(chars.as_slice(), 'v');
    let t2 = trim_start_matches(t1.as_slice(), 'V');
    let parts = split(t2.as_slice(), '.');
    let ghost pv = parts@.map_values(|p: Vec<char>| p@);
    assert(pv == version_parts(v@));
    let mut out: Vec<Option<u64>> = Vec::new();
    let mut i: usize = 0;
    while i < parts.len()
        invariant
            i <= parts@.len(),
            pv == parts@.map_values(|p: Vec<char>| p@),
            out@.len() == i,
            forall|k: int| 0 <= k < i ==> #[trigger] out@[k] == part_number(pv[k]),
        decreases parts@.len() - i,
    {
        let head = match find_char(parts[i].as_slice(), '-') {
            Some(j) => slice_of(parts[i].as_slice(), 0, j),
            None => slice_of(parts[i].as_slice(), 0, parts[i].len()),
        };
        proof {
            assert(pv[i as int] == parts@[i as int]@);
            lemma_first_index_bounds(parts@[i as int]@, '-');
            assert(head@ == before_first(pv[i as int], '-'));
        }
        out.push(parse_u64_chars(head.as_slice()));
        i += 1;
    }
    out
}

/// How two number sequences compare lexicographically.
pub fn compare_numbers(a: &[u64], b: &[u64]) -> (r: Ordering)
    ensures
        r == numbers_order(a@, b@),
{
    let mut i: usize = 0;
    proof {
        lemma_suffix_start(a@);
        lemma_suffix_start(b@);
    }
    while i < a.len() && i < b.len() && a[i] == b[i]
        invariant
            i <= a@.len(),
            i <= b@.len(),
            numbers_order(a@, b@) == numbers_order(suffix_from(a@, i), suffix_from(b@, i)),
        decreases a@.len() - i,
    {
        proof {
            lemma_suffix_step(a@, i);
            lemma_suffix_step(b@, i);
        }
        i += 1;
    }
    proof {
        if i < a@.len() {
            lemma_suffix_step(a@, i);
        } else {
            lemma_suffix_end(a@, i);
        }
        if i < b@.len() {
            lemma_suffix_step(b@, i);
        } else {
            lemma_suffix_end(b@, i);
        }
    }
    if i == a.len() && i == b.len() {
        Ordering::Equal
    } else if i == a.len() {
        Ordering::Less
    } else if i == b.len() {
        Ordering::Greater
    } else if a[i] < b[i] {
        Ordering::Less
    } else {
        Ordering::Greater
    }
}

/// How two number sequences compare, missing numbers counting as zero.
pub fn compare_padded(a: &[u64], b: &[u64]) -> (r: Ordering)
    ensures
        r == padded_order(a@, b@),
{
    let mut i: usize = 0;
    let ghost mut gi: int = 0int;
    proof {
        lemma_rest_start(a@);
        lemma_rest_start(b@);
    }
    while i < a.len() || i < b.len()
        invariant
            gi == i,
            padded_order(a@, b@) == padded_order(rest_of(a@, gi), rest_of(b@, gi)),
        decreases a@.len() + b@.len() - i,
    {
        let x: u64 = if i < a.len() { a[i] } else { 0 };
        let y: u64 = if i < b.len() { b[i] } else { 0 };
        proof {
            lemma_rest_step(a@, gi);
            lemma_rest_step(b@, gi);
        }
        if x < y {
            return Ordering::Less;
        }
        if x > y {
            return Ordering::Greater;
        }
        assert(padded_order(rest_of(a@, gi), rest_of(b@, gi)) == padded_order(
            rest_of(a@, gi + 1),
            rest_of(b@, gi + 1),
        ));
        i += 1;
        proof {
            gi = gi + 1;
        }
    }
    proof {
        lemma_rest_step(a@, gi);
        lemma_rest_step(b@, gi);
    }
    Ordering::Equal
}

/// The numbers of `s` from index `i` on (none when `i` is past the end).
pub open spec fn rest_of(s: Seq<u64>, i: int) -> Seq<u64> {
    if 0 <= i <= s.len() { s.skip(i) } else { Seq::empty() }
}

pub proof fn lemma_rest_start(s: Seq<u64>)
    ensures
        rest_of(s, 0) == s,
{
    assert(s.skip(0) =~= s);
}

pub proof fn lemma_rest_step(s: Seq<u64>, i: int)
    requires
        i >= 0,
    ensures
        i < s.len() ==> rest_of(s, i).len() > 0 && rest_of(s, i)[0] == s[i]
            && rest_of(s, i).drop_first() == rest_of(s, i + 1),
        i >= s.len() ==> rest_of(s, i) == Seq::<u64>::empty() && rest_of(s, i + 1)
            == Seq::<u64>::empty(),
{
    if i < s.len() {
        assert(s.skip(i).drop_first() =~= s.skip(i + 1));
    } else if i == s.len() {
        assert(s.skip(i) =~= Seq::<u64>::empty());
    }
}

/// How two texts compare lexicographically.
pub fn compare_text(a: &str, b: &str) -> (r: Ordering)
    ensures
        r == text_order(a@, b@),
{
    let x = chars_of(a);
    let y = chars_of(b);
    let mut i: usize = 0;
    proof {
        lemma_suffix_start(x@);
        lemma_suffix_start(y@);
    }
    while i < x.len() && i < y.len() && x[i] == y[i]
        invariant
            i <= x@.len(),
            i <= y@.len(),
            x@ == a@,
            y@ == b@,
            text_order(a@, b@) == text_order(suffix_from(x@, i), suffix_from(y@, i)),
        decreases x@.len() - i,
    {
        proof {
            lemma_suffix_step(x@, i);
            lemma_suffix_step(y@, i);
        }
        i += 1;
    }
    proof {
        if i < x@.len() {
            lemma_suffix_step(x@, i);
        } else {
            lemma_suffix_end(x@, i);
        }
        if i < y@.len() {
            lemma_suffix_step(y@, i);
        } else {
            lemma_suffix_end(y@, i);
        }
    }
    if i == x.len() && i == y.len() {
        Ordering::Equal
    } else if i == x.len() {
        Ordering::Less
    } else if i == y.len() {
        Ordering::Greater
    } else if x[i] < y[i] {
        Ordering::Less
    } else {
        Ordering::Greater
    }
}

/// Every text is ordered equal to itself.
pub proof fn lemma_text_order_refl(a: Seq<char>)
    ensures
        text_order(a, a) == Ordering::Equal,
    decreases a.len(),
{
    if a.len() > 0 {
        lemma_text_order_refl(a.drop_first());
    }
}

/// Every number sequence is ordered equal to itself.
pub proof fn lemma_numbers_order_refl(a: Seq<u64>)
    ensures
        numbers_order(a, a) == Ordering::Equal,
    decreases a.len(),
{
    if a.len() > 0 {
        lemma_numbers_order_refl(a.drop_first());
    }
}

/// No version is lower than itself.
pub proof fn lemma_version_not_below_itself(a: Seq<char>)
    ensures
        version_order(a, a) == Ordering::Equal,
{
    match semver_numbers(a) {
        Some(x) => lemma_numbers_order_refl(x),
        None => lemma_text_order_refl(a),
    }
}


/// Two number sequences are ordered by their first difference: when they
/// agree on their first `i` numbers, the number at `i` decides, and if one
/// of them ends there the shorter one is smaller (they are equal when both
/// end).
pub proof fn numbers_are_ordered_by_their_first_difference(a: Seq<u64>, b: Seq<u64>, i: int)
    requires
        0 <= i <= a.len(),
        i <= b.len(),
        forall|j: int| 0 <= j < i ==> a[j] == b[j],
    ensures
        i < a.len() && i < b.len() && a[i] < b[i] ==> numbers_order(a, b) == Ordering::Less,
        i < a.len() && i < b.len() && a[i] > b[i] ==> numbers_order(a, b) == Ordering::Greater,
        i == a.len() && i == b.len() ==> numbers_order(a, b) == Ordering::Equal,
        i == a.len() && i < b.len() ==> numbers_order(a, b) == Ordering::Less,
        i < a.len() && i == b.len() ==> numbers_order(a, b) == Ordering::Greater,
    decreases i,
{
    if i > 0 {
        assert(a[0] == b[0]);
        let a1 = a.drop_first();
        let b1 = b.drop_first();
        assert forall|j: int| 0 <= j < i - 1 implies a1[j] == b1[j] by {
            assert(a1[j] == a[j + 1] && b1[j] == b[j + 1]);
        }
        numbers_are_ordered_by_their_first_difference(a1, b1, i - 1);
        assert(numbers_order(a, b) == numbers_order(a1, b1));
        if i < a.len() {
            assert(a1[i - 1] == a[i]);
        }
        if i < b.len() {
            assert(b1[i - 1] == b[i]);
        }
    }
}

/// Two fully numeric versions are ordered by the numeric value of their
/// dot-separated parts: where they agree on their first `i` parts, a larger
/// number at part `i` makes the version higher, and a version that stops
/// there is lower than one that goes on.
pub proof fn numeric_versions_are_ordered_by_their_numbers(
    a: Seq<char>,
    b: Seq<char>,
    x: Seq<u64>,
    y: Seq<u64>,
    i: int,
)
    requires
        semver_numbers(a) == Some(x),
        semver_numbers(b) == Some(y),
        0 <= i <= x.len(),
        i <= y.len(),
        forall|j: int| 0 <= j < i ==> x[j] == y[j],
    ensures
        i < x.len() && i < y.len() && x[i] > y[i] ==> version_order(a, b) == Ordering::Greater,
        i < x.len() && i < y.len() && x[i] < y[i] ==> version_order(a, b) == Ordering::Less,
        i == x.len() && i < y.len() ==> version_order(a, b) == Ordering::Less,
        i == x.len() && i == y.len() ==> version_order(a, b) == Ordering::Equal,
{
    numbers_are_ordered_by_their_first_difference(x, y, i);
}

/// The number at position `j` of a sequence, zero past its end.
pub open spec fn padded_at(s: Seq<u64>, j: int) -> u64 {
    if 0 <= j < s.len() {
        s[j]
    } else {
        0
    }
}

/// Dropping the first number of a sequence (when there is one) shifts the
/// numbers of the padded sequence by one.
proof fn lemma_padded_shift(s: Seq<u64>, j: int)
    requires
        0 <= j,
    ensures
        padded_at(if s.len() > 0 { s.drop_first() } else { s }, j) == padded_at(s, j + 1),
{
}

/// Two number sequences read with missing numbers as zero are ordered by
/// their first difference: when they agree on their first `i` numbers the
/// number at `i` decides, and they are equal when they agree on every number
/// of both.
pub proof fn padded_numbers_are_ordered_by_their_first_difference(a: Seq<u64>, b: Seq<u64>, i: int)
    requires
        0 <= i,
        forall|j: int| 0 <= j < i ==> padded_at(a, j) == padded_at(b, j),
    ensures
        padded_at(a, i) < padded_at(b, i) ==> padded_order(a, b) == Ordering::Less,
        padded_at(a, i) > padded_at(b, i) ==> padded_order(a, b) == Ordering::Greater,
        i >= a.len() && i >= b.len() ==> padded_order(a, b) == Ordering::Equal,
    decreases i,
{
    if i > 0 && (a.len() > 0 || b.len() > 0) {
        assert(padded_at(a, 0) == padded_at(b, 0));
        let a1 = if a.len() > 0 { a.drop_first() } else { a };
        let b1 = if b.len() > 0 { b.drop_first() } else { b };
        assert forall|j: int| 0 <= j < i - 1 implies padded_at(a1, j) == padded_at(b1, j) by {
            lemma_padded_shift(a, j);
            lemma_padded_shift(b, j);
            assert(padded_at(a, j + 1) == padded_at(b, j + 1));
        }
        padded_numbers_are_ordered_by_their_first_difference(a1, b1, i - 1);
        lemma_padded_shift(a, i - 1);
        lemma_padded_shift(b, i - 1);
        assert(padded_order(a, b) == padded_order(a1, b1));
    } else if i > 0 {
        assert(padded_order(a, b) == Ordering::Equal);
    }
}


/// The reverse of an order.
pub open spec fn reversed(o: Ordering) -> Ordering {
    match o {
        Ordering::Less => Ordering::Greater,
        Ordering::Greater => Ordering::Less,
        Ordering::Equal => Ordering::Equal,
    }
}

/// Comparing the other way round reverses the padded order.
pub proof fn lemma_padded_reversed(a: Seq<u64>, b: Seq<u64>)
    ensures
        padded_order(b, a) == reversed(padded_order(a, b)),
    decreases a.len() + b.len(),
{
    if a.len() > 0 || b.len() > 0 {
        let a1 = if a.len() > 0 { a.drop_first() } else { a };
        let b1 = if b.len() > 0 { b.drop_first() } else { b };
        lemma_padded_reversed(a1, b1);
    }
}

/// The padded order never puts a sequence above itself.
pub proof fn lemma_padded_not_above_itself(a: Seq<u64>)
    ensures
        padded_order(a, a) == Ordering::Equal,
{
    lemma_padded_reversed(a, a);
}

/// "Not above" in the padded order is transitive.
pub proof fn lemma_padded_not_above_trans(a: Seq<u64>, b: Seq<u64>, c: Seq<u64>)
    requires
        padded_order(a, b) != Ordering::Greater,
        padded_order(b, c) != Ordering::Greater,
    ensures
        padded_order(a, c) != Ordering::Greater,
    decreases a.len() + b.len() + c.len(),
{
    if a.len() == 0 && b.len() == 0 {
        assert(a =~= b);
    } else if b.len() == 0 && c.len() == 0 {
        assert(b =~= c);
    } else if a.len() == 0 && c.len() == 0 {
    } else {
        let x: u64 = if a.len() > 0 { a[0] } else { 0 };
        let y: u64 = if b.len() > 0 { b[0] } else { 0 };
        let z: u64 = if c.len() > 0 { c[0] } else { 0 };
        let a1 = if a.len() > 0 { a.drop_first() } else { a };
        let b1 = if b.len() > 0 { b.drop_first() } else { b };
        let c1 = if c.len() > 0 { c.drop_first() } else { c };
        assert(x <= y);
        assert(y <= z);
        if x == z {
            assert(padded_order(a1, b1) != Ordering::Greater);
            assert(padded_order(b1, c1) != Ordering::Greater);
            lemma_padded_not_above_trans(a1, b1, c1);
        }
    }
}

} // verus!
