//! Configuration diff between directories: line diffs of files grouped
//! into hunks.
use vstd::prelude::*;
use crate::text::{
    chars_of, contains_sub, ends_with, is_suffix, lines_of, owned, str_eq, text_lines, views,
};
use crate::versions::models::{
    DiffHunk, DiffLine, DiffLineKind, DiffSummary, FileConfigDiff, lemma_deep_view_push,
};

verus! {

/// A diff line, as values.
pub struct LineView {
    pub kind: DiffLineKind,
    pub content: Seq<char>,
    pub old_line: Option<int>,
    pub new_line: Option<int>,
}

/// A hunk, as values.
pub struct HunkView {
    pub old_start: int,
    pub new_start: int,
    pub lines: Seq<LineView>,
}

/// An optional line number as an integer.
pub open spec fn opt_int(o: Option<usize>) -> Option<int> {
    match o {
        Some(n) => Some(n as int),
        None => None,
    }
}

impl View for DiffLine {
    type V = LineView;

    open spec fn view(&self) -> LineView {
        LineView {
            kind: self.kind,
            content: self.content@,
            old_line: opt_int(self.old_line),
            new_line: opt_int(self.new_line),
        }
    }
}

impl DeepView for DiffLine {
    type V = LineView;

    open spec fn deep_view(&self) -> LineView {
        self@
    }
}

impl View for DiffHunk {
    type V = HunkView;

    open spec fn view(&self) -> HunkView {
        HunkView {
            old_start: self.old_start as int,
            new_start: self.new_start as int,
            lines: self.lines.deep_view(),
        }
    }
}

impl DeepView for DiffHunk {
    type V = HunkView;

    open spec fn deep_view(&self) -> HunkView {
        self@
    }
}

/// The hunk in progress, if any, as a list.
pub open spec fn flushed(cur: Option<HunkView>) -> Seq<HunkView> {
    match cur {
        Some(h) => seq![h],
        None => Seq::empty(),
    }
}

/// A hunk with one more line.
pub open spec fn with_line(h: HunkView, l: LineView) -> HunkView {
    HunkView { old_start: h.old_start, new_start: h.new_start, lines: h.lines.push(l) }
}

/// The hunks from positions `i` of `old` and `j` of `new` on, with the hunk
/// `cur` in progress that a run of changes after `ohs` and `nhs` started.
/// Equal lines end a hunk. Otherwise the new line is added when the old
/// side is done or the lines after both agree; else the old line is removed;
/// else the new line is added.
pub open spec fn unified_from(
    old: Seq<Seq<char>>,
    new: Seq<Seq<char>>,
    i: int,
    j: int,
    ohs: int,
    nhs: int,
    cur: Option<HunkView>,
) -> Seq<HunkView>
    decreases (old.len() - i) + (new.len() - j),
{
    if i < 0 || j < 0 || i > old.len() || j > new.len() || !(i < old.len() || j < new.len()) {
        flushed(cur)
    } else if i < old.len() && j < new.len() && old[i] == new[j] {
        flushed(cur) + unified_from(old, new, i + 1, j + 1, i + 1, j + 1, None)
    } else {
        let h = match cur {
            Some(h) => h,
            None => HunkView { old_start: ohs + 1, new_start: nhs + 1, lines: Seq::empty() },
        };
        if j < new.len() && (i >= old.len() || (i + 1 < old.len() && j + 1 < new.len() && old[i
            + 1] == new[j + 1])) {
            unified_from(
                old,
                new,
                i,
                j + 1,
                ohs,
                nhs,
                Some(
                    with_line(
                        h,
                        LineView {
                            kind: DiffLineKind::Addition,
                            content: new[j],
                            old_line: None,
                            new_line: Some(j + 1),
                        },
                    ),
                ),
            )
        } else if i < old.len() {
            unified_from(
                old,
                new,
                i + 1,
                j,
                ohs,
                nhs,
                Some(
                    with_line(
                        h,
                        LineView {
                            kind: DiffLineKind::Removal,
                            content: old[i],
                            old_line: Some(i + 1),
                            new_line: None,
                        },
                    ),
                ),
            )
        } else {
            unified_from(
                old,
                new,
                i,
                j + 1,
                ohs,
                nhs,
                Some(
                    with_line(
                        h,
                        LineView {
                            kind: DiffLineKind::Addition,
                            content: new[j],
                            old_line: None,
                            new_line: Some(j + 1),
                        },
                    ),
                ),
            )
        }
    }
}

/// The unified diff of two lists of lines.
pub open spec fn unified_diff(old: Seq<Seq<char>>, new: Seq<Seq<char>>) -> Seq<HunkView> {
    unified_from(old, new, 0, 0, 0, 0, None)
}

/// The view of an optional hunk.
pub open spec fn opt_hunk(h: Option<DiffHunk>) -> Option<HunkView> {
    match h {
        Some(x) => Some(x@),
        None => None,
    }
}

/// A hunk that takes one more line.
fn push_line(cur: Option<DiffHunk>, start_old: usize, start_new: usize, line: DiffLine) -> (r: DiffHunk)
    requires
        start_old < usize::MAX,
        start_new < usize::MAX,
    ensures
        r@ == with_line(
            match opt_hunk(cur) {
                Some(h) => h,
                None => HunkView {
                    old_start: start_old + 1,
                    new_start: start_new + 1,
                    lines: Seq::empty(),
                },
            },
            line@,
        ),
{
    let mut h = match cur {
        Some(h) => h,
        None => {
            let e = DiffHunk { old_start: start_old + 1, new_start: start_new + 1, lines: Vec::new() };
            assert(e.lines.deep_view() =~= Seq::<LineView>::empty());
            e
        },
    };
    let ghost h0 = h@;
    let ghost prev = h.lines@;
    h.lines.push(line);
    proof {
        lemma_deep_view_push(prev, h.lines@, line);
    }
    assert(h@ =~= with_line(h0, line@));
    h
}

/// Compute unified diff between two sets of lines.
pub fn compute_unified_diff(old_lines: &Vec<String>, new_lines: &Vec<String>) -> (r: Vec<DiffHunk>)
    requires
        old_lines@.len() < usize::MAX,
        new_lines@.len() < usize::MAX,
    ensures
        r.deep_view() == unified_diff(views(old_lines@), views(new_lines@)),
{
    let ghost o = views(old_lines@);
    let ghost n = views(new_lines@);
    let mut hunks: Vec<DiffHunk> = Vec::new();
    let mut old_idx: usize = 0;
    let mut new_idx: usize = 0;
    let mut current: Option<DiffHunk> = None;
    let mut old_start: usize = 0;
    let mut new_start: usize = 0;
    while old_idx < old_lines.len() || new_idx < new_lines.len()
        invariant
            old_idx <= old_lines@.len(),
            new_idx <= new_lines@.len(),
            old_lines@.len() < usize::MAX,
            new_lines@.len() < usize::MAX,
            old_start <= old_idx,
            new_start <= new_idx,
            o == views(old_lines@),
            n == views(new_lines@),
            hunks.deep_view() + unified_from(
                o,
                n,
                old_idx as int,
                new_idx as int,
                old_start as int,
                new_start as int,
                opt_hunk(current),
            ) == unified_diff(o, n),
        decreases (old_lines@.len() - old_idx) + (new_lines@.len() - new_idx),
    {
        let ghost before = hunks.deep_view();
        let ghost rest = unified_from(
            o,
            n,
            old_idx as int,
            new_idx as int,
            old_start as int,
            new_start as int,
            opt_hunk(current),
        );
        if old_idx < old_lines.len() && new_idx < new_lines.len() && str_eq(
            old_lines[old_idx].as_str(),
            new_lines[new_idx].as_str(),
        ) {
            match current.take() {
                Some(h) => {
                    let ghost prev = hunks@;
                    hunks.push(h);
                    proof {
                        lemma_deep_view_push(prev, hunks@, h);
                    }
                },
                None => {},
            }
            old_idx += 1;
            new_idx += 1;
            old_start = old_idx;
            new_start = new_idx;
        } else {
            let add_first = new_idx < new_lines.len() && (old_idx >= old_lines.len() || (old_idx
                + 1 < old_lines.len() && new_idx + 1 < new_lines.len() && str_eq(
                old_lines[old_idx + 1].as_str(),
                new_lines[new_idx + 1].as_str(),
            )));
            if add_first {
                let line = DiffLine {
                    kind: DiffLineKind::Addition,
                    content: new_lines[new_idx].clone(),
                    old_line: None,
                    new_line: Some(new_idx + 1),
                };
                let h = push_line(current.take(), old_start, new_start, line);
                current = Some(h);
                new_idx += 1;
            } else if old_idx < old_lines.len() {
                let line = DiffLine {
                    kind: DiffLineKind::Removal,
                    content: old_lines[old_idx].clone(),
                    old_line: Some(old_idx + 1),
                    new_line: None,
                };
                let h = push_line(current.take(), old_start, new_start, line);
                current = Some(h);
                old_idx += 1;
            } else {
                let line = DiffLine {
                    kind: DiffLineKind::Addition,
                    content: new_lines[new_idx].clone(),
                    old_line: None,
                    new_line: Some(new_idx + 1),
                };
                let h = push_line(current.take(), old_start, new_start, line);
                current = Some(h);
                new_idx += 1;
            }
        }
        assert(hunks.deep_view() + unified_from(
            o,
            n,
            old_idx as int,
            new_idx as int,
            old_start as int,
            new_start as int,
            opt_hunk(current),
        ) =~= before + rest);
    }
    match current {
        Some(h) => {
            let ghost prev = hunks@;
            hunks.push(h);
            proof {
                lemma_deep_view_push(prev, hunks@, h);
            }
        },
        None => {},
    }
    assert(hunks.deep_view() =~= unified_diff(o, n));
    hunks
}

/// How many lines are of a kind.
pub open spec fn lines_of_kind(lines: Seq<LineView>, kind: DiffLineKind) -> nat
    decreases lines.len(),
{
    if lines.len() == 0 {
        0
    } else {
        lines_of_kind(lines.drop_last(), kind) + if lines.last().kind == kind {
            1nat
        } else {
            0nat
        }
    }
}

/// How many lines of all hunks are of a kind.
pub open spec fn hunk_lines_of_kind(hunks: Seq<HunkView>, kind: DiffLineKind) -> nat
    decreases hunks.len(),
{
    if hunks.len() == 0 {
        0
    } else {
        hunk_lines_of_kind(hunks.drop_last(), kind) + lines_of_kind(hunks.last().lines, kind)
    }
}

/// How many lines of a kind the hunk in progress holds.
pub open spec fn cur_count(cur: Option<HunkView>, kind: DiffLineKind) -> nat {
    match cur {
        Some(h) => lines_of_kind(h.lines, kind),
        None => 0,
    }
}

/// Counting the lines of two lists of hunks adds up.
proof fn lemma_hunk_lines_concat(a: Seq<HunkView>, b: Seq<HunkView>, kind: DiffLineKind)
    ensures
        hunk_lines_of_kind(a + b, kind) == hunk_lines_of_kind(a, kind) + hunk_lines_of_kind(b, kind),
    decreases b.len(),
{
    if b.len() > 0 {
        lemma_hunk_lines_concat(a, b.drop_last(), kind);
        assert((a + b).drop_last() =~= a + b.drop_last());
        assert((a + b).last() == b.last());
    } else {
        assert(a + b =~= a);
    }
}

/// The hunk in progress, flushed, holds its own lines.
proof fn lemma_flushed_count(cur: Option<HunkView>, kind: DiffLineKind)
    ensures
        hunk_lines_of_kind(flushed(cur), kind) == cur_count(cur, kind),
{
    assert(hunk_lines_of_kind(Seq::<HunkView>::empty(), kind) == 0);
    if let Some(h) = cur {
        assert(flushed(cur).drop_last() =~= Seq::<HunkView>::empty());
        assert(flushed(cur).last() == h);
        assert(hunk_lines_of_kind(flushed(cur), kind) == hunk_lines_of_kind(flushed(cur).drop_last(), kind)
            + lines_of_kind(h.lines, kind));
    }
}

/// A hunk with one more line counts that line.
proof fn lemma_with_line_count(h: HunkView, l: LineView, kind: DiffLineKind)
    ensures
        lines_of_kind(with_line(h, l).lines, kind) == lines_of_kind(h.lines, kind) + if l.kind == kind {
            1nat
        } else {
            0nat
        },
{
    assert(with_line(h, l).lines.drop_last() =~= h.lines);
}

/// Added lines come from the new side and removed lines from the old side,
/// each line once: the diff from positions `i` and `j` on adds at most the
/// new lines left and removes at most the old lines left.
proof fn lemma_unified_counts(
    old: Seq<Seq<char>>,
    new: Seq<Seq<char>>,
    i: int,
    j: int,
    ohs: int,
    nhs: int,
    cur: Option<HunkView>,
)
    requires
        0 <= i <= old.len(),
        0 <= j <= new.len(),
    ensures
        hunk_lines_of_kind(unified_from(old, new, i, j, ohs, nhs, cur), DiffLineKind::Addition)
            <= cur_count(cur, DiffLineKind::Addition) + (new.len() - j),
        hunk_lines_of_kind(unified_from(old, new, i, j, ohs, nhs, cur), DiffLineKind::Removal)
            <= cur_count(cur, DiffLineKind::Removal) + (old.len() - i),
    decreases (old.len() - i) + (new.len() - j),
{
    let add = DiffLineKind::Addition;
    let rem = DiffLineKind::Removal;
    lemma_flushed_count(cur, add);
    lemma_flushed_count(cur, rem);
    if !(i < old.len() || j < new.len()) {
    } else if i < old.len() && j < new.len() && old[i] == new[j] {
        lemma_unified_counts(old, new, i + 1, j + 1, i + 1, j + 1, None);
        let rest = unified_from(old, new, i + 1, j + 1, i + 1, j + 1, None);
        lemma_hunk_lines_concat(flushed(cur), rest, add);
        lemma_hunk_lines_concat(flushed(cur), rest, rem);
    } else {
        let h = match cur {
            Some(h) => h,
            None => HunkView { old_start: ohs + 1, new_start: nhs + 1, lines: Seq::empty() },
        };
        assert(lines_of_kind(h.lines, add) == cur_count(cur, add));
        assert(lines_of_kind(h.lines, rem) == cur_count(cur, rem));
        if j < new.len() && (i >= old.len() || (i + 1 < old.len() && j + 1 < new.len() && old[i + 1]
            == new[j + 1])) {
            let l = LineView { kind: add, content: new[j], old_line: None, new_line: Some(j + 1) };
            lemma_with_line_count(h, l, add);
            lemma_with_line_count(h, l, rem);
            lemma_unified_counts(old, new, i, j + 1, ohs, nhs, Some(with_line(h, l)));
        } else if i < old.len() {
            let l = LineView { kind: rem, content: old[i], old_line: Some(i + 1), new_line: None };
            lemma_with_line_count(h, l, add);
            lemma_with_line_count(h, l, rem);
            lemma_unified_counts(old, new, i + 1, j, ohs, nhs, Some(with_line(h, l)));
        } else {
            let l = LineView { kind: add, content: new[j], old_line: None, new_line: Some(j + 1) };
            lemma_with_line_count(h, l, add);
            lemma_with_line_count(h, l, rem);
            lemma_unified_counts(old, new, i, j + 1, ohs, nhs, Some(with_line(h, l)));
        }
    }
}

/// A diff line taken from the texts at its line number: an added line is
/// the new text's line `k` (counting from one) and has no old number; a
/// removed line is the old text's line `k` and has no new number.
pub open spec fn line_from_texts(l: LineView, old: Seq<Seq<char>>, new: Seq<Seq<char>>) -> bool {
    match l.kind {
        DiffLineKind::Addition => l.old_line is None && (l.new_line matches Some(k) && 1 <= k
            <= new.len() && l.content == new[k - 1]),
        DiffLineKind::Removal => l.new_line is None && (l.old_line matches Some(k) && 1 <= k
            <= old.len() && l.content == old[k - 1]),
        DiffLineKind::Context => false,
    }
}

/// A hunk with at least one line, each taken from the texts.
pub open spec fn hunk_from_texts(h: HunkView, old: Seq<Seq<char>>, new: Seq<Seq<char>>) -> bool {
    &&& h.lines.len() > 0
    &&& forall|m: int| 0 <= m < h.lines.len() ==> line_from_texts(#[trigger] h.lines[m], old, new)
}

/// Every hunk from positions `i` and `j` on has lines, each taken from the
/// texts, when the hunk in progress does.
proof fn lemma_unified_lines(
    old: Seq<Seq<char>>,
    new: Seq<Seq<char>>,
    i: int,
    j: int,
    ohs: int,
    nhs: int,
    cur: Option<HunkView>,
)
    requires
        0 <= i <= old.len(),
        0 <= j <= new.len(),
        cur matches Some(h) ==> hunk_from_texts(h, old, new),
    ensures
        forall|k: int|
            0 <= k < unified_from(old, new, i, j, ohs, nhs, cur).len() ==> hunk_from_texts(
                #[trigger] unified_from(old, new, i, j, ohs, nhs, cur)[k],
                old,
                new,
            ),
    decreases (old.len() - i) + (new.len() - j),
{
    let r = unified_from(old, new, i, j, ohs, nhs, cur);
    if !(i < old.len() || j < new.len()) {
        assert(r == flushed(cur));
        if let Some(h) = cur {
            assert(r[0] == h);
        }
    } else if i < old.len() && j < new.len() && old[i] == new[j] {
        let rest = unified_from(old, new, i + 1, j + 1, i + 1, j + 1, None);
        lemma_unified_lines(old, new, i + 1, j + 1, i + 1, j + 1, None);
        assert(r == flushed(cur) + rest);
        assert forall|k: int| 0 <= k < r.len() implies hunk_from_texts(#[trigger] r[k], old, new) by {
            if k < flushed(cur).len() {
                assert(r[k] == flushed(cur)[k]);
            } else {
                assert(r[k] == rest[k - flushed(cur).len()]);
            }
        }
    } else {
        let h = match cur {
            Some(h) => h,
            None => HunkView { old_start: ohs + 1, new_start: nhs + 1, lines: Seq::empty() },
        };
        assert(forall|m: int| 0 <= m < h.lines.len() ==> line_from_texts(#[trigger] h.lines[m], old, new));
        if j < new.len() && (i >= old.len() || (i + 1 < old.len() && j + 1 < new.len() && old[i + 1]
            == new[j + 1])) {
            let l = LineView {
                kind: DiffLineKind::Addition,
                content: new[j],
                old_line: None,
                new_line: Some(j + 1),
            };
            assert(line_from_texts(l, old, new));
            let h2 = with_line(h, l);
            assert forall|m: int| 0 <= m < h2.lines.len() implies line_from_texts(
                #[trigger] h2.lines[m],
                old,
                new,
            ) by {
                if m < h.lines.len() {
                    assert(h2.lines[m] == h.lines[m]);
                }
            }
            lemma_unified_lines(old, new, i, j + 1, ohs, nhs, Some(h2));
            assert(r == unified_from(old, new, i, j + 1, ohs, nhs, Some(h2)));
        } else if i < old.len() {
            let l = LineView {
                kind: DiffLineKind::Removal,
                content: old[i],
                old_line: Some(i + 1),
                new_line: None,
            };
            assert(line_from_texts(l, old, new));
            let h2 = with_line(h, l);
            assert forall|m: int| 0 <= m < h2.lines.len() implies line_from_texts(
                #[trigger] h2.lines[m],
                old,
                new,
            ) by {
                if m < h.lines.len() {
                    assert(h2.lines[m] == h.lines[m]);
                }
            }
            lemma_unified_lines(old, new, i + 1, j, ohs, nhs, Some(h2));
            assert(r == unified_from(old, new, i + 1, j, ohs, nhs, Some(h2)));
        } else {
            let l = LineView {
                kind: DiffLineKind::Addition,
                content: new[j],
                old_line: None,
                new_line: Some(j + 1),
            };
            assert(line_from_texts(l, old, new));
            let h2 = with_line(h, l);
            assert forall|m: int| 0 <= m < h2.lines.len() implies line_from_texts(
                #[trigger] h2.lines[m],
                old,
                new,
            ) by {
                if m < h.lines.len() {
                    assert(h2.lines[m] == h.lines[m]);
                }
            }
            lemma_unified_lines(old, new, i, j + 1, ohs, nhs, Some(h2));
            assert(r == unified_from(old, new, i, j + 1, ohs, nhs, Some(h2)));
        }
    }
}

/// The unified diff of two texts' lines is made of what they hold: every
/// hunk has lines, every added line is the new text's line at its new number
/// and every removed line the old text's line at its old number, no line is
/// a context line, and there are no more added lines than new lines nor
/// more removed lines than old lines.
pub proof fn unified_diff_lines_come_from_the_texts(old: Seq<Seq<char>>, new: Seq<Seq<char>>)
    ensures
        forall|k: int|
            0 <= k < unified_diff(old, new).len() ==> hunk_from_texts(
                #[trigger] unified_diff(old, new)[k],
                old,
                new,
            ),
        hunk_lines_of_kind(unified_diff(old, new), DiffLineKind::Addition) <= new.len(),
        hunk_lines_of_kind(unified_diff(old, new), DiffLineKind::Removal) <= old.len(),
{
    lemma_unified_lines(old, new, 0, 0, 0, 0, None);
    lemma_unified_counts(old, new, 0, 0, 0, 0, None);
}

/// A file's differences, as values.
pub struct FileDiffView {
    pub relative_path: Seq<char>,
    pub hunks: Seq<HunkView>,
    pub additions: int,
    pub removals: int,
    pub modifications: int,
}

impl View for FileConfigDiff {
    type V = FileDiffView;

    open spec fn view(&self) -> FileDiffView {
        FileDiffView {
            relative_path: self.relative_path@,
            hunks: self.hunks.deep_view(),
            additions: self.summary.additions as int,
            removals: self.summary.removals as int,
            modifications: self.summary.modifications as int,
        }
    }
}

impl DeepView for FileConfigDiff {
    type V = FileDiffView;

    open spec fn deep_view(&self) -> FileDiffView {
        self@
    }
}

/// How many lines of the hunks are of a kind.
fn count_lines(hunks: &Vec<DiffHunk>, kind: DiffLineKind) -> (r: usize)
    requires
        hunk_lines_of_kind(hunks.deep_view(), kind) <= usize::MAX,
    ensures
        r == hunk_lines_of_kind(hunks.deep_view(), kind),
{
    let ghost hv = hunks.deep_view();
    let mut total: usize = 0;
    let mut i: usize = 0;
    while i < hunks.len()
        invariant
            i <= hunks@.len(),
            hv == hunks.deep_view(),
            hunk_lines_of_kind(hv, kind) <= usize::MAX,
            total == hunk_lines_of_kind(hv.take(i as int), kind),
        decreases hunks@.len() - i,
    {
        assert(hv.take(i + 1).drop_last() =~= hv.take(i as int));
        assert(hv.take(i + 1).last() == hunks@[i as int]@);
        proof {
            lemma_kind_count_prefix(hv, i + 1, kind);
        }
        let lines = &hunks[i].lines;
        let ghost lv = lines.deep_view();
        let mut j: usize = 0;
        let mut n: usize = 0;
        while j < lines.len()
            invariant
                j <= lines@.len(),
                lv == lines.deep_view(),
                n == lines_of_kind(lv.take(j as int), kind),
                n <= j,
            decreases lines@.len() - j,
        {
            assert(lv.take(j + 1).drop_last() =~= lv.take(j as int));
            assert(lv.take(j + 1).last() == lines@[j as int]@);
            if lines[j].kind == kind {
                n += 1;
            }
            j += 1;
        }
        assert(lv.take(j as int) =~= lv);
        total = total + n;
        i += 1;
    }
    assert(hv.take(i as int) =~= hv);
    total
}

/// Counts over a prefix of the hunks are no more than over all of them.
proof fn lemma_kind_count_prefix(hv: Seq<HunkView>, k: int, kind: DiffLineKind)
    requires
        0 <= k <= hv.len(),
    ensures
        hunk_lines_of_kind(hv.take(k), kind) <= hunk_lines_of_kind(hv, kind),
    decreases hv.len() - k,
{
    if k < hv.len() {
        lemma_kind_count_prefix(hv, k + 1, kind);
        assert(hv.take(k + 1).drop_last() =~= hv.take(k));
    } else {
        assert(hv.take(k) =~= hv);
    }
}

/// A hunk has no more lines of a kind than lines.
proof fn lemma_lines_of_kind_len(lines: Seq<LineView>, kind: DiffLineKind)
    ensures
        lines_of_kind(lines, kind) <= lines.len(),
    decreases lines.len(),
{
    if lines.len() > 0 {
        lemma_lines_of_kind_len(lines.drop_last(), kind);
    }
}

/// The differences of a file between its source and destination contents:
/// the unified diff of their lines, with additions and removals counted.
pub open spec fn file_diff_of(relative: Seq<char>, source: Seq<char>, dest: Seq<char>) -> FileDiffView {
    let hunks = unified_diff(text_lines(source), text_lines(dest));
    FileDiffView {
        relative_path: relative,
        hunks: hunks,
        additions: hunk_lines_of_kind(hunks, DiffLineKind::Addition) as int,
        removals: hunk_lines_of_kind(hunks, DiffLineKind::Removal) as int,
        modifications: 0,
    }
}

/// Diff the contents of a file in the source and the destination.
pub fn diff_file(relative: &str, source_content: &str, dest_content: &str) -> (r: FileConfigDiff)
    requires
        source_content@.len() + 1 < usize::MAX,
        dest_content@.len() + 1 < usize::MAX,
    ensures
        r@ == file_diff_of(relative@, source_content@, dest_content@),
{
    let source_lines = lines_of(source_content);
    let dest_lines = lines_of(dest_content);
    proof {
        crate::text::lemma_text_lines_len(source_content@);
        crate::text::lemma_text_lines_len(dest_content@);
        lemma_unified_counts(text_lines(source_content@), text_lines(dest_content@), 0, 0, 0, 0, None);
    }
    let hunks = compute_unified_diff(&source_lines, &dest_lines);
    let additions = count_lines(&hunks, DiffLineKind::Addition);
    let removals = count_lines(&hunks, DiffLineKind::Removal);
    FileConfigDiff {
        relative_path: owned(relative),
        hunks,
        summary: DiffSummary { additions, removals, modifications: 0 },
    }
}

/// The differences of a file that only the destination has: one hunk that
/// removes every line.
pub open spec fn removal_diff_of(relative: Seq<char>, content: Seq<char>) -> FileDiffView {
    let lines = text_lines(content);
    FileDiffView {
        relative_path: relative,
        hunks: seq![
            HunkView {
                old_start: 1,
                new_start: 0,
                lines: Seq::new(
                    lines.len(),
                    |i: int|
                        LineView {
                            kind: DiffLineKind::Removal,
                            content: lines[i],
                            old_line: Some(i + 1),
                            new_line: None,
                        },
                ),
            },
        ],
        additions: 0,
        removals: lines.len() as int,
        modifications: 0,
    }
}

/// Create a diff for a file that was removed.
pub fn create_removal_diff(relative: &str, content: &str) -> (r: FileConfigDiff)
    requires
        content@.len() + 1 < usize::MAX,
    ensures
        r@ == removal_diff_of(relative@, content@),
{
    let lines = lines_of(content);
    proof {
        crate::text::lemma_text_lines_len(content@);
    }
    let ghost lv = views(lines@);
    let mut diff_lines: Vec<DiffLine> = Vec::new();
    let mut i: usize = 0;
    while i < lines.len()
        invariant
            i <= lines@.len(),
            lines@.len() < usize::MAX,
            lv == views(lines@),
            diff_lines.deep_view() == Seq::new(
                i as nat,
                |k: int|
                    LineView {
                        kind: DiffLineKind::Removal,
                        content: lv[k],
                        old_line: Some(k + 1),
                        new_line: None,
                    },
            ),
        decreases lines@.len() - i,
    {
        let l = DiffLine {
            kind: DiffLineKind::Removal,
            content: lines[i].clone(),
            old_line: Some(i + 1),
            new_line: None,
        };
        let ghost prev = diff_lines@;
        diff_lines.push(l);
        proof {
            lemma_deep_view_push(prev, diff_lines@, l);
        }
        i += 1;
        assert(diff_lines.deep_view() =~= Seq::new(
            i as nat,
            |k: int|
                LineView {
                    kind: DiffLineKind::Removal,
                    content: lv[k],
                    old_line: Some(k + 1),
                    new_line: None,
                },
        ));
    }
    let n = lines.len();
    let mut hunks: Vec<DiffHunk> = Vec::new();
    let h = DiffHunk { old_start: 1, new_start: 0, lines: diff_lines };
    hunks.push(h);
    let r = FileConfigDiff {
        relative_path: owned(relative),
        hunks,
        summary: DiffSummary { additions: 0, removals: n, modifications: 0 },
    };
    assert(r@.hunks =~= removal_diff_of(relative@, content@).hunks);
    r
}

/// A path kept for a configuration diff: it ends with one of the filters
/// (when filters are given).
pub open spec fn diff_path_selected(relative: Seq<char>, filters: Option<Seq<Seq<char>>>) -> bool {
    match filters {
        None => true,
        Some(fs) => ends_with_any(relative, fs),
    }
}

/// `relative` ends with one of `fs`.
pub open spec fn ends_with_any(relative: Seq<char>, fs: Seq<Seq<char>>) -> bool {
    exists|i: int| 0 <= i < fs.len() && is_suffix(#[trigger] fs[i], relative)
}

/// The texts of optional strings.
pub open spec fn opt_views(o: Option<Vec<String>>) -> Option<Seq<Seq<char>>> {
    match o {
        Some(v) => Some(views(v@)),
        None => None,
    }
}

/// Whether a path is kept for a configuration diff.
pub fn diff_path_matches(relative: &str, filters: &Option<Vec<String>>) -> (r: bool)
    ensures
        r == diff_path_selected(relative@, opt_views(*filters)),
{
    match filters {
        None => true,
        Some(fs) => {
            assert(opt_views(*filters) == Some(views(fs@)));
            let p = chars_of(relative);
            let mut i: usize = 0;
            while i < fs.len()
                invariant
                    i <= fs@.len(),
                    p@ == relative@,
                    opt_views(*filters) == Some(views(fs@)),
                    forall|j: int| 0 <= j < i ==> !is_suffix(#[trigger] views(fs@)[j], relative@),
                decreases fs@.len() - i,
            {
                let f = chars_of(fs[i].as_str());
                assert(views(fs@)[i as int] == fs@[i as int]@);
                if ends_with(p.as_slice(), f.as_slice()) {
                    let ghost vf = views(fs@);
                    assert(is_suffix(vf[i as int], relative@));
                    assert(0 <= i < vf.len());
                    assert(ends_with_any(relative@, vf));
                    return true;
                }
                i += 1;
            }
            false
        },
    }
}

/// A YAML file compared by configuration diffs: a `.yaml` or `.yml` file not
/// under a custom or test directory and not named like a secret.
pub open spec fn diffed_yaml_file(path: Seq<char>) -> bool {
    &&& (is_suffix(".yaml"@, path) || is_suffix(".yml"@, path))
    &&& !contains_sub(path, "/custom/"@)
    &&& !contains_sub(path, "/test/"@)
    &&& !contains_sub(path, "secret"@)
}

/// Whether a file is compared by configuration diffs.
pub fn is_diffed_yaml_file(path: &str) -> (r: bool)
    ensures
        r == diffed_yaml_file(path@),
{
    let p = chars_of(path);
    let yaml = chars_of(".yaml");
    let yml = chars_of(".yml");
    let custom = chars_of("/custom/");
    let test = chars_of("/test/");
    let secret = chars_of("secret");
    (ends_with(p.as_slice(), yaml.as_slice()) || ends_with(p.as_slice(), yml.as_slice()))
        && !crate::text::contains(p.as_slice(), custom.as_slice())
        && !crate::text::contains(p.as_slice(), test.as_slice())
        && !crate::text::contains(p.as_slice(), secret.as_slice())
}

/// The largest line number of the lines of a kind (their old numbers for
/// removals, new numbers otherwise); zero when there is none.
pub open spec fn last_line_number(lines: Seq<LineView>, kind: DiffLineKind) -> int
    decreases lines.len(),
{
    if lines.len() == 0 {
        0
    } else {
        let m = last_line_number(lines.drop_last(), kind);
        let l = lines.last();
        if l.kind == kind {
            let n = match (if kind == DiffLineKind::Removal { l.old_line } else { l.new_line }) {
                Some(x) => x,
                None => 0,
            };
            if n >= m {
                n
            } else {
                m
            }
        } else {
            m
        }
    }
}

/// The numbers of a hunk's header: the last old line it removes and the
/// last new line it adds (zero when it has none).
pub fn hunk_header_numbers(hunk: &DiffHunk) -> (r: (usize, usize))
    ensures
        r.0 as int == last_line_number(hunk@.lines, DiffLineKind::Removal),
        r.1 as int == last_line_number(hunk@.lines, DiffLineKind::Addition),
{
    let ghost lv = hunk.lines.deep_view();
    let mut removed: usize = 0;
    let mut added: usize = 0;
    let mut i: usize = 0;
    while i < hunk.lines.len()
        invariant
            i <= hunk.lines@.len(),
            lv == hunk.lines.deep_view(),
            removed as int == last_line_number(lv.take(i as int), DiffLineKind::Removal),
            added as int == last_line_number(lv.take(i as int), DiffLineKind::Addition),
        decreases hunk.lines@.len() - i,
    {
        assert(lv.take(i + 1).drop_last() =~= lv.take(i as int));
        assert(lv.take(i + 1).last() == hunk.lines@[i as int]@);
        let l = &hunk.lines[i];
        match l.kind {
            DiffLineKind::Removal => {
                let n = match l.old_line {
                    Some(x) => x,
                    None => 0,
                };
                if n >= removed {
                    removed = n;
                }
            },
            DiffLineKind::Addition => {
                let n = match l.new_line {
                    Some(x) => x,
                    None => 0,
                };
                if n >= added {
                    added = n;
                }
            },
            DiffLineKind::Context => {},
        }
        i += 1;
    }
    assert(lv.take(i as int) =~= lv);
    (removed, added)
}

} // verus!
