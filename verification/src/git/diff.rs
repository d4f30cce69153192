//! Line diffs of files between environments.
use vstd::prelude::*;
use crate::text::{cat, cat_views, contains_string, lines_of, owned, str_eq, text_lines, views};

verus! {

/// What happens to a file.
#[derive(PartialEq, Eq, Structural, Clone, Copy)]
pub enum DiffAction {
    Added,
    Modified,
    Removed,
    Unchanged,
}

/// A file with its contents before and after.
pub struct FileDiff {
    pub path: String,
    pub action: DiffAction,
    pub old_content: Option<String>,
    pub new_content: Option<String>,
}

impl FileDiff {
    /// A file that only the new side has.
    pub fn added(path: String, content: String) -> (r: Self)
        ensures
            r.path == path,
            r.action == DiffAction::Added,
            r.old_content is None,
            r.new_content == Some(content),
    {
        FileDiff { path, action: DiffAction::Added, old_content: None, new_content: Some(content) }
    }

    /// A file that only the old side has.
    pub fn removed(path: String, content: String) -> (r: Self)
        ensures
            r.path == path,
            r.action == DiffAction::Removed,
            r.old_content == Some(content),
            r.new_content is None,
    {
        FileDiff { path, action: DiffAction::Removed, old_content: Some(content), new_content: None }
    }

    /// A file whose content changed.
    pub fn modified(path: String, old: String, new: String) -> (r: Self)
        ensures
            r.path == path,
            r.action == DiffAction::Modified,
            r.old_content == Some(old),
            r.new_content == Some(new),
    {
        FileDiff { path, action: DiffAction::Modified, old_content: Some(old), new_content: Some(new) }
    }

    /// A file whose content is the same on both sides.
    pub fn unchanged(path: String, content: String) -> (r: Self)
        ensures
            r.path == path,
            r.action == DiffAction::Unchanged,
            r.old_content matches Some(c) && c@ == content@,
            r.new_content == Some(content),
    {
        FileDiff {
            path,
            action: DiffAction::Unchanged,
            old_content: Some(content.clone()),
            new_content: Some(content),
        }
    }
}

/// The diff lines from positions `i` of `old` and `j` of `new` on: equal
/// lines are kept; a line only one side has is added or removed; lines that
/// both sides have elsewhere are replaced.
pub open spec fn simple_diff_from(old: Seq<Seq<char>>, new: Seq<Seq<char>>, i: int, j: int) -> Seq<Seq<char>>
    decreases (old.len() - i) + (new.len() - j),
{
    if i < 0 || j < 0 || i > old.len() || j > new.len() || !(i < old.len() || j < new.len()) {
        Seq::empty()
    } else if i < old.len() && j < new.len() && old[i] == new[j] {
        seq![" "@ + old[i]] + simple_diff_from(old, new, i + 1, j + 1)
    } else if j < new.len() && (i >= old.len() || !old.contains(new[j])) {
        seq!["+"@ + new[j]] + simple_diff_from(old, new, i, j + 1)
    } else if i < old.len() && (j >= new.len() || !new.contains(old[i])) {
        seq!["-"@ + old[i]] + simple_diff_from(old, new, i + 1, j)
    } else if i < old.len() && j < new.len() {
        seq!["-"@ + old[i], "+"@ + new[j]] + simple_diff_from(old, new, i + 1, j + 1)
    } else if i < old.len() {
        seq!["-"@ + old[i]] + simple_diff_from(old, new, i + 1, j)
    } else {
        seq!["+"@ + new[j]] + simple_diff_from(old, new, i, j + 1)
    }
}

/// A line with a one-character mark in front.
fn marked(mark: &str, line: &str) -> (r: String)
    ensures
        r@ == mark@ + line@,
{
    crate::text::concat(mark, line)
}

/// The diff lines of two texts, line by line.
pub fn simple_diff(old: &Vec<String>, new: &Vec<String>) -> (r: Vec<String>)
    ensures
        views(r@) == simple_diff_from(views(old@), views(new@), 0, 0),
{
    let ghost o = views(old@);
    let ghost n = views(new@);
    let mut result: Vec<String> = Vec::new();
    let mut i: usize = 0;
    let mut j: usize = 0;
    while i < old.len() || j < new.len()
        invariant
            i <= old@.len(),
            j <= new@.len(),
            o == views(old@),
            n == views(new@),
            views(result@) + simple_diff_from(o, n, i as int, j as int) == simple_diff_from(o, n, 0, 0),
        decreases (old@.len() - i) + (new@.len() - j),
    {
        let ghost rest = simple_diff_from(o, n, i as int, j as int);
        let ghost before = views(result@);
        if i < old.len() && j < new.len() && str_eq(old[i].as_str(), new[j].as_str()) {
            result.push(marked(" ", old[i].as_str()));
            i += 1;
            j += 1;
        } else if j < new.len() && (i >= old.len() || !contains_string(old, new[j].as_str())) {
            result.push(marked("+", new[j].as_str()));
            j += 1;
        } else if i < old.len() && (j >= new.len() || !contains_string(new, old[i].as_str())) {
            result.push(marked("-", old[i].as_str()));
            i += 1;
        } else if i < old.len() && j < new.len() {
            result.push(marked("-", old[i].as_str()));
            result.push(marked("+", new[j].as_str()));
            i += 1;
            j += 1;
        } else if i < old.len() {
            result.push(marked("-", old[i].as_str()));
            i += 1;
        } else {
            result.push(marked("+", new[j].as_str()));
            j += 1;
        }
        assert(views(result@) + simple_diff_from(o, n, i as int, j as int) =~= before + rest);
    }
    assert(views(result@) =~= simple_diff_from(o, n, 0, 0));
    result
}

/// The diff of two optional texts: every line added when only the new one
/// exists, every line removed when only the old one does, and a headed
/// line diff when both do.
pub open spec fn diff_of(old: Option<Seq<char>>, new: Option<Seq<char>>) -> Seq<Seq<char>> {
    match (old, new) {
        (None, Some(n)) => text_lines(n).map_values(|l: Seq<char>| "+"@ + l),
        (Some(o), None) => text_lines(o).map_values(|l: Seq<char>| "-"@ + l),
        (Some(o), Some(n)) => seq!["--- old"@, "+++ new"@] + simple_diff_from(
            text_lines(o),
            text_lines(n),
            0,
            0,
        ),
        (None, None) => Seq::empty(),
    }
}

/// Every line of `lines` with `mark` in front.
fn mark_all(lines: &Vec<String>, mark: &str) -> (r: Vec<String>)
    ensures
        views(r@) == views(lines@).map_values(|l: Seq<char>| mark@ + l),
{
    let mut r: Vec<String> = Vec::new();
    let mut i: usize = 0;
    while i < lines.len()
        invariant
            i <= lines@.len(),
            views(r@) == views(lines@).take(i as int).map_values(|l: Seq<char>| mark@ + l),
        decreases lines@.len() - i,
    {
        let ghost prev = r@;
        let m = marked(mark, lines[i].as_str());
        r.push(m);
        assert(views(r@) =~= views(prev).push(mark@ + lines@[i as int]@));
        assert(views(lines@).take(i + 1) =~= views(lines@).take(i as int).push(lines@[i as int]@));
        i += 1;
        assert(views(r@) =~= views(lines@).take(i as int).map_values(|l: Seq<char>| mark@ + l));
    }
    assert(views(lines@).take(i as int) =~= views(lines@));
    r
}

/// The optional text's view.
pub open spec fn opt_text(o: Option<&str>) -> Option<Seq<char>> {
    match o {
        Some(s) => Some(s@),
        None => None,
    }
}

/// Compute the line diff of a file's old and new content.
pub fn compute_diff(old: Option<&str>, new: Option<&str>) -> (r: Vec<String>)
    ensures
        views(r@) == diff_of(opt_text(old), opt_text(new)),
{
    match (old, new) {
        (None, Some(n)) => {
            let lines = lines_of(n);
            mark_all(&lines, "+")
        },
        (Some(o), None) => {
            let lines = lines_of(o);
            mark_all(&lines, "-")
        },
        (Some(o), Some(n)) => {
            let old_lines = lines_of(o);
            let new_lines = lines_of(n);
            let mut output: Vec<String> = Vec::new();
            output.push(owned("--- old"));
            output.push(owned("+++ new"));
            let diff = simple_diff(&old_lines, &new_lines);
            let mut k: usize = 0;
            let ghost head = views(output@);
            while k < diff.len()
                invariant
                    k <= diff@.len(),
                    views(output@) == head + views(diff@).take(k as int),
                decreases diff@.len() - k,
            {
                let ghost prev = output@;
                output.push(diff[k].clone());
                assert(views(output@) =~= views(prev).push(diff@[k as int]@));
                k += 1;
                assert(views(output@) =~= head + views(diff@).take(k as int));
            }
            assert(views(diff@).take(k as int) =~= views(diff@));
            assert(head =~= seq!["--- old"@, "+++ new"@]);
            output
        },
        (None, None) => Vec::new(),
    }
}

} // verus!
verus! {

/// How a diff line is shown.
#[derive(PartialEq, Eq, Structural, Clone, Copy)]
pub enum LineStyle {
    Added,
    Removed,
    Hunk,
    Plain,
}

/// How a diff line is shown: additions and removals (but not the `+++` and
/// `---` headers) and hunk headers stand out.
pub open spec fn line_style(line: Seq<char>) -> LineStyle {
    if line.len() > 0 && line[0] == '+' && !(line.len() > 1 && line[1] == '+') {
        LineStyle::Added
    } else if line.len() > 0 && line[0] == '-' && !(line.len() > 1 && line[1] == '-') {
        LineStyle::Removed
    } else if line.len() > 1 && line[0] == '@' && line[1] == '@' {
        LineStyle::Hunk
    } else {
        LineStyle::Plain
    }
}

/// How a diff line is shown.
pub fn diff_line_style(line: &str) -> (r: LineStyle)
    ensures
        r == line_style(line@),
{
    let c = crate::text::chars_of(line);
    let n = c.len();
    if n > 0 && c[0] == '+' && !(n > 1 && c[1] == '+') {
        LineStyle::Added
    } else if n > 0 && c[0] == '-' && !(n > 1 && c[1] == '-') {
        LineStyle::Removed
    } else if n > 1 && c[0] == '@' && c[1] == '@' {
        LineStyle::Hunk
    } else {
        LineStyle::Plain
    }
}

/// The lines of a diff that the old side had, marks dropped: kept lines
/// (` `) and removed lines (`-`), in order.
pub open spec fn old_side(d: Seq<Seq<char>>) -> Seq<Seq<char>>
    decreases d.len(),
{
    if d.len() == 0 {
        Seq::empty()
    } else if d[0].len() > 0 && (d[0][0] == ' ' || d[0][0] == '-') {
        seq![d[0].drop_first()] + old_side(d.drop_first())
    } else {
        old_side(d.drop_first())
    }
}

/// The lines of a diff that the new side has, marks dropped: kept lines
/// (` `) and added lines (`+`), in order.
pub open spec fn new_side(d: Seq<Seq<char>>) -> Seq<Seq<char>>
    decreases d.len(),
{
    if d.len() == 0 {
        Seq::empty()
    } else if d[0].len() > 0 && (d[0][0] == ' ' || d[0][0] == '+') {
        seq![d[0].drop_first()] + new_side(d.drop_first())
    } else {
        new_side(d.drop_first())
    }
}

/// Both sides of two diffs one after the other are the sides of each.
proof fn lemma_sides_concat(a: Seq<Seq<char>>, b: Seq<Seq<char>>)
    ensures
        old_side(a + b) == old_side(a) + old_side(b),
        new_side(a + b) == new_side(a) + new_side(b),
    decreases a.len(),
{
    if a.len() == 0 {
        assert(a + b =~= b);
    } else {
        lemma_sides_concat(a.drop_first(), b);
        assert((a + b).drop_first() =~= a.drop_first() + b);
        assert((a + b)[0] == a[0]);
    }
}

/// The sides of one marked line: a kept line is on both sides, a removed
/// line on the old side only, an added line on the new side only.
proof fn lemma_sides_of_line(c: char, x: Seq<char>)
    requires
        c == ' ' || c == '-' || c == '+',
    ensures
        old_side(seq![seq![c] + x]) == (if c == ' ' || c == '-' { seq![x] } else { Seq::empty() }),
        new_side(seq![seq![c] + x]) == (if c == ' ' || c == '+' { seq![x] } else { Seq::empty() }),
{
    let d = seq![seq![c] + x];
    assert(d.drop_first() =~= Seq::<Seq<char>>::empty());
    assert(old_side(Seq::<Seq<char>>::empty()) == Seq::<Seq<char>>::empty());
    assert(new_side(Seq::<Seq<char>>::empty()) == Seq::<Seq<char>>::empty());
    assert(d[0][0] == c);
    assert(d[0].drop_first() =~= x);
    assert(seq![x] + Seq::<Seq<char>>::empty() =~= seq![x]);
}

/// The sides of the marked lines from positions `i` and `j` on are the rest
/// of each side, and there are no more of them than lines left.
proof fn lemma_simple_diff_sides(old: Seq<Seq<char>>, new: Seq<Seq<char>>, i: int, j: int)
    requires
        0 <= i <= old.len(),
        0 <= j <= new.len(),
    ensures
        old_side(simple_diff_from(old, new, i, j)) == old.subrange(i, old.len() as int),
        new_side(simple_diff_from(old, new, i, j)) == new.subrange(j, new.len() as int),
        simple_diff_from(old, new, i, j).len() <= (old.len() - i) + (new.len() - j),
    decreases (old.len() - i) + (new.len() - j),
{
    reveal_strlit(" ");
    reveal_strlit("+");
    reveal_strlit("-");
    assert(" "@ =~= seq![' ']);
    assert("+"@ =~= seq!['+']);
    assert("-"@ =~= seq!['-']);
    let os = old.subrange(i, old.len() as int);
    let ns = new.subrange(j, new.len() as int);
    if !(i < old.len() || j < new.len()) {
        assert(os =~= Seq::<Seq<char>>::empty());
        assert(ns =~= Seq::<Seq<char>>::empty());
        assert(old_side(Seq::<Seq<char>>::empty()) == Seq::<Seq<char>>::empty());
        assert(new_side(Seq::<Seq<char>>::empty()) == Seq::<Seq<char>>::empty());
    } else {
        if i < old.len() {
            assert(os =~= seq![old[i]] + old.subrange(i + 1, old.len() as int));
        }
        if j < new.len() {
            assert(ns =~= seq![new[j]] + new.subrange(j + 1, new.len() as int));
        }
        if i < old.len() && j < new.len() && old[i] == new[j] {
            let rest = simple_diff_from(old, new, i + 1, j + 1);
            lemma_simple_diff_sides(old, new, i + 1, j + 1);
            lemma_sides_of_line(' ', old[i]);
            lemma_sides_concat(seq![seq![' '] + old[i]], rest);
        } else if j < new.len() && (i >= old.len() || !old.contains(new[j])) {
            let rest = simple_diff_from(old, new, i, j + 1);
            lemma_simple_diff_sides(old, new, i, j + 1);
            lemma_sides_of_line('+', new[j]);
            lemma_sides_concat(seq![seq!['+'] + new[j]], rest);
            assert(Seq::<Seq<char>>::empty() + os =~= os);
        } else if i < old.len() && (j >= new.len() || !new.contains(old[i])) {
            let rest = simple_diff_from(old, new, i + 1, j);
            lemma_simple_diff_sides(old, new, i + 1, j);
            lemma_sides_of_line('-', old[i]);
            lemma_sides_concat(seq![seq!['-'] + old[i]], rest);
            assert(Seq::<Seq<char>>::empty() + ns =~= ns);
        } else if i < old.len() && j < new.len() {
            let rest = simple_diff_from(old, new, i + 1, j + 1);
            lemma_simple_diff_sides(old, new, i + 1, j + 1);
            lemma_sides_of_line('-', old[i]);
            lemma_sides_of_line('+', new[j]);
            let a = seq![seq!['-'] + old[i]];
            let b = seq![seq!['+'] + new[j]];
            assert(seq![seq!['-'] + old[i], seq!['+'] + new[j]] =~= a + b);
            lemma_sides_concat(a, b);
            lemma_sides_concat(a + b, rest);
            assert(seq![old[i]] + Seq::<Seq<char>>::empty() =~= seq![old[i]]);
            assert(Seq::<Seq<char>>::empty() + seq![new[j]] =~= seq![new[j]]);
        } else if i < old.len() {
            let rest = simple_diff_from(old, new, i + 1, j);
            lemma_simple_diff_sides(old, new, i + 1, j);
            lemma_sides_of_line('-', old[i]);
            lemma_sides_concat(seq![seq!['-'] + old[i]], rest);
            assert(Seq::<Seq<char>>::empty() + ns =~= ns);
        } else {
            let rest = simple_diff_from(old, new, i, j + 1);
            lemma_simple_diff_sides(old, new, i, j + 1);
            lemma_sides_of_line('+', new[j]);
            lemma_sides_concat(seq![seq!['+'] + new[j]], rest);
            assert(Seq::<Seq<char>>::empty() + os =~= os);
        }
    }
}

/// The line diff of two texts (what `compute_diff` returns when both
/// exist), after its two heading lines `--- old` and `+++ new`, marks every
/// line of each text once: the kept and removed lines, marks dropped, are
/// the old text's lines in order, the kept and added lines the new text's,
/// and there are no more marked lines than the two texts have together.
pub proof fn line_diff_covers_both_texts(o: Seq<char>, n: Seq<char>)
    ensures
        diff_of(Some(o), Some(n)).len() >= 2,
        diff_of(Some(o), Some(n))[0] == "--- old"@,
        diff_of(Some(o), Some(n))[1] == "+++ new"@,
        old_side(diff_of(Some(o), Some(n)).skip(2)) == text_lines(o),
        new_side(diff_of(Some(o), Some(n)).skip(2)) == text_lines(n),
        diff_of(Some(o), Some(n)).skip(2).len() <= text_lines(o).len() + text_lines(n).len(),
{
    let b = simple_diff_from(text_lines(o), text_lines(n), 0, 0);
    lemma_simple_diff_sides(text_lines(o), text_lines(n), 0, 0);
    assert(diff_of(Some(o), Some(n)).skip(2) =~= b);
    assert(text_lines(o).subrange(0, text_lines(o).len() as int) =~= text_lines(o));
    assert(text_lines(n).subrange(0, text_lines(n).len() as int) =~= text_lines(n));
}

} // verus!
