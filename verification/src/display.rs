//! What a promotion prints: lines of text pieces, each piece with the tone
//! the terminal shows it in.
use vstd::prelude::*;
use crate::config::OutputLevel;
use crate::text::{decimal, decimal_string, insert_sorted_unique, lemma_is_sorted_set, sorted_set, strictly_sorted, views};
use crate::versions::models::{ConfigDiff, DiffHunk, DiffLine, DiffLineKind, FileConfigDiff, VersionChangeKind, VersionChangeSummary};
use crate::versions::config_diff::{hunk_header_numbers, hunk_lines_of_kind, last_line_number, lines_of_kind, FileDiffView, HunkView, LineView};

verus! {

/// What a promotion did, or would do in a dry run.
pub struct PromotionOutputData {
    pub copied_files: Vec<String>,
    pub deleted_files: Vec<String>,
    pub version_changes: Vec<VersionChangeSummary>,
    pub sources: Vec<String>,
    pub dest: String,
    pub dry_run: bool,
}

/// The tone a piece of text is shown in.
#[derive(PartialEq, Eq, Structural, Clone, Copy)]
pub enum Tone {
    Plain,
    Green,
    Red,
    Yellow,
    Cyan,
    White,
    Dim,
}

/// A piece of a printed line.
pub struct Piece {
    pub text: String,
    pub tone: Tone,
}

/// A printed line as text pieces with their tones.
pub open spec fn line_view(line: Seq<Piece>) -> Seq<(Seq<char>, Tone)> {
    line.map_values(|p: Piece| (p.text@, p.tone))
}

/// Printed lines as text pieces with their tones.
pub open spec fn lines_view(lines: Seq<Vec<Piece>>) -> Seq<Seq<(Seq<char>, Tone)>> {
    lines.map_values(|l: Vec<Piece>| line_view(l@))
}

/// A line of one plain piece.
pub open spec fn plain(t: Seq<char>) -> Seq<(Seq<char>, Tone)> {
    seq![(t, Tone::Plain)]
}

/// The list of copied files.
pub open spec fn copied_block(files: Seq<String>) -> Seq<Seq<(Seq<char>, Tone)>> {
    if files.len() == 0 {
        Seq::empty()
    } else {
        seq![plain("Copied:"@)] + files.map_values(|f: String| seq![("  "@, Tone::Plain), (f@, Tone::Green)])
    }
}

/// A count line of the summary.
pub open spec fn count_line(n: nat, tone: Tone, words: Seq<char>) -> Seq<(Seq<char>, Tone)> {
    seq![("  "@, Tone::Plain), (decimal(n), tone), (words, Tone::Plain)]
}

/// The summary: files copied, versions updated, files deleted, each when
/// there are some.
pub open spec fn summary_block(d: PromotionOutputData) -> Seq<Seq<(Seq<char>, Tone)>> {
    seq![plain("Summary:"@)] + (if d.copied_files@.len() > 0 {
        seq![count_line(d.copied_files@.len(), Tone::Green, " files copied"@)]
    } else {
        Seq::empty()
    }) + (if d.version_changes@.len() > 0 {
        seq![count_line(d.version_changes@.len(), Tone::Cyan, " versions updated"@)]
    } else {
        Seq::empty()
    }) + (if d.deleted_files@.len() > 0 {
        seq![count_line(d.deleted_files@.len(), Tone::Red, " files deleted"@)]
    } else {
        Seq::empty()
    })
}

/// The heading of a verbose report.
pub open spec fn header_line(d: PromotionOutputData) -> Seq<(Seq<char>, Tone)> {
    if d.sources@.len() == 1 {
        seq![("Comparing "@, Tone::Plain), (d.sources@[0]@, Tone::Cyan), (" -> "@, Tone::Plain), (d.dest@, Tone::Yellow)]
    } else {
        seq![
            ("Comparing "@, Tone::Plain),
            (decimal(d.sources@.len()), Tone::Cyan),
            (" sources -> "@, Tone::Plain),
            (d.dest@, Tone::Yellow),
        ]
    }
}

/// The old and new version of a change, with the arrow between.
pub open spec fn change_tail(c: VersionChangeSummary) -> Seq<(Seq<char>, Tone)> {
    seq![(c.before@, Tone::Red), (" "@, Tone::Plain), ("→"@, Tone::Cyan), (" "@, Tone::Plain), (c.after@, Tone::Green)]
}

/// A line of the plain list of version updates.
pub open spec fn update_line(c: VersionChangeSummary) -> Seq<(Seq<char>, Tone)> {
    seq![("  "@, Tone::Plain), (c.name@, Tone::White), (": "@, Tone::Plain)] + change_tail(c)
}

/// The plain list of version updates.
pub open spec fn updates_block(changes: Seq<VersionChangeSummary>) -> Seq<Seq<(Seq<char>, Tone)>> {
    seq![plain("Version updates:"@)] + changes.map_values(|c: VersionChangeSummary| update_line(c))
}

/// The word for a kind of version change.
pub open spec fn kind_label(k: VersionChangeKind) -> Seq<char> {
    match k {
        VersionChangeKind::HelmChart => "chart"@,
        VersionChangeKind::ContainerImage => "image"@,
    }
}

/// A line of the structured list of version updates.
pub open spec fn structured_line(c: VersionChangeSummary) -> Seq<(Seq<char>, Tone)> {
    seq![
        ("    "@, Tone::Plain),
        (c.name@, Tone::White),
        (" ("@, Tone::Plain),
        (kind_label(c.kind), Tone::Plain),
        ("): "@, Tone::Plain),
    ] + change_tail(c)
}

/// The lines of the changes of one component, in order.
pub open spec fn component_changes(changes: Seq<VersionChangeSummary>, component: Seq<char>) -> Seq<Seq<(Seq<char>, Tone)>>
    decreases changes.len(),
{
    if changes.len() == 0 {
        Seq::empty()
    } else {
        let rest = component_changes(changes.drop_last(), component);
        if changes.last().component@ == component {
            rest.push(structured_line(changes.last()))
        } else {
            rest
        }
    }
}

/// The components of some changes.
pub open spec fn change_components(changes: Seq<VersionChangeSummary>) -> Set<Seq<char>> {
    changes.map_values(|c: VersionChangeSummary| c.component@).to_set()
}

/// The groups of the structured list, one per component in order.
pub open spec fn component_groups(comps: Seq<Seq<char>>, changes: Seq<VersionChangeSummary>) -> Seq<Seq<(Seq<char>, Tone)>>
    decreases comps.len(),
{
    if comps.len() == 0 {
        Seq::empty()
    } else {
        component_groups(comps.drop_last(), changes) + seq![
            seq![("  "@, Tone::Plain), (comps.last(), Tone::Yellow), (":"@, Tone::Plain)],
        ] + component_changes(changes, comps.last())
    }
}

/// The structured list of version updates, grouped by component in
/// increasing order, then a blank line; nothing without changes.
pub open spec fn structured_block(changes: Seq<VersionChangeSummary>) -> Seq<Seq<(Seq<char>, Tone)>> {
    if changes.len() == 0 {
        Seq::empty()
    } else {
        seq![plain("Structured Version Updates:"@)] + component_groups(sorted_set(change_components(changes)), changes)
            + seq![Seq::empty()]
    }
}

/// The report of a promotion at an output level.
pub open spec fn report_of(d: PromotionOutputData, level: OutputLevel) -> Seq<Seq<(Seq<char>, Tone)>> {
    if d.copied_files@.len() == 0 && d.deleted_files@.len() == 0 && d.version_changes@.len() == 0 {
        seq![plain("No changes to promote"@)]
    } else {
        let body = match level {
            OutputLevel::Minimal => summary_block(d),
            OutputLevel::Normal => copied_block(d.copied_files@) + seq![Seq::empty()] + summary_block(d) + (
            if d.version_changes@.len() > 0 {
                seq![Seq::empty()] + updates_block(d.version_changes@)
            } else {
                Seq::empty()
            }),
            OutputLevel::Verbose => seq![header_line(d), Seq::empty()] + copied_block(d.copied_files@)
                + seq![Seq::empty()] + structured_block(d.version_changes@) + summary_block(d),
        };
        body + (if d.dry_run {
            seq![Seq::empty(), plain("Dry run complete. No files were modified."@)]
        } else {
            Seq::empty()
        })
    }
}

/// A piece of text.
fn piece(text: &str, tone: Tone) -> (r: Piece)
    ensures
        r.text@ == text@,
        r.tone == tone,
{
    Piece { text: crate::text::owned(text), tone }
}

/// Appends `more` to `lines`.
fn extend(lines: &mut Vec<Vec<Piece>>, more: Vec<Vec<Piece>>)
    ensures
        lines_view(final(lines)@) == lines_view(old(lines)@) + lines_view(more@),
{
    let ghost start = lines@;
    let mut more = more;
    let ghost all = more@;
    lines.append(&mut more);
    assert(lines_view(lines@) =~= lines_view(start) + lines_view(all));
}


/// A line of one plain piece.
fn plain_line(text: &str) -> (r: Vec<Piece>)
    ensures
        line_view(r@) == plain(text@),
{
    let r = vec![piece(text, Tone::Plain)];
    assert(line_view(r@) =~= plain(text@));
    r
}

/// The list of copied files.
fn copied_lines(files: &Vec<String>) -> (r: Vec<Vec<Piece>>)
    ensures
        lines_view(r@) == copied_block(files@),
{
    let mut r: Vec<Vec<Piece>> = Vec::new();
    if files.len() == 0 {
        assert(lines_view(r@) =~= copied_block(files@));
        return r;
    }
    r.push(plain_line("Copied:"));
    let mut i: usize = 0;
    let ghost rows = files@.map_values(|f: String| seq![("  "@, Tone::Plain), (f@, Tone::Green)]);
    assert(lines_view(r@) =~= seq![plain("Copied:"@)] + rows.take(0));
    while i < files.len()
        invariant
            i <= files@.len(),
            rows == files@.map_values(|f: String| seq![("  "@, Tone::Plain), (f@, Tone::Green)]),
            lines_view(r@) == seq![plain("Copied:"@)] + rows.take(i as int),
        decreases files@.len() - i,
    {
        let line = vec![piece("  ", Tone::Plain), Piece { text: files[i].clone(), tone: Tone::Green }];
        let ghost prev = r@;
        r.push(line);
        proof {
            assert(r@.drop_last() =~= prev);
            assert(line_view(line@) =~= rows[i as int]);
            assert(lines_view(r@) =~= lines_view(prev).push(line_view(line@)));
            assert(rows.take(i + 1) =~= rows.take(i as int).push(rows[i as int]));
        }
        i += 1;
    }
    assert(rows.take(i as int) =~= rows);
    r
}

/// A count line of the summary.
fn count_line_of(n: usize, tone: Tone, words: &str) -> (r: Vec<Piece>)
    ensures
        line_view(r@) == count_line(n as nat, tone, words@),
{
    let r = vec![
        piece("  ", Tone::Plain),
        Piece { text: decimal_string(n as u64), tone },
        piece(words, Tone::Plain),
    ];
    assert(line_view(r@) =~= count_line(n as nat, tone, words@));
    r
}

/// The summary of a promotion.
fn summary_lines(d: &PromotionOutputData) -> (r: Vec<Vec<Piece>>)
    ensures
        lines_view(r@) == summary_block(*d),
{
    let mut r: Vec<Vec<Piece>> = Vec::new();
    r.push(plain_line("Summary:"));
    if d.copied_files.len() > 0 {
        r.push(count_line_of(d.copied_files.len(), Tone::Green, " files copied"));
    }
    if d.version_changes.len() > 0 {
        r.push(count_line_of(d.version_changes.len(), Tone::Cyan, " versions updated"));
    }
    if d.deleted_files.len() > 0 {
        r.push(count_line_of(d.deleted_files.len(), Tone::Red, " files deleted"));
    }
    assert(lines_view(r@) =~= summary_block(*d));
    r
}

/// The heading of a verbose report.
fn header_of(d: &PromotionOutputData) -> (r: Vec<Piece>)
    ensures
        line_view(r@) == header_line(*d),
{
    let r = if d.sources.len() == 1 {
        vec![
            piece("Comparing ", Tone::Plain),
            Piece { text: d.sources[0].clone(), tone: Tone::Cyan },
            piece(" -> ", Tone::Plain),
            Piece { text: d.dest.clone(), tone: Tone::Yellow },
        ]
    } else {
        vec![
            piece("Comparing ", Tone::Plain),
            Piece { text: decimal_string(d.sources.len() as u64), tone: Tone::Cyan },
            piece(" sources -> ", Tone::Plain),
            Piece { text: d.dest.clone(), tone: Tone::Yellow },
        ]
    };
    assert(line_view(r@) =~= header_line(*d));
    r
}

/// The old and new version of a change, after `head`.
fn with_change_tail(head: Vec<Piece>, c: &VersionChangeSummary) -> (r: Vec<Piece>)
    ensures
        line_view(r@) == line_view(head@) + change_tail(*c),
{
    let mut r = head;
    let ghost start = line_view(r@);
    r.push(Piece { text: c.before.clone(), tone: Tone::Red });
    r.push(piece(" ", Tone::Plain));
    r.push(piece("→", Tone::Cyan));
    r.push(piece(" ", Tone::Plain));
    r.push(Piece { text: c.after.clone(), tone: Tone::Green });
    assert(line_view(r@) =~= start + change_tail(*c));
    r
}

/// The plain list of version updates.
fn update_lines(changes: &Vec<VersionChangeSummary>) -> (r: Vec<Vec<Piece>>)
    ensures
        lines_view(r@) == updates_block(changes@),
{
    let mut r: Vec<Vec<Piece>> = Vec::new();
    r.push(plain_line("Version updates:"));
    let ghost rows = changes@.map_values(|c: VersionChangeSummary| update_line(c));
    assert(lines_view(r@) =~= seq![plain("Version updates:"@)] + rows.take(0));
    let mut i: usize = 0;
    while i < changes.len()
        invariant
            i <= changes@.len(),
            rows == changes@.map_values(|c: VersionChangeSummary| update_line(c)),
            lines_view(r@) == seq![plain("Version updates:"@)] + rows.take(i as int),
        decreases changes@.len() - i,
    {
        let c = &changes[i];
        let head = vec![piece("  ", Tone::Plain), Piece { text: c.name.clone(), tone: Tone::White }, piece(": ", Tone::Plain)];
        assert(line_view(head@) =~= seq![("  "@, Tone::Plain), (c.name@, Tone::White), (": "@, Tone::Plain)]);
        let line = with_change_tail(head, c);
        let ghost prev = r@;
        r.push(line);
        proof {
            assert(r@.drop_last() =~= prev);
            assert(lines_view(r@) =~= lines_view(prev).push(line_view(line@)));
            assert(rows.take(i + 1) =~= rows.take(i as int).push(rows[i as int]));
        }
        i += 1;
    }
    assert(rows.take(i as int) =~= rows);
    r
}

/// The word for a kind of version change.
fn kind_word(k: VersionChangeKind) -> (r: &'static str)
    ensures
        r@ == kind_label(k),
{
    match k {
        VersionChangeKind::HelmChart => "chart",
        VersionChangeKind::ContainerImage => "image",
    }
}

/// The lines of the changes of one component, in order.
fn component_lines(changes: &Vec<VersionChangeSummary>, component: &str) -> (r: Vec<Vec<Piece>>)
    ensures
        lines_view(r@) == component_changes(changes@, component@),
{
    let mut r: Vec<Vec<Piece>> = Vec::new();
    let mut i: usize = 0;
    assert(lines_view(r@) =~= component_changes(changes@.take(0), component@));
    while i < changes.len()
        invariant
            i <= changes@.len(),
            lines_view(r@) == component_changes(changes@.take(i as int), component@),
        decreases changes@.len() - i,
    {
        proof {
            assert(changes@.take(i + 1).drop_last() =~= changes@.take(i as int));
        }
        let c = &changes[i];
        if crate::text::str_eq(c.component.as_str(), component) {
            let head = vec![
                piece("    ", Tone::Plain),
                Piece { text: c.name.clone(), tone: Tone::White },
                piece(" (", Tone::Plain),
                piece(kind_word(c.kind), Tone::Plain),
                piece("): ", Tone::Plain),
            ];
            assert(line_view(head@) =~= seq![
                ("    "@, Tone::Plain),
                (c.name@, Tone::White),
                (" ("@, Tone::Plain),
                (kind_label(c.kind), Tone::Plain),
                ("): "@, Tone::Plain),
            ]);
            let line = with_change_tail(head, c);
            let ghost prev = r@;
            r.push(line);
            proof {
                assert(r@.drop_last() =~= prev);
                assert(lines_view(r@) =~= lines_view(prev).push(line_view(line@)));
            }
        }
        i += 1;
    }
    assert(changes@.take(i as int) =~= changes@);
    r
}

/// The structured list of version updates.
fn structured_lines(changes: &Vec<VersionChangeSummary>) -> (r: Vec<Vec<Piece>>)
    ensures
        lines_view(r@) == structured_block(changes@),
{
    let mut r: Vec<Vec<Piece>> = Vec::new();
    if changes.len() == 0 {
        assert(lines_view(r@) =~= structured_block(changes@));
        return r;
    }
    let mut comps: Vec<String> = Vec::new();
    let ghost names = changes@.map_values(|c: VersionChangeSummary| c.component@);
    let mut i: usize = 0;
    assert(views(comps@).to_set() =~= names.take(0).to_set());
    while i < changes.len()
        invariant
            i <= changes@.len(),
            names == changes@.map_values(|c: VersionChangeSummary| c.component@),
            strictly_sorted(views(comps@)),
            views(comps@).to_set() == names.take(i as int).to_set(),
        decreases changes@.len() - i,
    {
        insert_sorted_unique(&mut comps, changes[i].component.clone());
        proof {
            assert(names.take(i + 1) =~= names.take(i as int).push(names[i as int]));
            names.take(i as int).lemma_push_to_set_commute(names[i as int]);
        }
        i += 1;
    }
    proof {
        assert(names.take(i as int) =~= names);
        lemma_is_sorted_set(views(comps@));
    }
    r.push(plain_line("Structured Version Updates:"));
    let ghost head = lines_view(r@);
    let mut k: usize = 0;
    assert(lines_view(r@) =~= head + component_groups(views(comps@).take(0), changes@));
    while k < comps.len()
        invariant
            k <= comps@.len(),
            lines_view(r@) == head + component_groups(views(comps@).take(k as int), changes@),
        decreases comps@.len() - k,
    {
        proof {
            assert(views(comps@).take(k + 1).drop_last() =~= views(comps@).take(k as int));
        }
        let title = vec![
            piece("  ", Tone::Plain),
            Piece { text: comps[k].clone(), tone: Tone::Yellow },
            piece(":", Tone::Plain),
        ];
        let ghost prev = r@;
        proof {
            assert(line_view(title@) =~= seq![("  "@, Tone::Plain), (comps@[k as int]@, Tone::Yellow), (":"@, Tone::Plain)]);
            assert(views(comps@).take(k + 1).last() == comps@[k as int]@);
        }
        r.push(title);
        proof {
            assert(r@.drop_last() =~= prev);
            assert(lines_view(r@) =~= lines_view(prev).push(line_view(title@)));
        }
        let group = component_lines(changes, comps[k].as_str());
        let ghost mid = lines_view(r@);
        extend(&mut r, group);
        proof {
            assert(lines_view(r@) == mid + component_changes(changes@, comps@[k as int]@));
            assert(component_groups(views(comps@).take(k + 1), changes@) =~= component_groups(views(comps@).take(k as int), changes@) + seq![line_view(title@)] + component_changes(changes@, comps@[k as int]@));
        }
        k += 1;
        proof {
            assert(lines_view(r@) =~= head + component_groups(views(comps@).take(k as int), changes@));
        }
    }
    assert(views(comps@).take(k as int) =~= views(comps@));
    proof {
        assert(change_components(changes@) == views(comps@).to_set());
        assert(sorted_set(change_components(changes@)) == views(comps@));
    }
    let ghost before_blank = r@;
    let blank: Vec<Piece> = Vec::new();
    r.push(blank);
    proof {
        assert(r@.drop_last() =~= before_blank);
        assert(line_view(blank@) =~= Seq::<(Seq<char>, Tone)>::empty());
        assert(lines_view(r@) =~= lines_view(before_blank).push(Seq::<(Seq<char>, Tone)>::empty()));
    }
    assert(lines_view(r@) =~= structured_block(changes@));
    r
}

/// Appends one line.
fn push_line(lines: &mut Vec<Vec<Piece>>, line: Vec<Piece>)
    ensures
        lines_view(final(lines)@) == lines_view(old(lines)@).push(line_view(line@)),
{
    let ghost prev = lines@;
    lines.push(line);
    assert(lines@.drop_last() =~= prev);
    assert(lines_view(lines@) =~= lines_view(prev).push(line_view(line@)));
}

/// An empty line.
fn blank() -> (r: Vec<Piece>)
    ensures
        line_view(r@) == Seq::<(Seq<char>, Tone)>::empty(),
{
    let r: Vec<Piece> = Vec::new();
    assert(line_view(r@) =~= Seq::<(Seq<char>, Tone)>::empty());
    r
}

/// The lines a promotion prints, at an output level.
pub fn promotion_report(data: &PromotionOutputData, level: OutputLevel) -> (r: Vec<Vec<Piece>>)
    ensures
        lines_view(r@) == report_of(*data, level),
{
    if data.copied_files.len() == 0 && data.deleted_files.len() == 0 && data.version_changes.len() == 0 {
        let mut r: Vec<Vec<Piece>> = Vec::new();
        push_line(&mut r, plain_line("No changes to promote"));
        assert(lines_view(r@) =~= report_of(*data, level));
        return r;
    }
    let mut r: Vec<Vec<Piece>> = Vec::new();
    let ghost e = Seq::<(Seq<char>, Tone)>::empty();
    match level {
        OutputLevel::Minimal => {
            extend(&mut r, summary_lines(data));
            assert(lines_view(r@) =~= summary_block(*data));
        },
        OutputLevel::Normal => {
            extend(&mut r, copied_lines(&data.copied_files));
            push_line(&mut r, blank());
            extend(&mut r, summary_lines(data));
            let ghost part = lines_view(r@);
            assert(part =~= copied_block(data.copied_files@) + seq![e] + summary_block(*data));
            if data.version_changes.len() > 0 {
                push_line(&mut r, blank());
                extend(&mut r, update_lines(&data.version_changes));
                assert(lines_view(r@) =~= part + (seq![e] + updates_block(data.version_changes@)));
            } else {
                assert(lines_view(r@) =~= part + Seq::<Seq<(Seq<char>, Tone)>>::empty());
            }
        },
        OutputLevel::Verbose => {
            push_line(&mut r, header_of(data));
            push_line(&mut r, blank());
            extend(&mut r, copied_lines(&data.copied_files));
            push_line(&mut r, blank());
            extend(&mut r, structured_lines(&data.version_changes));
            extend(&mut r, summary_lines(data));
            assert(lines_view(r@) =~= seq![header_line(*data), e] + copied_block(data.copied_files@)
                + seq![e] + structured_block(data.version_changes@) + summary_block(*data));
        },
    }
    let ghost body = lines_view(r@);
    if data.dry_run {
        push_line(&mut r, blank());
        push_line(&mut r, plain_line("Dry run complete. No files were modified."));
        assert(lines_view(r@) =~= body + seq![e, plain("Dry run complete. No files were modified."@)]);
    } else {
        assert(lines_view(r@) =~= body + Seq::<Seq<(Seq<char>, Tone)>>::empty());
    }
    r
}


/// A changed line as printed: marked and toned by its kind.
pub open spec fn diff_line_piece(l: LineView) -> (Seq<char>, Tone) {
    match l.kind {
        DiffLineKind::Addition => ("+"@ + l.content, Tone::Green),
        DiffLineKind::Removal => ("-"@ + l.content, Tone::Red),
        DiffLineKind::Context => (" "@ + l.content, Tone::Dim),
    }
}

/// A hunk as printed: its header, then its lines.
pub open spec fn hunk_block(h: HunkView) -> Seq<Seq<(Seq<char>, Tone)>> {
    seq![plain(
        "@@ -"@ + decimal(h.old_start as nat) + ","@ + decimal(last_line_number(h.lines, DiffLineKind::Removal) as nat)
            + " +"@ + decimal(h.new_start as nat) + ","@ + decimal(last_line_number(h.lines, DiffLineKind::Addition) as nat)
            + " @@"@,
    )] + h.lines.map_values(|l: LineView| seq![diff_line_piece(l)])
}

/// Some hunks as printed, in order.
pub open spec fn hunks_block(hs: Seq<HunkView>) -> Seq<Seq<(Seq<char>, Tone)>>
    decreases hs.len(),
{
    if hs.len() == 0 {
        Seq::empty()
    } else {
        hunks_block(hs.drop_last()) + hunk_block(hs.last())
    }
}

/// A file's differences as printed: the git header, both names, the
/// hunks, then a blank line.
pub open spec fn file_block(f: FileDiffView) -> Seq<Seq<(Seq<char>, Tone)>> {
    seq![
        plain("diff --git a/"@ + f.relative_path + " b/"@ + f.relative_path),
        seq![("--- "@, Tone::Plain), ("a"@, Tone::Dim), ("/"@, Tone::Plain), (f.relative_path, Tone::Dim)],
        seq![("+++ "@, Tone::Plain), ("b"@, Tone::Dim), ("/"@, Tone::Plain), (f.relative_path, Tone::Dim)],
    ] + hunks_block(f.hunks) + seq![Seq::empty()]
}

/// All files' differences as printed, in order.
pub open spec fn files_block(fs: Seq<FileDiffView>) -> Seq<Seq<(Seq<char>, Tone)>>
    decreases fs.len(),
{
    if fs.len() == 0 {
        Seq::empty()
    } else {
        files_block(fs.drop_last()) + file_block(fs.last())
    }
}

/// How many lines of a kind all files' hunks hold.
pub open spec fn files_lines_of_kind(fs: Seq<FileDiffView>, kind: DiffLineKind) -> nat
    decreases fs.len(),
{
    if fs.len() == 0 {
        0
    } else {
        files_lines_of_kind(fs.drop_last(), kind) + hunk_lines_of_kind(fs.last().hunks, kind)
    }
}

/// A count as printed: the count, or the largest `usize` when it is
/// larger.
pub open spec fn capped(n: int) -> nat {
    if n <= usize::MAX {
        n as nat
    } else {
        usize::MAX as nat
    }
}

/// A comparison of configuration directories as printed: the two paths,
/// then each file's differences and a summary of additions and removals,
/// or a note that there are none.
pub open spec fn config_diff_block(d: ConfigDiff) -> Seq<Seq<(Seq<char>, Tone)>> {
    let files = d.file_diffs.deep_view();
    seq![
        seq![("Comparing: "@, Tone::Plain), (d.source_path@, Tone::Cyan), (" -> "@, Tone::Plain), (d.dest_path@, Tone::Yellow)],
        Seq::empty(),
    ] + if files.len() == 0 {
        seq![plain("No configuration differences found."@)]
    } else {
        files_block(files) + seq![
            seq![
                ("Summary: "@, Tone::Plain),
                (decimal(capped(files_lines_of_kind(files, DiffLineKind::Addition) as int)), Tone::Green),
                (" additions, "@, Tone::Plain),
                (decimal(capped(files_lines_of_kind(files, DiffLineKind::Removal) as int)), Tone::Red),
                (" removals across "@, Tone::Plain),
                (decimal(files.len()), Tone::Cyan),
                (" files"@, Tone::Plain),
            ],
        ]
    }
}

/// A changed line as printed.
fn diff_line_of(l: &DiffLine) -> (r: Vec<Piece>)
    ensures
        line_view(r@) == seq![diff_line_piece(l@)],
{
    let text = match l.kind {
        DiffLineKind::Addition => crate::text::concat("+", l.content.as_str()),
        DiffLineKind::Removal => crate::text::concat("-", l.content.as_str()),
        DiffLineKind::Context => crate::text::concat(" ", l.content.as_str()),
    };
    let tone = match l.kind {
        DiffLineKind::Addition => Tone::Green,
        DiffLineKind::Removal => Tone::Red,
        DiffLineKind::Context => Tone::Dim,
    };
    let r = vec![Piece { text, tone }];
    assert(line_view(r@) =~= seq![diff_line_piece(l@)]);
    r
}

/// A hunk as printed, appended to `out`.
fn push_hunk(out: &mut Vec<Vec<Piece>>, h: &DiffHunk)
    ensures
        lines_view(final(out)@) == lines_view(old(out)@) + hunk_block(h@),
{
    let ghost start = lines_view(out@);
    let (removed, added) = hunk_header_numbers(h);
    let head = crate::text::cat(
        &[
            "@@ -",
            decimal_string(h.old_start as u64).as_str(),
            ",",
            decimal_string(removed as u64).as_str(),
            " +",
            decimal_string(h.new_start as u64).as_str(),
            ",",
            decimal_string(added as u64).as_str(),
            " @@",
        ],
    );
    proof {
        reveal_with_fuel(crate::text::cat_views, 10);
        assert(head@ == "@@ -"@ + decimal(h@.old_start as nat) + ","@ + decimal(last_line_number(h@.lines, DiffLineKind::Removal) as nat)
            + " +"@ + decimal(h@.new_start as nat) + ","@ + decimal(last_line_number(h@.lines, DiffLineKind::Addition) as nat)
            + " @@"@);
    }
    let first = vec![Piece { text: head, tone: Tone::Plain }];
    assert(line_view(first@) =~= hunk_block(h@)[0]);
    push_line(out, first);
    let ghost rows = h.lines.deep_view().map_values(|l: LineView| seq![diff_line_piece(l)]);
    let ghost after_head = lines_view(out@);
    let mut i: usize = 0;
    proof {
        assert(after_head =~= start + seq![hunk_block(h@)[0]]);
        assert(lines_view(out@) =~= after_head + rows.take(0));
    }
    while i < h.lines.len()
        invariant
            i <= h.lines@.len(),
            rows == h.lines.deep_view().map_values(|l: LineView| seq![diff_line_piece(l)]),
            rows.len() == h.lines@.len(),
            lines_view(out@) == after_head + rows.take(i as int),
        decreases h.lines@.len() - i,
    {
        let line = diff_line_of(&h.lines[i]);
        push_line(out, line);
        proof {
            assert(h.lines.deep_view()[i as int] == h.lines@[i as int]@);
            assert(rows.take(i + 1) =~= rows.take(i as int).push(rows[i as int]));
        }
        i += 1;
    }
    assert(rows.take(i as int) =~= rows);
    assert(lines_view(out@) =~= start + hunk_block(h@));
}

/// A file's differences as printed, appended to `out`.
fn push_file(out: &mut Vec<Vec<Piece>>, f: &FileConfigDiff)
    ensures
        lines_view(final(out)@) == lines_view(old(out)@) + file_block(f@),
{
    let ghost start = lines_view(out@);
    let rel = f.relative_path.as_str();
    let title = crate::text::cat(&["diff --git a/", rel, " b/", rel]);
    proof {
        reveal_with_fuel(crate::text::cat_views, 5);
    }
    let l1 = vec![Piece { text: title, tone: Tone::Plain }];
    let l2 = vec![piece("--- ", Tone::Plain), piece("a", Tone::Dim), piece("/", Tone::Plain), piece(rel, Tone::Dim)];
    let l3 = vec![piece("+++ ", Tone::Plain), piece("b", Tone::Dim), piece("/", Tone::Plain), piece(rel, Tone::Dim)];
    assert(line_view(l1@) =~= file_block(f@)[0]);
    assert(line_view(l2@) =~= file_block(f@)[1]);
    assert(line_view(l3@) =~= file_block(f@)[2]);
    push_line(out, l1);
    push_line(out, l2);
    push_line(out, l3);
    let ghost head = lines_view(out@);
    let ghost hv = f.hunks.deep_view();
    proof {
        assert(head =~= start + seq![file_block(f@)[0], file_block(f@)[1], file_block(f@)[2]]);
        assert(hunks_block(hv.take(0)) =~= Seq::<Seq<(Seq<char>, Tone)>>::empty());
        assert(lines_view(out@) =~= head + hunks_block(hv.take(0)));
    }
    let mut i: usize = 0;
    while i < f.hunks.len()
        invariant
            i <= f.hunks@.len(),
            hv == f.hunks.deep_view(),
            lines_view(out@) == head + hunks_block(hv.take(i as int)),
        decreases f.hunks@.len() - i,
    {
        proof {
            assert(hv.take(i + 1).drop_last() =~= hv.take(i as int));
            assert(hv.take(i + 1).last() == f.hunks@[i as int]@);
        }
        push_hunk(out, &f.hunks[i]);
        i += 1;
        proof {
            assert(lines_view(out@) =~= head + hunks_block(hv.take(i as int)));
        }
    }
    assert(hv.take(i as int) =~= hv);
    push_line(out, blank());
    assert(lines_view(out@) =~= start + file_block(f@));
}

/// How many lines of a kind a file's hunks hold, capped at `usize::MAX`.
fn capped_count(hunks: &Vec<DiffHunk>, kind: DiffLineKind, start: usize) -> (r: usize)
    ensures
        r == capped(start + hunk_lines_of_kind(hunks.deep_view(), kind)),
{
    let ghost hv = hunks.deep_view();
    let mut total: usize = start;
    let mut i: usize = 0;
    while i < hunks.len()
        invariant
            i <= hunks@.len(),
            hv == hunks.deep_view(),
            total == capped(start + hunk_lines_of_kind(hv.take(i as int), kind)),
        decreases hunks@.len() - i,
    {
        proof {
            assert(hv.take(i + 1).drop_last() =~= hv.take(i as int));
            assert(hv.take(i + 1).last() == hunks@[i as int]@);
        }
        let lines = &hunks[i].lines;
        let ghost lv = lines.deep_view();
        let ghost base = start + hunk_lines_of_kind(hv.take(i as int), kind);
        let mut j: usize = 0;
        assert(lv.take(0) =~= Seq::<LineView>::empty());
        while j < lines.len()
            invariant
                j <= lines@.len(),
                lv == lines.deep_view(),
                total == capped(base + lines_of_kind(lv.take(j as int), kind)),
                base >= 0,
            decreases lines@.len() - j,
        {
            proof {
                assert(lv.take(j + 1).drop_last() =~= lv.take(j as int));
                assert(lv.take(j + 1).last() == lines@[j as int]@);
            }
            let ghost before = base + lines_of_kind(lv.take(j as int), kind);
            proof {
                assert(lines_of_kind(lv.take(j + 1), kind) == lines_of_kind(lv.take(j as int), kind) + if lines@[j as int].kind == kind { 1nat } else { 0nat });
                assert(before >= 0);
            }
            if lines[j].kind == kind {
                if total < usize::MAX {
                    total = total + 1;
                }
            }
            j += 1;
        }
        assert(lv.take(j as int) =~= lv);
        assert(hunks@[i as int]@.lines == lv);
        i += 1;
    }
    assert(hv.take(i as int) =~= hv);
    total
}

/// A comparison of configuration directories as printed.
pub fn config_diff_report(diff: &ConfigDiff) -> (r: Vec<Vec<Piece>>)
    ensures
        lines_view(r@) == config_diff_block(*diff),
{
    let mut out: Vec<Vec<Piece>> = Vec::new();
    let first = vec![
        piece("Comparing: ", Tone::Plain),
        Piece { text: diff.source_path.clone(), tone: Tone::Cyan },
        piece(" -> ", Tone::Plain),
        Piece { text: diff.dest_path.clone(), tone: Tone::Yellow },
    ];
    assert(line_view(first@) =~= config_diff_block(*diff)[0]);
    push_line(&mut out, first);
    push_line(&mut out, blank());
    let ghost files = diff.file_diffs.deep_view();
    let ghost head = lines_view(out@);
    if diff.file_diffs.len() == 0 {
        push_line(&mut out, plain_line("No configuration differences found."));
        assert(lines_view(out@) =~= config_diff_block(*diff));
        return out;
    }
    let mut adds: usize = 0;
    let mut rems: usize = 0;
    let mut i: usize = 0;
    proof {
        assert(files.take(0) =~= Seq::<FileDiffView>::empty());
        assert(lines_view(out@) =~= head + files_block(files.take(0)));
    }
    while i < diff.file_diffs.len()
        invariant
            i <= diff.file_diffs@.len(),
            files == diff.file_diffs.deep_view(),
            lines_view(out@) == head + files_block(files.take(i as int)),
            adds == capped(files_lines_of_kind(files.take(i as int), DiffLineKind::Addition) as int),
            rems == capped(files_lines_of_kind(files.take(i as int), DiffLineKind::Removal) as int),
        decreases diff.file_diffs@.len() - i,
    {
        proof {
            assert(files.take(i + 1).drop_last() =~= files.take(i as int));
            assert(files.take(i + 1).last() == diff.file_diffs@[i as int]@);
        }
        let f = &diff.file_diffs[i];
        push_file(&mut out, f);
        let a2 = capped_count(&f.hunks, DiffLineKind::Addition, adds);
        let r2 = capped_count(&f.hunks, DiffLineKind::Removal, rems);
        proof {
            assert(capped(adds + hunk_lines_of_kind(f.hunks.deep_view(), DiffLineKind::Addition)) == capped(files_lines_of_kind(files.take(i + 1), DiffLineKind::Addition) as int));
            assert(capped(rems + hunk_lines_of_kind(f.hunks.deep_view(), DiffLineKind::Removal)) == capped(files_lines_of_kind(files.take(i + 1), DiffLineKind::Removal) as int));
        }
        adds = a2;
        rems = r2;
        i += 1;
        proof {
            assert(lines_view(out@) =~= head + files_block(files.take(i as int)));
        }
    }
    assert(files.take(i as int) =~= files);
    let summary = vec![
        piece("Summary: ", Tone::Plain),
        Piece { text: decimal_string(adds as u64), tone: Tone::Green },
        piece(" additions, ", Tone::Plain),
        Piece { text: decimal_string(rems as u64), tone: Tone::Red },
        piece(" removals across ", Tone::Plain),
        Piece { text: decimal_string(diff.file_diffs.len() as u64), tone: Tone::Cyan },
        piece(" files", Tone::Plain),
    ];
    assert(line_view(summary@) =~= seq![
        ("Summary: "@, Tone::Plain),
        (decimal(capped(files_lines_of_kind(files, DiffLineKind::Addition) as int)), Tone::Green),
        (" additions, "@, Tone::Plain),
        (decimal(capped(files_lines_of_kind(files, DiffLineKind::Removal) as int)), Tone::Red),
        (" removals across "@, Tone::Plain),
        (decimal(files.len()), Tone::Cyan),
        (" files"@, Tone::Plain),
    ]);
    push_line(&mut out, summary);
    assert(lines_view(out@) =~= config_diff_block(*diff));
    out
}

} // verus!
