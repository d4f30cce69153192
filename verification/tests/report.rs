use promrail::config::OutputLevel;
use promrail::display::{config_diff_report, promotion_report, Piece, PromotionOutputData, Tone};
use promrail::versions::models::{
    ConfigDiff, DiffHunk, DiffLine, DiffLineKind, DiffSummary, FileConfigDiff, VersionChangeKind,
    VersionChangeSummary,
};

fn text(line: &[Piece]) -> String {
    line.iter().map(|p| p.text.clone()).collect()
}

fn change(component: &str, name: &str, kind: VersionChangeKind) -> VersionChangeSummary {
    VersionChangeSummary {
        component: component.to_string(),
        file: "values.yaml".to_string(),
        kind,
        name: name.to_string(),
        before: "1.0.0".to_string(),
        after: "1.1.0".to_string(),
    }
}

fn data(copied: &[&str], changes: Vec<VersionChangeSummary>, dry_run: bool) -> PromotionOutputData {
    PromotionOutputData {
        copied_files: copied.iter().map(|s| s.to_string()).collect(),
        deleted_files: vec![],
        version_changes: changes,
        sources: vec!["staging".to_string()],
        dest: "production".to_string(),
        dry_run,
    }
}

#[test]
fn nothing_to_report() {
    let lines = promotion_report(&data(&[], vec![], false), OutputLevel::Normal);
    assert_eq!(lines.len(), 1);
    assert_eq!(text(&lines[0]), "No changes to promote");
}

#[test]
fn normal_report_lists_copies_summary_and_updates() {
    let d = data(&["platform/a.yaml"], vec![change("platform/api", "api", VersionChangeKind::ContainerImage)], true);
    let lines: Vec<String> = promotion_report(&d, OutputLevel::Normal).iter().map(|l| text(l)).collect();
    assert_eq!(
        lines,
        vec![
            "Copied:",
            "  platform/a.yaml",
            "",
            "Summary:",
            "  1 files copied",
            "  1 versions updated",
            "",
            "Version updates:",
            "  api: 1.0.0 → 1.1.0",
            "",
            "Dry run complete. No files were modified.",
        ]
    );
    let first = &promotion_report(&d, OutputLevel::Normal)[1];
    assert!(first[1].tone == Tone::Green);
}

#[test]
fn verbose_report_groups_updates_by_component() {
    let d = data(
        &[],
        vec![
            change("platform/b", "b", VersionChangeKind::HelmChart),
            change("platform/a", "a", VersionChangeKind::ContainerImage),
            change("platform/b", "c", VersionChangeKind::ContainerImage),
        ],
        false,
    );
    let lines: Vec<String> = promotion_report(&d, OutputLevel::Verbose).iter().map(|l| text(l)).collect();
    assert_eq!(
        lines,
        vec![
            "Comparing staging -> production",
            "",
            "",
            "Structured Version Updates:",
            "  platform/a:",
            "    a (image): 1.0.0 → 1.1.0",
            "  platform/b:",
            "    b (chart): 1.0.0 → 1.1.0",
            "    c (image): 1.0.0 → 1.1.0",
            "",
            "Summary:",
            "  3 versions updated",
        ]
    );
    let minimal: Vec<String> = promotion_report(&d, OutputLevel::Minimal).iter().map(|l| text(l)).collect();
    assert_eq!(minimal, vec!["Summary:", "  3 versions updated"]);
}

#[test]
fn config_diff_is_printed_as_unified_diff() {
    let diff = ConfigDiff {
        source_path: "a".to_string(),
        dest_path: "b".to_string(),
        file_diffs: vec![FileConfigDiff {
            relative_path: "x.yaml".to_string(),
            hunks: vec![DiffHunk {
                old_start: 1,
                new_start: 1,
                lines: vec![
                    DiffLine { kind: DiffLineKind::Removal, content: "k: 2".to_string(), old_line: Some(1), new_line: None },
                    DiffLine { kind: DiffLineKind::Addition, content: "k: 1".to_string(), old_line: None, new_line: Some(1) },
                    DiffLine { kind: DiffLineKind::Context, content: "z: 0".to_string(), old_line: Some(2), new_line: Some(2) },
                ],
            }],
            summary: DiffSummary { additions: 1, removals: 1, modifications: 0 },
        }],
    };
    let lines: Vec<String> = config_diff_report(&diff).iter().map(|l| text(l)).collect();
    assert_eq!(
        lines,
        vec![
            "Comparing: a -> b",
            "",
            "diff --git a/x.yaml b/x.yaml",
            "--- a/x.yaml",
            "+++ b/x.yaml",
            "@@ -1,1 +1,1 @@",
            "-k: 2",
            "+k: 1",
            " z: 0",
            "",
            "Summary: 1 additions, 1 removals across 1 files",
        ]
    );
    let empty = ConfigDiff { source_path: "a".to_string(), dest_path: "b".to_string(), file_diffs: vec![] };
    let lines: Vec<String> = config_diff_report(&empty).iter().map(|l| text(l)).collect();
    assert_eq!(lines, vec!["Comparing: a -> b", "", "No configuration differences found."]);
}
