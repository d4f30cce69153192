use promrail::commands::promote::{copies_after_update, promotion_step, PromotionStep};
use promrail::review::apply::mark_applied;
use promrail::review::models::{ReviewArtifact, ReviewArtifactStatus, ReviewSummary};
use promrail::versions::apply::{checks_conflicts, file_step, stops_on_conflicts, takes_snapshot, FileStep};
use promrail::versions::apply::diff_versions;
use promrail::versions::conflict::detect_conflicts;
use promrail::versions::models::{
    ApplyOptions, ComponentVersions, ContainerImageVersion, HelmChartVersion, VersionReport,
};
use promrail::git::diff::compute_diff;

fn options(dry_run: bool, check_conflicts: bool, create_snapshot: bool) -> ApplyOptions {
    ApplyOptions { components: vec![], dry_run, check_conflicts, create_snapshot }
}

#[test]
fn applying_stops_on_conflicts_only_when_checked_for_real() {
    assert!(checks_conflicts(&options(false, true, false)));
    assert!(!checks_conflicts(&options(true, true, false)));
    assert!(stops_on_conflicts(&options(false, true, false), true));
    assert!(!stops_on_conflicts(&options(false, true, false), false));
    assert!(!stops_on_conflicts(&options(true, true, false), true));
    assert!(!stops_on_conflicts(&options(false, false, false), true));
    assert!(takes_snapshot(&options(false, false, true)));
    assert!(!takes_snapshot(&options(true, false, true)));
}

#[test]
fn dry_runs_record_changes_without_writing() {
    assert!(matches!(file_step(&options(true, false, false), 0), FileStep::Skip));
    assert!(matches!(file_step(&options(true, false, false), 2), FileStep::Record { write: false }));
    assert!(matches!(file_step(&options(false, false, false), 1), FileStep::Record { write: true }));
}

#[test]
fn promotions_preview_on_dry_runs_and_do_nothing_when_empty() {
    assert!(matches!(promotion_step(0, 0, 0, false), PromotionStep::Nothing));
    assert!(matches!(promotion_step(0, 0, 0, true), PromotionStep::Nothing));
    assert!(matches!(promotion_step(1, 0, 0, true), PromotionStep::Preview));
    assert!(matches!(promotion_step(0, 0, 2, false), PromotionStep::Apply));
    assert!(matches!(promotion_step(0, 3, 0, false), PromotionStep::Apply));
}

#[test]
fn structured_files_the_update_missed_are_copied() {
    let files = vec![
        ("app/values.yaml".to_string(), "/d/app/values.yaml".to_string()),
        ("app/kustomization.yaml".to_string(), "/d/app/kustomization.yaml".to_string()),
    ];
    let updated = vec!["/d/app/values.yaml".to_string()];
    assert_eq!(copies_after_update(&files, &updated), vec!["app/kustomization.yaml".to_string()]);
    assert!(copies_after_update(&files, &vec![
        "/d/app/values.yaml".to_string(),
        "/d/app/kustomization.yaml".to_string(),
    ])
    .is_empty());
}

#[test]
fn applied_artifacts_keep_their_record() {
    let mut artifact = ReviewArtifact {
        version: 1,
        id: "route".to_string(),
        created_at: "t0".to_string(),
        updated_at: "t0".to_string(),
        status: ReviewArtifactStatus::Classified,
        sources: vec!["a".to_string()],
        dest: "production".to_string(),
        filters: vec![".*".to_string()],
        route_key: "route".to_string(),
        fingerprint: "f".to_string(),
        summary: ReviewSummary { auto_files: 1, retained_files: 0, review_items: 0, new_components: 0, conflicting_files: 0 },
        items: vec![],
    };
    mark_applied(&mut artifact);
    assert!(artifact.status == ReviewArtifactStatus::Applied);
    assert_eq!(artifact.created_at, "t0");
    assert_eq!(artifact.fingerprint, "f");
    assert_eq!(artifact.summary.auto_files, 1);
}

fn report() -> VersionReport {
    let chart = |name: &str, version: &str, repo: &str| HelmChartVersion {
        name: name.to_string(),
        version: version.to_string(),
        repository: Some(repo.to_string()),
        source_file: "kustomization.yaml".to_string(),
    };
    let image = |name: &str, tag: &str| ContainerImageVersion {
        name: name.to_string(),
        tag: tag.to_string(),
        source_file: "values.yaml".to_string(),
        json_path: String::new(),
    };
    VersionReport {
        extracted_at: String::new(),
        source_path: "r".to_string(),
        components: vec![
            (
                "platform/app".to_string(),
                ComponentVersions {
                    path: "platform/app".to_string(),
                    helm_charts: vec![chart("app", "1.2.0", "https://charts.example.com")],
                    container_images: vec![image("ghcr.io/acme/api", "v1.0.0"), image("docker.io/acme/web", "v2")],
                },
            ),
            (
                "platform/db".to_string(),
                ComponentVersions {
                    path: "platform/db".to_string(),
                    helm_charts: vec![chart("postgres", "12.0.0", "oci://registry.example.com")],
                    container_images: vec![],
                },
            ),
        ],
    }
}

#[test]
fn reports_agree_with_themselves_scenario() {
    let r = report();
    assert!(diff_versions(&r, &r).is_empty());
    assert!(detect_conflicts(&r, &r).is_empty());
}

#[test]
fn conflicts_are_in_shared_components_scenario() {
    let source = report();
    let mut dest = report();
    dest.components.remove(1);
    dest.components[0].1.helm_charts[0].version = "2.0.0".to_string();
    let conflicts = detect_conflicts(&source, &dest);
    assert_eq!(conflicts.len(), 1);
    assert_eq!(conflicts[0].component, "platform/app");
}

#[test]
fn line_diff_covers_both_texts_scenario() {
    let old = "a\nb\nc\n";
    let new = "a\nx\nc\nd\n";
    let d = compute_diff(Some(old), Some(new));
    assert_eq!(&d[..2], &["--- old".to_string(), "+++ new".to_string()]);
    let body = &d[2..];
    let old_side: Vec<&str> = body.iter().filter(|l| l.starts_with(' ') || l.starts_with('-')).map(|l| &l[1..]).collect();
    let new_side: Vec<&str> = body.iter().filter(|l| l.starts_with(' ') || l.starts_with('+')).map(|l| &l[1..]).collect();
    assert_eq!(old_side, vec!["a", "b", "c"]);
    assert_eq!(new_side, vec!["a", "x", "c", "d"]);
    assert!(body.len() <= 7);
}
