use promrail::commands::promote::{admits_candidate, review_gate, PromoteArgs, ReviewGate};
use promrail::config::{
    ComponentRule, Config, PromotionAction, PromotionRules, SourceChangeHandling, VersionHandling,
};
use promrail::review::analyze::{analyze_multi_source_promotion, FileCandidate, FileGroup, PromotionAnalysis};
use promrail::review::grouping::group_candidates;
use promrail::commands::snapshot_log::add_snapshot_record;
use promrail::review::apply::{artifact_ready_for_apply, mark_applied};
use promrail::review::models::{ReviewArtifactStatus, ReviewDecision, ReviewItem, ReviewItemKind};
use promrail::versions::apply::components_to_apply;
use promrail::versions::conflict::filter_source_change_conflicts;
use promrail::versions::merge::merge_versions;
use promrail::versions::models::{
    ComponentVersions, Conflict, ConflictKind, SnapshotFile, SnapshotStatus, Snapshot, VersionReport,
};
use promrail::versions::snapshot::{add, delete, get, rollback};

fn rule(action: PromotionAction, handling: SourceChangeHandling) -> ComponentRule {
    ComponentRule {
        action,
        notes: String::new(),
        version_constraint: None,
        source_change_handling: handling,
        version_handling: VersionHandling::WholeFile,
        preserve: vec![],
    }
}

fn args() -> PromoteArgs {
    PromoteArgs {
        sources: vec!["a".to_string(), "b".to_string()],
        dest: "production".to_string(),
        filter: vec![".*".to_string()],
        delete: true,
        dest_based: false,
        dry_run: false,
        confirm: false,
        show_diff: false,
        include_protected: false,
        allow_duplicates: false,
        only_existing: false,
        ignore_gitignore: false,
        force: false,
    }
}

fn candidate(source: &str, component: &str, hash: u64, existing: bool, version_managed: bool) -> FileCandidate {
    FileCandidate {
        source_name: source.to_string(),
        absolute_path: format!("/{}/{}/file.yaml", source, component),
        component: component.to_string(),
        existing_component: existing,
        content_hash: hash,
        version_managed,
    }
}

#[test]
fn never_components_are_skipped() {
    let mut config = Config::default();
    config.rules.components.push((
        "platform/home".to_string(),
        rule(PromotionAction::Never, SourceChangeHandling::Warn),
    ));
    assert!(!admits_candidate(&config, &args(), "a", "platform/home/config.yaml", true));
    assert!(admits_candidate(&config, &args(), "a", "platform/other/config.yaml", true));
}

fn report(source: &str, components: &[&str]) -> VersionReport {
    let mut r = VersionReport::new(source);
    for c in components {
        r.components.push((
            c.to_string(),
            ComponentVersions { path: c.to_string(), helm_charts: vec![], container_images: vec![] },
        ));
    }
    r
}

#[test]
fn never_components_are_not_merged_scenario() {
    let mut rules = Config::default().rules;
    rules.components.push((
        "platform/home".to_string(),
        rule(PromotionAction::Never, SourceChangeHandling::Warn),
    ));
    let sources = vec![("a".to_string(), report("a", &["platform/home", "platform/api"]))];
    let merged = merge_versions(&sources, &rules).ok().expect("merge");
    assert!(merged.report.components.iter().all(|(c, _)| c != "platform/home"));
    assert_eq!(merged.removed.len(), 1);
    assert_eq!(merged.removed[0].component, "platform/home");
}

fn analysis(review: bool) -> PromotionAnalysis {
    PromotionAnalysis {
        route_key: "route".to_string(),
        fingerprint: "fp".to_string(),
        auto_files: vec![("platform/a.yaml".to_string(), ("a".to_string(), "/a/platform/a.yaml".to_string()))],
        retained_paths: vec![],
        review_items: if review {
            vec![ReviewItem {
                id: "id1".to_string(),
                kind: ReviewItemKind::NewComponent,
                component: "apps/demo".to_string(),
                files: vec!["apps/demo/config.yaml".to_string()],
                candidate_sources: vec!["a".to_string()],
                reason: String::new(),
                decision: None,
                selected_source: None,
                notes: None,
            }]
        } else {
            vec![]
        },
        source_lookup: vec![],
    }
}

#[test]
fn stale_reviews_are_not_applied_scenario() {
    let sources = vec!["a".to_string(), "b".to_string()];
    let filters = vec![".*".to_string()];
    match review_gate(&analysis(false), None, &sources, "production", &filters).ok() {
        Some(ReviewGate::Proceed { files, applied }) => {
            assert!(!applied);
            assert_eq!(files.len(), 1);
        }
        _ => panic!("expected to proceed"),
    }
    let current = analysis(true);
    let mut artifact = match review_gate(&current, None, &sources, "production", &filters).ok() {
        Some(ReviewGate::ReviewRequired(a)) => a,
        _ => panic!("expected a review"),
    };
    assert!(artifact.status == ReviewArtifactStatus::Pending);
    artifact.status = ReviewArtifactStatus::Classified;
    artifact.fingerprint = "stale".to_string();
    match review_gate(&current, Some(&artifact), &sources, "production", &filters).ok() {
        Some(ReviewGate::ReviewRequired(a)) => assert_eq!(a.fingerprint, "fp"),
        _ => panic!("a stale artifact must not be applied"),
    }
}

#[test]
fn version_only_promotion_needs_no_review_scenario() {
    let config = Config::default();
    let groups = vec![
        FileGroup {
            relative: "platform/api/values.yaml".to_string(),
            candidates: vec![
                candidate("a", "platform/api", 1, true, true),
                candidate("b", "platform/api", 2, true, true),
            ],
            dest_has_file: true,
        },
        FileGroup {
            relative: "platform/web/values.yaml".to_string(),
            candidates: vec![candidate("a", "platform/web", 3, true, true)],
            dest_has_file: false,
        },
    ];
    let sources = vec!["a".to_string(), "b".to_string()];
    let r = analyze_multi_source_promotion(&config, &sources, &groups, &vec![], "production", &vec![".*".to_string()]);
    assert!(r.review_items.is_empty());
    assert_eq!(r.auto_files.len() + r.retained_paths.len(), groups.len());
    assert_eq!(r.retained_paths, vec!["platform/api/values.yaml".to_string()]);
}

#[test]
fn identical_files_need_no_choice_scenario() {
    let config = Config::default();
    let groups = vec![FileGroup {
        relative: "platform/api/config.yaml".to_string(),
        candidates: vec![
            candidate("a", "platform/api", 7, true, false),
            candidate("b", "platform/api", 7, true, false),
        ],
        dest_has_file: true,
    }];
    let r = analyze_multi_source_promotion(&config, &vec!["a".to_string(), "b".to_string()], &groups, &vec![], "production", &vec![]);
    assert!(r.review_items.is_empty());
    assert_eq!(r.auto_files.len(), 1);
    let conflicting = vec![FileGroup {
        relative: "platform/api/config.yaml".to_string(),
        candidates: vec![
            candidate("a", "platform/api", 7, true, false),
            candidate("b", "platform/api", 8, true, false),
        ],
        dest_has_file: true,
    }];
    let r = analyze_multi_source_promotion(&config, &vec!["a".to_string(), "b".to_string()], &conflicting, &vec![], "production", &vec![]);
    assert_eq!(r.review_items.len(), 1);
    assert!(r.review_items[0].kind == ReviewItemKind::ConflictingFile);
}

#[test]
fn files_are_grouped_by_path() {
    let entries = vec![
        ("b.yaml".to_string(), candidate("a", "x", 1, true, false)),
        ("a.yaml".to_string(), candidate("a", "x", 2, true, false)),
        ("b.yaml".to_string(), candidate("b", "x", 3, true, false)),
    ];
    let groups = group_candidates(entries, &vec!["b.yaml".to_string()]);
    assert_eq!(groups.len(), 2);
    assert_eq!(groups[0].relative, "a.yaml");
    assert!(!groups[0].dest_has_file);
    assert_eq!(groups[1].relative, "b.yaml");
    assert!(groups[1].dest_has_file);
    assert_eq!(groups[1].candidates.len(), 2);
    assert_eq!(groups[1].candidates[0].source_name, "a");
    assert_eq!(groups[1].candidates[1].source_name, "b");
}

#[test]
fn rollback_happens_once_scenario() {
    let mut file = SnapshotFile::default();
    let snapshot = Snapshot::new("s".to_string(), "d".to_string(), vec![]);
    let id = snapshot.id.clone();
    add(&mut file, snapshot);
    let first = rollback(&mut file, &id);
    assert!(first.rolled_back);
    assert!(get(&file, &id).expect("snapshot").status == SnapshotStatus::RolledBack);
    let second = rollback(&mut file, &id);
    assert!(!second.rolled_back);
    assert!(second.restorations.is_empty());
    assert!(delete(&mut file, &id));
    assert!(get(&file, &id).is_none());
    assert!(!delete(&mut file, &id));
}

#[test]
fn no_filter_applies_every_component() {
    let r = report("a", &["platform/a", "platform/b"]);
    assert_eq!(components_to_apply(&r, &vec![]), vec!["platform/a".to_string(), "platform/b".to_string()]);
    assert_eq!(components_to_apply(&r, &vec!["b".to_string()]), vec!["platform/b".to_string()]);
}

#[test]
fn only_ignored_source_changes_are_dropped_scenario() {
    let mut rules = Config::default().rules;
    rules.components.push(("system/loki".to_string(), rule(PromotionAction::Always, SourceChangeHandling::Ignore)));
    let conflicts = vec![
        Conflict {
            component: "system/loki".to_string(),
            file: "Chart.yaml".to_string(),
            kind: ConflictKind::RepositoryChange {
                chart_name: "loki".to_string(),
                from_repo: "a".to_string(),
                to_repo: "b".to_string(),
            },
            details: String::new(),
        },
        Conflict {
            component: "system/loki".to_string(),
            file: "Chart.yaml".to_string(),
            kind: ConflictKind::VersionDowngrade {
                chart_name: "loki".to_string(),
                from: "2".to_string(),
                to: "1".to_string(),
            },
            details: String::new(),
        },
    ];
    let (kept, blocking) = filter_source_change_conflicts(conflicts, &rules);
    assert_eq!(kept.len(), 1);
    assert!(matches!(kept[0].kind, ConflictKind::VersionDowngrade { .. }));
    assert!(!blocking);
}

#[test]
fn new_components_are_not_promoted_scenario() {
    let config = Config::default();
    let groups = vec![
        FileGroup {
            relative: "apps/new/config.yaml".to_string(),
            candidates: vec![candidate("a", "apps/new", 1, false, false)],
            dest_has_file: false,
        },
        FileGroup {
            relative: "apps/new/values.yaml".to_string(),
            candidates: vec![candidate("a", "apps/new", 2, false, true)],
            dest_has_file: false,
        },
        FileGroup {
            relative: "platform/api/config.yaml".to_string(),
            candidates: vec![candidate("a", "platform/api", 3, true, false)],
            dest_has_file: true,
        },
    ];
    let r = analyze_multi_source_promotion(&config, &vec!["a".to_string()], &groups, &vec![], "production", &vec![]);
    assert_eq!(r.auto_files.len(), 1);
    assert_eq!(r.auto_files[0].0, "platform/api/config.yaml");
    assert_eq!(
        r.retained_paths,
        vec!["apps/new/config.yaml".to_string(), "apps/new/values.yaml".to_string()]
    );
    assert_eq!(r.review_items.len(), 1);
    assert!(r.review_items[0].kind == ReviewItemKind::NewComponent);
    assert_eq!(r.review_items[0].component, "apps/new");
    assert_eq!(
        r.review_items[0].files,
        vec!["apps/new/config.yaml".to_string(), "apps/new/values.yaml".to_string()]
    );
}

#[test]
fn analysis_keeps_promoted_and_reviewed_apart_scenario() {
    let config = Config::default();
    let entries = vec![
        ("platform/api/config.yaml".to_string(), candidate("a", "platform/api", 1, true, false)),
        ("platform/api/config.yaml".to_string(), candidate("b", "platform/api", 2, true, false)),
        ("platform/api/other.yaml".to_string(), candidate("b", "platform/api", 3, true, false)),
        ("apps/new/z.yaml".to_string(), candidate("b", "apps/new", 4, false, false)),
        ("apps/new/a.yaml".to_string(), candidate("a", "apps/new", 5, false, false)),
    ];
    let groups = group_candidates(entries, &vec!["platform/api/config.yaml".to_string()]);
    let r = analyze_multi_source_promotion(&config, &vec!["a".to_string(), "b".to_string()], &groups, &vec![], "production", &vec![]);
    for (path, _) in &r.auto_files {
        assert!(!r.retained_paths.contains(path));
    }
    assert_eq!(r.review_items.len(), 2);
    for item in &r.review_items {
        for f in &item.files {
            assert!(r.retained_paths.contains(f));
        }
        let mut files = item.files.clone();
        files.sort();
        files.dedup();
        assert_eq!(files, item.files);
        let mut sources = item.candidate_sources.clone();
        sources.sort();
        sources.dedup();
        assert_eq!(sources, item.candidate_sources);
    }
    let new_item = r.review_items.iter().find(|i| i.component == "apps/new").expect("new component item");
    assert_eq!(new_item.files, vec!["apps/new/a.yaml".to_string(), "apps/new/z.yaml".to_string()]);
    assert_eq!(new_item.candidate_sources, vec!["a".to_string(), "b".to_string()]);
}

#[test]
fn classified_reviews_are_consumed_once_scenario() {
    let sources = vec!["a".to_string(), "b".to_string()];
    let filters = vec![".*".to_string()];
    let current = analysis(true);
    let mut artifact = match review_gate(&current, None, &sources, "production", &filters).ok() {
        Some(ReviewGate::ReviewRequired(a)) => a,
        _ => panic!("expected a review"),
    };
    artifact.status = ReviewArtifactStatus::Classified;
    artifact.items[0].decision = Some(ReviewDecision::Skip);
    assert_eq!(artifact_ready_for_apply(&artifact, &current).ok(), Some(true));
    match review_gate(&current, Some(&artifact), &sources, "production", &filters).ok() {
        Some(ReviewGate::Proceed { files, applied }) => {
            assert!(applied);
            assert_eq!(files.len(), 1);
        }
        _ => panic!("a classified artifact that fits must be applied"),
    }
    let before_items = artifact.items.len();
    mark_applied(&mut artifact);
    assert!(artifact.status == ReviewArtifactStatus::Applied);
    assert_eq!(artifact.items.len(), before_items);
    assert_eq!(artifact_ready_for_apply(&artifact, &current).ok(), Some(false));
    match review_gate(&current, Some(&artifact), &sources, "production", &filters).ok() {
        Some(ReviewGate::ReviewRequired(a)) => assert!(a.status == ReviewArtifactStatus::Pending),
        _ => panic!("an applied artifact must not be applied again"),
    }
    let log = add_snapshot_record(None, "snap_1", "2024-01-01T00:00:00Z", Some(".promrail/review/route.yaml"))
        .ok()
        .expect("log");
    assert!(log.contains("status: applied"), "{}", log);
    assert!(log.contains("review_artifact: .promrail/review/route.yaml"), "{}", log);
}
