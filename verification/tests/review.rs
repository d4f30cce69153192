use promrail::review::analyze::{build_review_item_id, is_version_managed_file};
use promrail::review::models::ReviewItemKind;

#[test]
fn version_managed_files_are_detected() {
    assert!(is_version_managed_file("platform/app/values.yaml"));
    assert!(is_version_managed_file("platform/app/kustomization.yaml"));
    assert!(!is_version_managed_file("platform/app/config.yaml"));
}

#[test]
fn review_item_ids_are_stable() {
    let files = vec!["a.yaml".to_string(), "b.yaml".to_string()];
    assert_eq!(
        build_review_item_id(&ReviewItemKind::NewComponent, "apps/demo", &files),
        build_review_item_id(&ReviewItemKind::NewComponent, "apps/demo", &files)
    );
}

use promrail::error::PromrailError;
use promrail::review::analyze::PromotionAnalysis;
use promrail::review::apply::{apply_review_decisions, artifact_ready_for_apply};
use promrail::review::models::{
    ReviewArtifact, ReviewArtifactStatus, ReviewDecision, ReviewItem, ReviewSummary,
};

fn item(id: &str, decision: Option<ReviewDecision>, selected: Option<&str>, sources: &[&str]) -> ReviewItem {
    ReviewItem {
        id: id.to_string(),
        kind: ReviewItemKind::ConflictingFile,
        component: "platform/app".to_string(),
        files: vec!["platform/app/config.yaml".to_string()],
        candidate_sources: sources.iter().map(|s| s.to_string()).collect(),
        reason: String::new(),
        decision,
        selected_source: selected.map(|s| s.to_string()),
        notes: None,
    }
}

fn artifact(items: Vec<ReviewItem>) -> ReviewArtifact {
    ReviewArtifact {
        version: 1,
        id: "route".to_string(),
        created_at: String::new(),
        updated_at: String::new(),
        status: ReviewArtifactStatus::Classified,
        sources: vec!["a".to_string(), "b".to_string()],
        dest: "production".to_string(),
        filters: vec![".*".to_string()],
        route_key: "route".to_string(),
        fingerprint: "f".to_string(),
        summary: ReviewSummary {
            auto_files: 1,
            retained_files: 1,
            review_items: items.len(),
            new_components: 0,
            conflicting_files: items.len(),
        },
        items,
    }
}

fn analysis(review_items: Vec<ReviewItem>) -> PromotionAnalysis {
    PromotionAnalysis {
        route_key: "route".to_string(),
        fingerprint: "f".to_string(),
        auto_files: vec![(
            "platform/app/other.yaml".to_string(),
            ("a".to_string(), "/a/platform/app/other.yaml".to_string()),
        )],
        retained_paths: vec!["platform/app/config.yaml".to_string()],
        review_items,
        source_lookup: vec![
            (
                ("platform/app/config.yaml".to_string(), "a".to_string()),
                "/a/platform/app/config.yaml".to_string(),
            ),
            (
                ("platform/app/config.yaml".to_string(), "b".to_string()),
                "/b/platform/app/config.yaml".to_string(),
            ),
        ],
    }
}

fn invalid_message(r: Result<Vec<(String, (String, String))>, PromrailError>) -> String {
    match r {
        Err(e @ PromrailError::ReviewArtifactInvalid(_)) => e.message(),
        _ => panic!("invalid artifact expected"),
    }
}

#[test]
fn review_decisions_add_the_chosen_files() {
    let promoted = artifact(vec![item("i1", Some(ReviewDecision::Promote), Some("b"), &["a", "b"])]);
    let a = analysis(vec![item("i1", None, None, &["a", "b"])]);
    assert_eq!(artifact_ready_for_apply(&promoted, &a).ok(), Some(true));
    let files = apply_review_decisions(&promoted, &a).ok().expect("valid decisions");
    assert_eq!(files.len(), 2);
    assert!(files.contains(&(
        "platform/app/config.yaml".to_string(),
        ("b".to_string(), "/b/platform/app/config.yaml".to_string())
    )));
    assert!(files.contains(&(
        "platform/app/other.yaml".to_string(),
        ("a".to_string(), "/a/platform/app/other.yaml".to_string())
    )));

    let skipped = artifact(vec![item("i1", Some(ReviewDecision::Skip), None, &["a", "b"])]);
    assert_eq!(apply_review_decisions(&skipped, &a).ok().expect("valid").len(), 1);

    let single = artifact(vec![item("i1", Some(ReviewDecision::Promote), None, &["a"])]);
    let files = apply_review_decisions(&single, &a).ok().expect("single candidate");
    assert!(files.contains(&(
        "platform/app/config.yaml".to_string(),
        ("a".to_string(), "/a/platform/app/config.yaml".to_string())
    )));
}

#[test]
fn invalid_review_decisions_are_refused() {
    let a = analysis(vec![item("i1", None, None, &["a", "b"])]);
    assert_eq!(
        invalid_message(apply_review_decisions(&artifact(vec![item("i1", None, None, &["a", "b"])]), &a)),
        "Invalid review artifact: review item i1 is missing a decision"
    );
    assert_eq!(
        invalid_message(apply_review_decisions(
            &artifact(vec![item("i1", Some(ReviewDecision::Promote), None, &["a", "b"])]),
            &a
        )),
        "Invalid review artifact: review item i1 is promoted but selected_source is missing"
    );
    assert_eq!(
        invalid_message(apply_review_decisions(
            &artifact(vec![item("i1", Some(ReviewDecision::Promote), Some("c"), &["a", "b"])]),
            &a
        )),
        "Invalid review artifact: review item i1 selected invalid source c"
    );
    assert_eq!(
        invalid_message(apply_review_decisions(
            &artifact(vec![item("i1", Some(ReviewDecision::Promote), Some("c"), &["a", "b", "c"])]),
            &a
        )),
        "Invalid review artifact: review item i1 references missing source file platform/app/config.yaml from c"
    );

    let mut stale = artifact(vec![item("i1", Some(ReviewDecision::Promote), Some("a"), &["a", "b"])]);
    stale.fingerprint = "other".to_string();
    assert_eq!(artifact_ready_for_apply(&stale, &a).ok(), Some(false));
}
