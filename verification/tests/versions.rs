use promrail::config::{Config, SourceRule, VersionStrategy};
use promrail::git::diff::{compute_diff, diff_line_style, simple_diff, LineStyle};
use promrail::versions::apply::{
    components_to_apply, diff_versions, files_to_update, is_component_selected,
    update_chart_versions, update_kustomization_versions, update_values_images,
};
use promrail::versions::extract::VersionFileKind;
use promrail::versions::config_diff::{compute_unified_diff, create_removal_diff, diff_file};
use promrail::versions::models::{
    ComponentVersions, ContainerImageVersion, DiffLineKind, FileVersionChange, HelmChartVersion,
    VersionChangeKind, VersionReport,
};
use promrail::versions::snapshot::apply_version_change;
use promrail::error::PromrailError;

fn strings(v: &[&str]) -> Vec<String> {
    v.iter().map(|s| s.to_string()).collect()
}

fn chart(name: &str, version: &str) -> HelmChartVersion {
    HelmChartVersion {
        name: name.to_string(),
        version: version.to_string(),
        repository: None,
        source_file: "kustomization.yaml".to_string(),
    }
}

fn image(name: &str, tag: &str) -> ContainerImageVersion {
    ContainerImageVersion {
        name: name.to_string(),
        tag: tag.to_string(),
        source_file: "values.yaml".to_string(),
        json_path: String::new(),
    }
}

fn component(path: &str, charts: Vec<HelmChartVersion>, images: Vec<ContainerImageVersion>) -> (String, ComponentVersions) {
    (
        path.to_string(),
        ComponentVersions { path: path.to_string(), helm_charts: charts, container_images: images },
    )
}

fn report(components: Vec<(String, ComponentVersions)>) -> VersionReport {
    VersionReport { extracted_at: String::new(), source_path: "src".to_string(), components }
}

const KUSTOMIZATION: &str = r#"apiVersion: kustomize.config.k8s.io/v1beta1
kind: Kustomization
namespace: external-secrets

resources:
  - resources/clustersecretstore.yaml

helmCharts:
  - includeCRDs: true
    name: external-secrets
    namespace: external-secrets
    releaseName: external-secrets
    repo: https://charts.external-secrets.io
    valuesFile: values.yaml
    version: 2.1.0
"#;

#[test]
fn kustomization_chart_versions_are_updated() {
    let update = update_kustomization_versions(KUSTOMIZATION, &vec![chart("external-secrets", "2.4.0")])
        .ok()
        .expect("valid yaml");
    assert_eq!(update.changes.len(), 1);
    let change = &update.changes[0];
    assert_eq!(change.file, "kustomization.yaml");
    assert!(change.kind == VersionChangeKind::HelmChart);
    assert_eq!(change.name, "external-secrets");
    assert_eq!(change.before, "2.1.0");
    assert_eq!(change.after, "2.4.0");
    let rendered = update.rendered.expect("rendered");
    assert!(rendered.contains("version: 2.4.0"));
    assert!(!rendered.contains("version: 2.1.0"));

    let same = update_kustomization_versions(KUSTOMIZATION, &vec![chart("external-secrets", "2.1.0")])
        .ok()
        .expect("valid yaml");
    assert!(same.changes.is_empty());
    assert!(matches!(
        update_kustomization_versions("helmCharts: [", &vec![]),
        Err(PromrailError::Yaml(_))
    ));
}

#[test]
fn chart_dependencies_are_updated() {
    let content = "apiVersion: v2\nname: app\ndependencies:\n  - name: redis\n    version: 17.0.0\n    repository: https://charts.bitnami.com/bitnami\n  - name: other\n    version: 1.0.0\n";
    let update = update_chart_versions(content, &vec![chart("redis", "18.1.0")]).ok().expect("valid yaml");
    assert_eq!(update.changes.len(), 1);
    assert_eq!(update.changes[0].file, "Chart.yaml");
    assert_eq!(update.changes[0].name, "redis");
    assert_eq!(update.changes[0].before, "17.0.0");
    assert_eq!(update.changes[0].after, "18.1.0");
    let doc: serde_yaml::Value = serde_yaml::from_str(&update.rendered.expect("rendered")).expect("yaml");
    assert_eq!(doc["dependencies"][0]["version"], "18.1.0");
    assert_eq!(doc["dependencies"][1]["version"], "1.0.0");
}

#[test]
fn values_image_tags_are_updated_at_any_depth() {
    let content = "image:\n  repository: ghcr.io/acme/api\n  tag: v1.0.0\nworkers:\n  - image:\n      repository: ghcr.io/acme/worker\n      tag: v2.0.0\n";
    let images = vec![image("ghcr.io/acme/api", "v1.1.0"), image("ghcr.io/acme/worker", "v2.0.0")];
    let update = update_values_images(content, &images).ok().expect("valid yaml");
    assert_eq!(update.changes.len(), 1);
    assert_eq!(update.changes[0].file, "values.yaml");
    assert!(update.changes[0].kind == VersionChangeKind::ContainerImage);
    assert_eq!(update.changes[0].name, "ghcr.io/acme/api");
    assert_eq!(update.changes[0].before, "v1.0.0");
    assert_eq!(update.changes[0].after, "v1.1.0");
    let doc: serde_yaml::Value = serde_yaml::from_str(&update.rendered.expect("rendered")).expect("yaml");
    assert_eq!(doc["image"]["tag"], "v1.1.0");
    assert_eq!(doc["workers"][0]["image"]["tag"], "v2.0.0");
}

#[test]
fn restoring_a_change_writes_back_the_old_version() {
    let content = "helmCharts:\n  - name: app\n    version: 2.0.0\n";
    let change = FileVersionChange {
        file: "kustomization.yaml".to_string(),
        kind: VersionChangeKind::HelmChart,
        name: "app".to_string(),
        before: "1.0.0".to_string(),
        after: "2.0.0".to_string(),
    };
    let restored = apply_version_change(content, &change);
    let doc: serde_yaml::Value = serde_yaml::from_str(&restored).expect("yaml");
    assert_eq!(doc["helmCharts"][0]["version"], "1.0.0");

    let values = "image:\n  repository: ghcr.io/acme/api\n  tag: v2\n";
    let image_change = FileVersionChange {
        file: "values.yaml".to_string(),
        kind: VersionChangeKind::ContainerImage,
        name: "ghcr.io/acme/api".to_string(),
        before: "v1".to_string(),
        after: "v2".to_string(),
    };
    let doc: serde_yaml::Value =
        serde_yaml::from_str(&apply_version_change(values, &image_change)).expect("yaml");
    assert_eq!(doc["image"]["tag"], "v1");
}

#[test]
fn components_are_selected_by_containment_either_way() {
    assert!(is_component_selected("platform/app", &vec![]));
    assert!(is_component_selected("platform/app", &strings(&["app"])));
    assert!(is_component_selected("app", &strings(&["platform/app"])));
    assert!(!is_component_selected("platform/db", &strings(&["app"])));
    let r = report(vec![
        component("platform/app", vec![], vec![]),
        component("platform/db", vec![], vec![]),
    ]);
    assert_eq!(components_to_apply(&r, &strings(&["app"])), strings(&["platform/app"]));
    assert_eq!(components_to_apply(&r, &vec![]), strings(&["platform/app", "platform/db"]));
}

#[test]
fn version_differences_are_listed_per_component() {
    let source = report(vec![
        component("platform/app", vec![chart("app", "2.0.0")], vec![image("acme/api", "v2")]),
        component("platform/same", vec![chart("same", "1.0.0")], vec![]),
        component("platform/new", vec![chart("new", "1.0.0")], vec![]),
    ]);
    let dest = report(vec![
        component("platform/app", vec![chart("app", "1.0.0")], vec![image("acme/api", "v1")]),
        component("platform/same", vec![chart("same", "1.0.0")], vec![]),
    ]);
    let diffs = diff_versions(&source, &dest);
    assert_eq!(diffs.len(), 1);
    assert_eq!(diffs[0].component, "platform/app");
    assert_eq!(diffs[0].helm_charts.len(), 1);
    assert_eq!(diffs[0].helm_charts[0].name, "app");
    assert_eq!(diffs[0].helm_charts[0].source_version, "2.0.0");
    assert_eq!(diffs[0].helm_charts[0].dest_version, "1.0.0");
    assert!(diffs[0].helm_charts[0].changed);
    assert_eq!(diffs[0].container_images.len(), 1);
    assert_eq!(diffs[0].container_images[0].source_tag, "v2");
    assert_eq!(diffs[0].container_images[0].dest_tag, "v1");
}

#[test]
fn line_diffs_mark_kept_added_and_removed_lines() {
    assert_eq!(
        compute_diff(Some("a\nb\n"), Some("a\nc\n")),
        strings(&["--- old", "+++ new", " a", "+c", "-b"])
    );
    assert_eq!(compute_diff(None, Some("x\ny")), strings(&["+x", "+y"]));
    assert_eq!(compute_diff(Some("x"), None), strings(&["-x"]));
    assert!(compute_diff(None, None).is_empty());
    assert_eq!(
        simple_diff(&strings(&["a", "b", "c"]), &strings(&["a", "c"])),
        strings(&[" a", "-b", " c"])
    );
    assert!(diff_line_style("+x") == LineStyle::Added);
    assert!(diff_line_style("+++ new") == LineStyle::Plain);
    assert!(diff_line_style("-x") == LineStyle::Removed);
    assert!(diff_line_style("--- old") == LineStyle::Plain);
    assert!(diff_line_style("@@ -1,2 +1,2 @@") == LineStyle::Hunk);
    assert!(diff_line_style(" a") == LineStyle::Plain);
}

#[test]
fn unified_diff_groups_changed_lines_into_hunks() {
    let hunks = compute_unified_diff(&strings(&["a", "b", "c"]), &strings(&["a", "x", "c"]));
    assert_eq!(hunks.len(), 1);
    assert_eq!(hunks[0].old_start, 2);
    assert_eq!(hunks[0].new_start, 2);
    assert_eq!(hunks[0].lines.len(), 2);
    assert!(hunks[0].lines[0].kind == DiffLineKind::Addition);
    assert_eq!(hunks[0].lines[0].content, "x");
    assert_eq!(hunks[0].lines[0].new_line, Some(2));
    assert_eq!(hunks[0].lines[0].old_line, None);
    assert!(hunks[0].lines[1].kind == DiffLineKind::Removal);
    assert_eq!(hunks[0].lines[1].content, "b");
    assert_eq!(hunks[0].lines[1].old_line, Some(2));

    let diff = diff_file("app/config.yaml", "a\nb\nc\n", "a\nx\nc\n");
    assert_eq!(diff.relative_path, "app/config.yaml");
    assert_eq!(diff.summary.additions, 1);
    assert_eq!(diff.summary.removals, 1);
    assert_eq!(diff.summary.modifications, 0);
    assert!(diff_file("same.yaml", "a\n", "a\n").summary.is_empty());

    let removal = create_removal_diff("gone.yaml", "a\nb\n");
    assert_eq!(removal.summary.removals, 2);
    assert_eq!(removal.summary.additions, 0);
    assert_eq!(removal.hunks.len(), 1);
    assert_eq!(removal.hunks[0].old_start, 1);
    assert_eq!(removal.hunks[0].new_start, 0);
    assert_eq!(removal.hunks[0].lines[1].content, "b");
    assert_eq!(removal.hunks[0].lines[1].old_line, Some(2));
}

fn source_rule(priority: u32) -> SourceRule {
    SourceRule { priority, description: String::new(), path: None, include_globs: vec![], exclude: vec![] }
}

#[test]
fn version_conflicts_are_resolved_by_strategy() {
    let mut rules = Config::default().rules;
    let versions = vec![
        ("a".to_string(), "1.2.0".to_string()),
        ("b".to_string(), "1.10.0".to_string()),
    ];
    assert_eq!(
        rules.resolve_version_conflict(&versions),
        Some(("b".to_string(), "1.10.0".to_string()))
    );
    assert_eq!(rules.resolve_version_conflict(&[]), None);
    assert_eq!(
        rules.resolve_version_conflict(&versions[..1]),
        Some(("a".to_string(), "1.2.0".to_string()))
    );

    rules.conflict_resolution.version_strategy = VersionStrategy::SourcePriority;
    rules.sources.push(("a".to_string(), source_rule(10)));
    rules.sources.push(("b".to_string(), source_rule(5)));
    assert_eq!(rules.get_source_priority("a"), 10);
    assert_eq!(rules.get_source_priority("unknown"), 0);
    assert_eq!(
        rules.resolve_version_conflict(&versions),
        Some(("a".to_string(), "1.2.0".to_string()))
    );

    rules.conflict_resolution.version_strategy = VersionStrategy::Newest;
    assert_eq!(
        rules.resolve_version_conflict(&versions),
        Some(("a".to_string(), "1.2.0".to_string()))
    );
}

#[test]
fn files_are_rewritten_for_charts_and_images() {
    let (_, both) = component("platform/app", vec![chart("app", "1.0.0")], vec![image("acme/api", "v1")]);
    let names: Vec<&str> = files_to_update(&both).iter().map(|(name, _)| *name).collect();
    assert_eq!(names, vec!["kustomization.yaml", "Chart.yaml", "values.yaml"]);
    let (_, images) = component("platform/app", vec![], vec![image("acme/api", "v1")]);
    let only = files_to_update(&images);
    assert_eq!(only.len(), 1);
    assert!(matches!(only[0].1, VersionFileKind::Values));
    let (_, none) = component("platform/app", vec![], vec![]);
    assert!(files_to_update(&none).is_empty());
}

#[test]
fn unified_diff_lines_come_from_the_texts_scenario() {
    let old = ["a", "b", "c", "d", "e"];
    let new = ["a", "x", "c", "d", "y", "z"];
    let hunks = compute_unified_diff(&strings(&old), &strings(&new));
    assert_eq!(hunks.len(), 2);
    let mut added = 0;
    let mut removed = 0;
    for hunk in &hunks {
        assert!(!hunk.lines.is_empty());
        for line in &hunk.lines {
            match line.kind {
                DiffLineKind::Addition => {
                    let k = line.new_line.expect("new line number");
                    assert_eq!(line.old_line, None);
                    assert_eq!(line.content, new[k - 1]);
                    added += 1;
                }
                DiffLineKind::Removal => {
                    let k = line.old_line.expect("old line number");
                    assert_eq!(line.new_line, None);
                    assert_eq!(line.content, old[k - 1]);
                    removed += 1;
                }
                DiffLineKind::Context => panic!("no context lines"),
            }
        }
    }
    assert!(added <= new.len());
    assert!(removed <= old.len());
    assert_eq!(added, 3);
    assert_eq!(removed, 2);
}
