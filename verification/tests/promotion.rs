use promrail::commands::preserve::preserve_yaml_with_serde;
use promrail::commands::promote::{admits_candidate, preserve_paths_for, PromoteArgs};
use promrail::config::{
    ComponentRule, Config, EnvironmentConfig, PreserveRule, PromotionAction, RepoConfig,
    SourceChangeHandling, VersionHandling,
};
use promrail::review::analyze::{analyze_multi_source_promotion, hash_bytes, FileCandidate};
use promrail::review::grouping::group_candidates;

fn env(path: &str) -> EnvironmentConfig {
    EnvironmentConfig { path: path.to_string() }
}

fn multi_source_config_with_preserve_rule(component: &str, file: &str, paths: &[&str]) -> Config {
    let mut config = Config {
        version: 1,
        repos: vec![(
            "test".to_string(),
            RepoConfig {
                path: ".".to_string(),
                environments: vec![
                    ("staging-a".to_string(), env("staging-a")),
                    ("staging-b".to_string(), env("staging-b")),
                    ("production".to_string(), env("production")),
                ],
            },
        )],
        default_repo: "test".to_string(),
        protected_dirs: vec!["custom".to_string(), "env".to_string(), "local".to_string()],
        allowlist: vec!["**/*.yaml".to_string()],
        denylist: vec!["**/secrets*".to_string(), "**/*secret*".to_string()],
        ..Default::default()
    };
    config.git.require_clean_tree = false;
    config.rules.components.push((
        component.to_string(),
        ComponentRule {
            action: PromotionAction::Always,
            notes: "Preserve destination-specific paths".to_string(),
            version_constraint: None,
            source_change_handling: SourceChangeHandling::Warn,
            version_handling: VersionHandling::WholeFile,
            preserve: vec![PreserveRule {
                file: file.to_string(),
                paths: paths.iter().map(|p| p.to_string()).collect(),
            }],
        },
    ));
    config
}

fn promote_args() -> PromoteArgs {
    PromoteArgs {
        sources: vec!["staging-a".to_string(), "staging-b".to_string()],
        dest: "production".to_string(),
        filter: vec![".*".to_string()],
        delete: true,
        dest_based: false,
        dry_run: false,
        confirm: false,
        show_diff: false,
        include_protected: false,
        allow_duplicates: false,
        only_existing: false,
        ignore_gitignore: false,
        force: false,
    }
}

#[test]
fn test_multi_source_preserve_rule_keeps_destination_env_values() {
    let config = multi_source_config_with_preserve_rule(
        "platform/demo",
        "config.yaml",
        &["spec.origin", "spec.redirectUrl"],
    );
    let production = "spec:\n  origin: https://prod.example.com\n  redirectUrl:\n    - https://prod.example.com/callback\n  common: old\n";
    let staging_a = "spec:\n  origin: https://source.example.com\n  redirectUrl:\n    - https://source.example.com/callback\n  common: new\n";
    let relative = "platform/demo/config.yaml";
    let args = promote_args();

    // Only staging-a offers the file; the component exists in production.
    assert!(admits_candidate(&config, &args, "staging-a", relative, true));
    let candidate = FileCandidate {
        source_name: "staging-a".to_string(),
        absolute_path: format!("staging-a/{}", relative),
        component: "platform/demo".to_string(),
        existing_component: true,
        content_hash: hash_bytes(staging_a.as_bytes()),
        version_managed: false,
    };
    let groups = group_candidates(vec![(relative.to_string(), candidate)], &vec![relative.to_string()]);
    let analysis = analyze_multi_source_promotion(
        &config,
        &args.sources,
        &groups,
        &vec![(relative.to_string(), hash_bytes(production.as_bytes()))],
        &args.dest,
        &args.filter,
    );
    // No review is required: the file is promoted from its one source.
    assert!(analysis.review_items.is_empty());
    assert_eq!(analysis.auto_files.len(), 1);
    assert_eq!(analysis.auto_files[0].0, relative);
    assert_eq!(analysis.auto_files[0].1 .0, "staging-a");

    let paths = preserve_paths_for(&config, relative, true).expect("preserve rule applies");
    assert_eq!(paths, vec!["spec.origin".to_string(), "spec.redirectUrl".to_string()]);
    let content = preserve_yaml_with_serde(staging_a, production, &paths).ok().expect("preserved");
    let doc: serde_yaml::Value = serde_yaml::from_str(&content).expect("invalid yaml");
    assert_eq!(doc["spec"]["origin"], "https://prod.example.com");
    assert_eq!(doc["spec"]["redirectUrl"][0], "https://prod.example.com/callback");
    assert_eq!(doc["spec"]["common"], "new");
}

#[test]
fn preserve_rule_applies_only_to_existing_destination_files() {
    let config = multi_source_config_with_preserve_rule("platform/demo", "config.yaml", &["spec.origin"]);
    assert!(preserve_paths_for(&config, "platform/demo/config.yaml", false).is_none());
    assert!(preserve_paths_for(&config, "platform/demo/other.yaml", true).is_none());
    assert!(preserve_paths_for(&config, "platform/other/config.yaml", true).is_none());
}

#[test]
fn file_hashes_tell_contents_apart() {
    assert_eq!(hash_bytes(b"mode: a\n"), hash_bytes(b"mode: a\n"));
    assert_ne!(hash_bytes(b"mode: a\n"), hash_bytes(b"mode: b\n"));
}
