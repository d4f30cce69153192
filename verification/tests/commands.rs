use promrail::commands::diff::{
    considered_for_copy, copy_change, diff_environments, planned_deletions, DiffArgs,
};
use promrail::commands::preserve::{
    get_value_at_path, is_yaml_file, parse_path, preserve_json, preserve_yaml_with_serde,
    set_value_at_path, PathToken,
};
use promrail::commands::promote::{
    admits_candidate, calculate_files_to_delete, content_changed, distinct_components,
    env_not_found_error, handle_duplicates, is_confirmation, resolve_source_paths, should_delete,
    uses_multi_source, PromoteArgs,
};
use promrail::commands::snapshot_log::{add_snapshot_record, record_snapshot_files};
use promrail::commands::{default_filter, promotion_summary, DEFAULT_FILTER};
use promrail::config::{Config, EnvironmentConfig, PromoteOptions, RepoConfig};
use promrail::error::PromrailError;
use promrail::git::diff::DiffAction;
use promrail::yaml::YamlValue;

fn env(path: &str) -> EnvironmentConfig {
    EnvironmentConfig { path: path.to_string() }
}

fn multi_repo_config() -> Config {
    Config {
        repos: vec![(
            "gitops".to_string(),
            RepoConfig {
                path: "/srv/gitops".to_string(),
                environments: vec![
                    ("staging".to_string(), env("clusters/staging")),
                    ("production".to_string(), env("clusters/production")),
                ],
            },
        )],
        default_repo: "gitops".to_string(),
        ..Default::default()
    }
}

fn promote_args(sources: &[&str], dest: &str) -> PromoteArgs {
    PromoteArgs {
        sources: sources.iter().map(|s| s.to_string()).collect(),
        dest: dest.to_string(),
        filter: vec![".*".to_string()],
        delete: true,
        dest_based: false,
        dry_run: false,
        confirm: false,
        show_diff: false,
        include_protected: false,
        allow_duplicates: false,
        only_existing: false,
        ignore_gitignore: false,
        force: false,
    }
}

#[test]
fn default_filter_matches_everything_when_none_given() {
    assert_eq!(default_filter(vec![]), vec![DEFAULT_FILTER.to_string()]);
    assert_eq!(default_filter(vec!["platform".to_string()]), vec!["platform".to_string()]);
}

#[test]
fn summary_counts_copies_and_deletions() {
    let lines = promotion_summary(1, 0, true);
    assert_eq!(lines.len(), 1);
    assert_eq!(lines[0].count, 1);
    assert_eq!(lines[0].label(), " file copied");
    let lines = promotion_summary(3, 2, true);
    assert_eq!(lines.len(), 2);
    assert_eq!(lines[0].label(), " files copied");
    assert_eq!(lines[1].count, 2);
    assert_eq!(lines[1].label(), " files deleted");
    assert_eq!(promotion_summary(3, 2, false).len(), 1);
}

#[test]
fn promote_args_fall_back_to_config_defaults() {
    let mut config = multi_repo_config();
    let r = PromoteArgs::from_cli(
        vec![], None, vec![], false, false, false, false, false, false, false, false, false, false,
        &config,
    );
    match r {
        Err(e) => assert_eq!(
            e.message(),
            "Config validation failed: no source specified and no default_sources in config"
        ),
        Ok(_) => panic!("expected an error"),
    }
    config.default_sources = vec!["staging".to_string()];
    let r = PromoteArgs::from_cli(
        vec![], None, vec![], false, false, false, false, false, false, false, false, false, false,
        &config,
    );
    match r {
        Err(PromrailError::ConfigInvalid(m)) => {
            assert_eq!(m, "no dest specified and no default_dest in config")
        }
        _ => panic!("expected an error"),
    }
    config.default_dest = Some("production".to_string());
    config.rules.global.promote_options.ignore_gitignore = true;
    let args = PromoteArgs::from_cli(
        vec![], None, vec![], true, false, true, false, false, false, false, false, false, false,
        &config,
    )
    .ok()
    .expect("arguments");
    assert_eq!(args.sources, vec!["staging".to_string()]);
    assert_eq!(args.dest, "production");
    assert_eq!(args.filter, vec![".*".to_string()]);
    assert!(!args.delete);
    assert!(args.dry_run);
    assert!(args.ignore_gitignore);
    let args = PromoteArgs::from_cli(
        vec!["a".to_string()], Some("b".to_string()), vec![], false, false, false, false, false,
        false, false, false, false, true, &config,
    )
    .ok()
    .expect("arguments");
    assert_eq!(args.sources, vec!["a".to_string()]);
    assert_eq!(args.dest, "b");
    assert!(!args.ignore_gitignore);
}

#[test]
fn unknown_environment_names_the_repository() {
    let config = multi_repo_config();
    assert_eq!(
        env_not_found_error(&config, "qa").message(),
        "Environment 'qa' not found in repo 'gitops'"
    );
    let single = Config { environments: vec![("staging".to_string(), env("s"))], ..Default::default() };
    assert_eq!(
        env_not_found_error(&single, "qa").message(),
        "Environment 'qa' not found in repo 'default'"
    );
}

#[test]
fn confirmation_answers() {
    assert!(is_confirmation("y\n"));
    assert!(is_confirmation("  Yes  "));
    assert!(!is_confirmation("no"));
    assert!(!is_confirmation(""));
}

#[test]
fn multi_source_route_is_taken_for_several_sources_or_a_repository() {
    let mut config = multi_repo_config();
    assert!(!uses_multi_source(&config, &promote_args(&["staging"], "production")));
    assert!(uses_multi_source(&config, &promote_args(&["staging", "production"], "production")));
    config.repos.push((
        "homelab".to_string(),
        RepoConfig { path: "~/homelab".to_string(), environments: vec![] },
    ));
    assert!(uses_multi_source(&config, &promote_args(&["homelab"], "production")));
}

#[test]
fn deletion_follows_arguments_and_options() {
    let mut config = multi_repo_config();
    assert!(should_delete(&config, &promote_args(&["staging"], "production")));
    config.rules.global.promote_options.no_delete = true;
    assert!(!should_delete(&config, &promote_args(&["staging"], "production")));
}

#[test]
fn components_are_listed_once_in_order() {
    let paths = vec![
        "platform/b/values.yaml".to_string(),
        "platform/a/Chart.yaml".to_string(),
        "platform/b/kustomization.yaml".to_string(),
        "apps/c/config.yaml".to_string(),
    ];
    assert_eq!(
        distinct_components(&paths, true),
        vec!["platform/a".to_string(), "platform/b".to_string()]
    );
    assert_eq!(
        distinct_components(&paths, false),
        vec!["apps/c".to_string(), "platform/a".to_string(), "platform/b".to_string()]
    );
}

#[test]
fn duplicates_are_refused_unless_allowed() {
    let duplicates = vec![(
        "platform/a.yaml".to_string(),
        vec!["staging-a".to_string(), "staging-b".to_string()],
    )];
    let options = PromoteOptions {
        allow_duplicates: false,
        only_existing: false,
        no_delete: false,
        ignore_gitignore: false,
    };
    let mut args = promote_args(&["staging-a", "staging-b"], "production");
    match handle_duplicates(&duplicates, &args, &options) {
        Err(e) => assert_eq!(
            e.message(),
            "Duplicate files found in multiple sources:\n  platform/a.yaml (in: staging-a, staging-b)"
        ),
        Ok(()) => panic!("expected an error"),
    }
    args.allow_duplicates = true;
    assert!(handle_duplicates(&duplicates, &args, &options).is_ok());
    assert!(handle_duplicates(&vec![], &promote_args(&["a"], "b"), &options).is_ok());
}

#[test]
fn protected_and_provided_files_are_not_deleted() {
    let dest = vec![
        "platform/a.yaml".to_string(),
        "custom/b.yaml".to_string(),
        "platform/c.yaml".to_string(),
        "platform/d.yaml".to_string(),
    ];
    let provided = vec![(
        "platform/a.yaml".to_string(),
        ("staging".to_string(), "/s/platform/a.yaml".to_string()),
    )];
    let retained = vec!["platform/d.yaml".to_string()];
    let protected = vec!["custom".to_string()];
    assert_eq!(
        calculate_files_to_delete(&dest, &provided, &retained, &protected),
        vec!["platform/c.yaml".to_string()]
    );
}

#[test]
fn unchanged_contents_are_not_copied() {
    assert!(!content_changed(&Some(b"a: 1\n".to_vec()), &b"a: 1\n".to_vec()));
    assert!(content_changed(&Some(b"a: 1\n".to_vec()), &b"a: 2\n".to_vec()));
    assert!(content_changed(&None, &b"a: 1\n".to_vec()));
}

#[test]
fn protected_files_need_the_flag() {
    let config = Config { protected_dirs: vec!["custom".to_string()], ..Default::default() };
    let mut args = promote_args(&["staging"], "production");
    assert!(!admits_candidate(&config, &args, "staging", "custom/values.yaml", true));
    assert!(admits_candidate(&config, &args, "staging", "platform/values.yaml", true));
    args.include_protected = true;
    assert!(admits_candidate(&config, &args, "staging", "custom/values.yaml", true));
    args.only_existing = true;
    assert!(!admits_candidate(&config, &args, "staging", "platform/values.yaml", false));
}

#[test]
fn environments_resolve_under_the_repository() {
    let config = multi_repo_config();
    let sources = vec!["staging".to_string()];
    let paths = resolve_source_paths(&config, "/srv/gitops", &sources).ok().expect("paths");
    assert_eq!(paths, vec![("staging".to_string(), "/srv/gitops/clusters/staging".to_string())]);
    let unknown = vec!["staging".to_string(), "qa".to_string()];
    match resolve_source_paths(&config, "/srv/gitops", &unknown) {
        Err(e) => assert_eq!(e.message(), "Environment 'qa' not found in repo 'gitops'"),
        Ok(_) => panic!("expected an error"),
    }
}

#[test]
fn paths_split_into_keys_and_indexes() {
    let tokens = parse_path("spec..redirectUrl.0");
    assert_eq!(tokens.len(), 3);
    assert!(matches!(&tokens[0], PathToken::Key(k) if k == "spec"));
    assert!(matches!(&tokens[1], PathToken::Key(k) if k == "redirectUrl"));
    assert!(matches!(&tokens[2], PathToken::Index(0)));
}

#[test]
fn a_value_written_at_a_path_reads_back() {
    let doc = YamlValue::Null;
    let tokens = parse_path("a.1.b");
    let written = set_value_at_path(&doc, &tokens, YamlValue::Text("x".to_string()));
    match get_value_at_path(&written, &tokens) {
        Some(YamlValue::Text(t)) => assert_eq!(t, "x"),
        _ => panic!("value not found"),
    }
    match get_value_at_path(&written, &parse_path("a.0")) {
        Some(YamlValue::Null) => {}
        _ => panic!("padding expected"),
    }
}

#[test]
fn preserve_rule_keeps_destination_values() {
    let dest = "spec:\n  origin: https://prod.example.com\n  redirectUrl:\n    - https://prod.example.com/callback\n  common: old\n";
    let source = "spec:\n  origin: https://source.example.com\n  redirectUrl:\n    - https://source.example.com/callback\n  common: new\n";
    let paths = vec!["spec.origin".to_string(), "spec.redirectUrl".to_string()];
    let out = preserve_yaml_with_serde(source, dest, &paths).ok().expect("preserved");
    let doc: serde_yaml::Value = serde_yaml::from_str(&out).expect("invalid yaml");
    assert_eq!(doc["spec"]["origin"], "https://prod.example.com");
    assert_eq!(doc["spec"]["redirectUrl"][0], "https://prod.example.com/callback");
    assert_eq!(doc["spec"]["common"], "new");
    assert!(matches!(
        preserve_yaml_with_serde("a: [", dest, &paths),
        Err(PromrailError::Yaml(_))
    ));
}

#[test]
fn preserve_rule_keeps_destination_values_in_json() {
    let dest = "{\"spec\": {\"origin\": \"prod\", \"common\": 1}}";
    let source = "{\"spec\": {\"origin\": \"source\", \"common\": 2}}";
    let out = preserve_json(source, dest, &vec!["spec.origin".to_string()]).ok().expect("json");
    assert!(out.ends_with("}\n"));
    let doc: serde_json::Value = serde_json::from_str(&out).expect("invalid json");
    assert_eq!(doc["spec"]["origin"], "prod");
    assert_eq!(doc["spec"]["common"], 2);
    assert!(matches!(preserve_json("{", dest, &vec![]), Err(PromrailError::Json(_))));
}

#[test]
fn yaml_files_are_told_by_extension() {
    assert!(is_yaml_file("platform/a/config.yaml"));
    assert!(is_yaml_file("platform/a/config.YML"));
    assert!(!is_yaml_file("platform/a/config.json"));
    assert!(!is_yaml_file("platform/a/.yaml"));
}

#[test]
fn snapshot_log_records_promotions() {
    let first = add_snapshot_record(None, "snap_1", "2024-01-01T00:00:00Z", None).ok().expect("log");
    let doc: serde_yaml::Value = serde_yaml::from_str(&first).expect("yaml");
    assert_eq!(doc["snapshots"][0]["id"], "snap_1");
    assert_eq!(doc["snapshots"][0]["status"], "applied");
    let second = add_snapshot_record(Some(&first), "snap_2", "2024-01-02T00:00:00Z", Some("review.yaml"))
        .ok()
        .expect("log");
    let doc: serde_yaml::Value = serde_yaml::from_str(&second).expect("yaml");
    assert_eq!(doc["snapshots"][1]["id"], "snap_2");
    assert_eq!(doc["snapshots"][1]["review_artifact"], "review.yaml");
    let recorded = record_snapshot_files(
        &second,
        "snap_2",
        &vec!["platform/a.yaml".to_string()],
        &vec![],
        &vec!["platform/b/values.yaml".to_string()],
    )
    .ok()
    .expect("log");
    let doc: serde_yaml::Value = serde_yaml::from_str(&recorded).expect("yaml");
    assert_eq!(doc["snapshots"][1]["files_modified"][0], "platform/a.yaml");
    assert_eq!(doc["snapshots"][1]["version_updated"][0], "platform/b/values.yaml");
    assert!(doc["snapshots"][1].get("files_deleted").is_none());
    assert!(doc["snapshots"][0].get("files_modified").is_none());
}

fn diff_args(delete: bool, dest_based: bool) -> DiffArgs {
    DiffArgs {
        source: "staging".to_string(),
        dest: "production".to_string(),
        filter: vec![".*".to_string()],
        delete,
        dest_based,
        include_protected: false,
    }
}

#[test]
fn diff_finds_environments_of_the_default_repository() {
    let config = multi_repo_config();
    let (s, d) = diff_environments(&config, &diff_args(true, false)).ok().expect("envs");
    assert_eq!(s, "clusters/staging");
    assert_eq!(d, "clusters/production");
    let mut same = diff_args(true, false);
    same.dest = "staging".to_string();
    assert!(matches!(diff_environments(&config, &same), Err(PromrailError::SameEnvironment(_))));
    let mut unknown = diff_args(true, false);
    unknown.source = "nonexistent".to_string();
    match diff_environments(&config, &unknown) {
        Err(e) => assert!(e.message().contains("not found")),
        Ok(_) => panic!("expected an error"),
    }
}

#[test]
fn diff_reports_added_modified_and_unchanged_files() {
    let added = copy_change("platform/config.yaml", Some("key: value\n".to_string()), None).expect("added");
    assert!(added.action == DiffAction::Added);
    let modified = copy_change(
        "platform/config.yaml",
        Some("key: new-value\n".to_string()),
        Some("key: old-value\n".to_string()),
    )
    .expect("modified");
    assert!(modified.action == DiffAction::Modified);
    assert_eq!(modified.old_content.as_deref(), Some("key: old-value\n"));
    assert!(copy_change("a", Some("same".to_string()), Some("same".to_string())).is_none());
}

#[test]
fn dest_based_diff_copies_only_into_existing_directories() {
    let args = diff_args(true, true);
    let dest_files = vec!["platform/existing.yaml".to_string()];
    let dest_subdirs = vec!["platform".to_string()];
    assert!(considered_for_copy(&args, "platform/config.yaml", &dest_subdirs, &dest_files));
    assert!(!considered_for_copy(&args, "system/config.yaml", &dest_subdirs, &dest_files));
    assert!(considered_for_copy(&diff_args(true, false), "system/config.yaml", &dest_subdirs, &dest_files));
}

#[test]
fn dest_based_deletes_only_in_source_directories() {
    let source_files = vec!["platform/config.yaml".to_string()];
    let dest_files = vec!["platform/old.yaml".to_string(), "system/old.yaml".to_string()];
    let source_subdirs = vec!["platform".to_string()];
    assert_eq!(
        planned_deletions(&diff_args(true, true), &source_files, &dest_files, &source_subdirs),
        vec!["platform/old.yaml".to_string()]
    );
    assert_eq!(
        planned_deletions(&diff_args(true, false), &source_files, &dest_files, &source_subdirs),
        dest_files
    );
    assert!(planned_deletions(&diff_args(false, false), &source_files, &dest_files, &source_subdirs).is_empty());
}

#[test]
fn diff_finds_top_level_environments_in_single_repo_mode() {
    let config = Config {
        environments: vec![
            ("staging".to_string(), env("clusters/staging")),
            ("production".to_string(), env("clusters/production")),
        ],
        ..Default::default()
    };
    let (s, d) = diff_environments(&config, &diff_args(true, false)).ok().expect("envs");
    assert_eq!(s, "clusters/staging");
    assert_eq!(d, "clusters/production");
    let mut unknown = diff_args(true, false);
    unknown.dest = "qa".to_string();
    match diff_environments(&config, &unknown) {
        Err(e) => assert_eq!(e.message(), "Environment 'qa' not found in repo 'default'"),
        Ok(_) => panic!("expected an error"),
    }
}
