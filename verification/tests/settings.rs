use promrail::audit::{PromotionEntry, PromotionLog};
use promrail::cli::{find_config_path, LogLevel};
use promrail::commands::validate::{
    validation_outcome, validation_report, EnvCheck, RepoCheck, ValidationReport,
};
use promrail::config::{
    default_log_file, default_true, expand_home, Config, ConfigStrategy, EnvironmentConfig, PromotionAction,
    PromotionRules, RepoConfig, VersionStrategy,
};
use promrail::config_doc::{clean_type_text, format_example_field, format_field, ConfigDoc, DocField};
use promrail::error::PromrailError;

fn env(path: &str) -> EnvironmentConfig {
    EnvironmentConfig { path: path.to_string() }
}

#[test]
fn single_repo_configuration_checks_its_defaults() {
    let mut config = Config {
        environments: vec![("staging".to_string(), env("clusters/staging"))],
        default_source: Some("staging".to_string()),
        ..Default::default()
    };
    assert!(config.validate().is_ok());
    assert!(config.is_single_repo());
    config.default_dest = Some("production".to_string());
    match config.validate() {
        Err(e) => assert_eq!(
            e.message(),
            "Config validation failed: default_dest 'production' not found in environments"
        ),
        Ok(()) => panic!("expected an error"),
    }
    let (name, repo) = config.get_repo(None).ok().expect("implicit repo");
    assert_eq!(name, "default");
    assert_eq!(repo.path, ".");
    assert!(!repo.has_environments());
    assert_eq!(config.get_environments().len(), 1);
}

#[test]
fn multi_repo_configuration_needs_its_default_repo() {
    let empty = Config::default();
    match empty.validate() {
        Err(PromrailError::ConfigInvalid(m)) => assert_eq!(m, "no environments or repos defined"),
        _ => panic!("expected an error"),
    }
    let mut config = Config {
        repos: vec![(
            "gitops".to_string(),
            RepoConfig {
                path: "~/gitops".to_string(),
                environments: vec![("staging".to_string(), env("clusters/staging"))],
            },
        )],
        default_repo: "other".to_string(),
        ..Default::default()
    };
    match config.validate() {
        Err(PromrailError::ConfigInvalid(m)) => assert_eq!(m, "default_repo 'other' not found in repos"),
        _ => panic!("expected an error"),
    }
    match config.get_repo(None) {
        Err(e) => assert_eq!(e.message(), "Repository 'other' not found in config"),
        Ok(_) => panic!("expected an error"),
    }
    assert!(config.get_environments().is_empty());
    config.default_repo = "gitops".to_string();
    assert!(config.validate().is_ok());
    assert_eq!(config.get_environments().len(), 1);
    assert!(!config.is_v2_style());
    let (name, _) = config.first_repo().expect("first repo");
    assert_eq!(name, "gitops");
}

#[test]
fn home_is_expanded_at_the_start_only() {
    assert_eq!(expand_home("~/gitops", Some("/home/me".to_string())), "/home/me/gitops");
    assert_eq!(expand_home("/srv/~x", Some("/home/me".to_string())), "/srv/~x");
    assert_eq!(expand_home("~/gitops", None), "~/gitops");
    assert!(default_true());
    assert_eq!(default_log_file(), ".promotion-log.yaml");
}

#[test]
fn config_file_is_found_among_candidates() {
    assert_eq!(find_config_path(Some("my.yaml"), &vec![false; 4]).ok(), Some("my.yaml".to_string()));
    assert_eq!(
        find_config_path(None, &vec![false, false, true, true]).ok(),
        Some(".promrail.yaml".to_string())
    );
    match find_config_path(None, &vec![false; 4]) {
        Err(e) => assert_eq!(
            e.message(),
            "Config file not found: 'promrail.yaml (set PROMRAIL_CONFIG env var or use --config)'"
        ),
        Ok(_) => panic!("expected an error"),
    }
    assert_eq!(LogLevel::Debug.name(), "debug");
}

#[test]
fn validation_collects_errors_and_warnings() {
    let config = Config {
        repos: vec![(
            "gitops".to_string(),
            RepoConfig {
                path: "/srv/gitops".to_string(),
                environments: vec![("staging".to_string(), env("clusters/staging"))],
            },
        )],
        default_repo: "gitops".to_string(),
        ..Default::default()
    };
    let checks = vec![RepoCheck {
        path: "/srv/gitops".to_string(),
        exists: false,
        environments: vec![EnvCheck { path: "/srv/gitops/clusters/staging".to_string(), exists: false }],
    }];
    let report = validation_report(&config, &checks, &None);
    assert_eq!(
        report.errors,
        vec![
            "Repository 'gitops' path does not exist: /srv/gitops".to_string(),
            "Environment 'staging' in repo 'gitops' does not exist: /srv/gitops/clusters/staging".to_string(),
        ]
    );
    assert_eq!(report.warnings, vec!["No allowlist patterns defined (will match all files)".to_string()]);
    match validation_outcome(&report) {
        Err(e) => assert_eq!(e.message(), "Config validation failed: 2 validation error(s)"),
        Ok(()) => panic!("expected an error"),
    }
    let clean = ValidationReport { errors: vec![], warnings: vec![] };
    assert!(validation_outcome(&clean).is_ok());
    let mut strict = Config { allowlist: vec!["**".to_string()], ..Default::default() };
    strict.git.require_clean_tree = true;
    let r = validation_report(&strict, &vec![], &Some(Ok(false)));
    assert_eq!(r.errors, vec!["No repositories defined".to_string()]);
    assert_eq!(r.warnings, vec!["Git tree has uncommitted changes".to_string()]);
    let r = validation_report(&strict, &vec![], &Some(Err("boom".to_string())));
    assert_eq!(r.warnings, vec!["Could not check git status: boom".to_string()]);
}

#[test]
fn audit_log_records_entries() {
    let mut entry = PromotionEntry::new("staging".to_string(), "production".to_string(), "abc".to_string());
    entry.add_promoted("platform/a.yaml".to_string(), "copied");
    entry.add_skipped("platform/b.yaml".to_string(), "unchanged");
    entry.add_protected("custom/c.yaml".to_string(), "protected");
    assert_eq!(entry.promoted[0].path, "platform/a.yaml");
    assert_eq!(entry.promoted[0].action, "copied");
    assert_eq!(entry.skipped[0].reason, "unchanged");
    assert_eq!(entry.protected[0].reason, "protected");
    let mut log = PromotionLog::new();
    log.add_entry(entry);
    assert_eq!(log.promotions.len(), 1);
}

#[test]
fn documentation_fields_are_formatted() {
    assert_eq!(clean_type_text(" std::collections::HashMap<alloc::string::String, alloc::vec::Vec<u8>> "), "map<string, array<u8>>");
    let field = DocField {
        name: "version",
        type_text: "u32",
        description: " Config schema version (currently 1).",
        default: Some("1"),
        example: None,
        env: None,
        required: true,
        nested: None,
    };
    assert_eq!(
        format_field(&field),
        "\x1b[1m\x1b[36mversion\x1b[0m (required)\n  \x1b[2mType:\x1b[0m u32\n   Config schema version (currently 1).\n  \x1b[2mDefault:\x1b[0m 1\n\n"
    );
    assert_eq!(
        format_example_field(&field),
        "#  Config schema version (currently 1).\n# Default: 1\n# version: <u32>\n\n"
    );
    let docs = Config::generate_full_docs();
    assert!(docs.starts_with("\x1b[1mPromrail Configuration\x1b[0m\n──────────────────────\n\n"));
    assert!(docs.ends_with("\x1b[36mPROMRAIL_REPO\x1b[0m\n  Default repository name\n\n"));
    assert!(Config::generate_example().contains("repos: gitops: { path: ~/gitops }\n"));
    assert!(Config::generate_full_example().starts_with("# Promrail Configuration\n"));
}

#[test]
fn strategies_and_actions_are_named_as_configured() {
    assert_eq!(VersionStrategy::Highest.name(), "highest");
    assert_eq!(VersionStrategy::Newest.name(), "newest");
    assert_eq!(VersionStrategy::SourcePriority.name(), "source_priority");
    assert_eq!(ConfigStrategy::SourcePriority.name(), "source_priority");
    assert_eq!(ConfigStrategy::Merge.name(), "merge");
    assert_eq!(ConfigStrategy::Fail.name(), "fail");
    assert_eq!(PromotionAction::Always.name(), "always");
    assert_eq!(PromotionAction::Review.name(), "review");
    assert_eq!(PromotionAction::Never.name(), "never");
}

#[test]
fn default_rules_and_configuration_say_nothing() {
    let rules = PromotionRules::default();
    assert!(rules.sources.is_empty());
    assert!(rules.components.is_empty());
    assert!(matches!(rules.conflict_resolution.version_strategy, VersionStrategy::Highest));
    assert!(rules.conflict_resolution.config_strategy == ConfigStrategy::SourcePriority);
    assert!(rules.conflict_resolution.source_order.is_empty());
    assert!(rules.global.exclude.is_empty());
    assert!(rules.global.review_required.is_empty());
    assert!(!rules.global.version_rules.allow_downgrade);
    assert!(!rules.global.version_rules.allow_prerelease);
    assert_eq!(rules.global.version_rules.min_age_hours, None);
    assert!(!rules.global.promote_options.allow_duplicates);

    let config = Config::default();
    assert!(!config.delete.enabled);
    assert!(!config.delete.dest_based);
    assert!(config.audit.log_file.is_empty());
    assert!(config.rules.sources.is_empty());
}
