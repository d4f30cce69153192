use promrail::config::Config;
use promrail::files::selector::FileSelector;

#[test]
fn internal_metadata_is_never_promoted() {
    let selector = FileSelector::from_patterns(Vec::new(), Vec::new(), Vec::new())
        .ok()
        .expect("globset");
    assert!(!selector.should_promote(".promotion-snapshots.yaml", false));
    assert!(!selector.should_promote(".promrail/review/test.yaml", false));
    assert!(selector.should_promote("platform/app/config.yaml", false));
}

#[test]
fn readme_files_are_always_allowed() {
    let config = Config {
        allowlist: vec!["platform/**/*.yaml".to_string()],
        denylist: vec![],
        protected_dirs: vec![],
        ..Default::default()
    };
    let selector = FileSelector::from_config(&config).ok().expect("selector");
    assert!(selector.should_promote("platform/app/config.yaml", false));
    assert!(selector.should_promote("README.md", false));
    assert!(selector.should_promote("platform/README.md", false));
    assert!(selector.should_promote("apps/README.org", false));
    assert!(!selector.should_promote("apps/other.md", false));
}

#[test]
fn empty_allowlist_includes_readme_by_default() {
    let config = Config {
        allowlist: vec![],
        denylist: vec![],
        protected_dirs: vec![],
        ..Default::default()
    };
    let selector = FileSelector::from_config(&config).ok().expect("selector");
    assert!(selector.should_promote("README.md", false));
    assert!(selector.should_promote("platform/config.yaml", false));
}

#[test]
fn invalid_glob_patterns_are_refused() {
    match FileSelector::from_patterns(vec!["apps/[".to_string()], Vec::new(), Vec::new()) {
        Err(e @ promrail::error::PromrailError::Glob(_)) => {
            assert!(e.message().starts_with("Glob pattern error: "))
        }
        _ => panic!("glob error expected"),
    }
    assert!(FileSelector::from_patterns(Vec::new(), vec!["{a,".to_string()], Vec::new()).is_err());
}

#[test]
fn deeply_nested_patterns_are_refused_not_panicked_on() {
    let deep = format!("{}a{}", "{".repeat(300), "}".repeat(300));
    assert!(matches!(
        FileSelector::from_patterns(vec![deep], Vec::new(), Vec::new()),
        Err(promrail::error::PromrailError::Glob(_))
    ));
}
