use aster::cache::matcher::TargetInputMatcher;
use aster::config::project::CacheConfig;
use aster::plugins::CacheInputs;

fn inputs(source: &[&str], config: &[&str]) -> CacheInputs {
    CacheInputs {
        source_globs: source.iter().map(|s| s.to_string()).collect(),
        config_files: config.iter().map(|s| s.to_string()).collect(),
        env_vars: vec![],
    }
}

#[test]
fn has_patterns_false_for_empty_inputs() {
    let m = TargetInputMatcher::build("/p", &inputs(&[], &[]), None).unwrap();
    assert!(!m.has_patterns());
    assert!(!m.matches_relative("src/foo.ts"));
}

#[test]
fn matches_source_globs() {
    let m = TargetInputMatcher::build(
        "/p",
        &inputs(&["src/**/*.ts"], &["package.json"]),
        None,
    )
    .unwrap();
    assert!(m.has_patterns());
    assert!(m.matches_relative("src/foo.ts"));
    assert!(m.matches_relative("src/nested/bar.ts"));
    assert!(m.matches_relative("package.json"));
    assert!(!m.matches_relative("README.md"));
}

#[test]
fn user_exclude_wins_over_include() {
    let user = CacheConfig {
        enabled: None,
        include_globs: vec![],
        exclude_globs: vec!["**/*.test.ts".to_string()],
        env: vec![],
        outputs: vec![],
    };
    let m = TargetInputMatcher::build(
        "/p",
        &inputs(&["src/**/*.ts"], &[]),
        Some(&user),
    )
    .unwrap();
    assert!(m.matches_relative("src/foo.ts"));
    assert!(!m.matches_relative("src/foo.test.ts"));
}

#[test]
fn user_include_extends_plugin_patterns() {
    let user = CacheConfig {
        enabled: None,
        include_globs: vec!["extra/**/*.json".to_string()],
        exclude_globs: vec![],
        env: vec![],
        outputs: vec![],
    };
    let m = TargetInputMatcher::build(
        "/p",
        &inputs(&["src/**/*.ts"], &[]),
        Some(&user),
    )
    .unwrap();
    assert!(m.matches_relative("src/foo.ts"));
    assert!(m.matches_relative("extra/data.json"));
}

#[test]
fn owns_strips_project_root() {
    let m = TargetInputMatcher::build(
        "/repo/libs/core",
        &inputs(&["src/**/*.ts"], &[]),
        None,
    )
    .unwrap();
    assert!(m.owns("/repo/libs/core/src/foo.ts"));
    assert!(!m.owns("/repo/libs/core/README.md"));
    assert!(!m.owns("/repo/libs/other/src/foo.ts"));
    assert!(!m.owns("/somewhere/else/src/foo.ts"));
}
