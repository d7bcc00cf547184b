use aster::collections::TextSet;
use aster::config::workspace::AffectedWorkspaceConfig;
use aster::git::ignore::AffectedIgnore;

fn set(items: &[&str]) -> TextSet {
    let mut set = TextSet::new();
    for item in items {
        set.insert(item.to_string());
    }
    set
}

#[test]
fn filters_ignored_paths_and_keeps_other_paths() {
    let config = AffectedWorkspaceConfig {
        ignore: vec![".agents/**".to_string(), "docs/generated/**".to_string()],
        ..AffectedWorkspaceConfig::default()
    };
    let ignore = AffectedIgnore::build(&config).unwrap();
    let paths = set(&[
        ".agents/skills/example/SKILL.md",
        "docs/generated/api.md",
        "src/main.rs",
    ]);

    let filtered = ignore.filter(&paths);

    assert_eq!(filtered.to_vec(), vec!["src/main.rs"]);
}

#[test]
fn rejects_invalid_patterns() {
    let config = AffectedWorkspaceConfig {
        ignore: vec!["[".to_string()],
        ..AffectedWorkspaceConfig::default()
    };

    let error = AffectedIgnore::build(&config).err().unwrap();
    assert!(error
        .to_string()
        .contains("invalid affected.ignore pattern: ["));
}
