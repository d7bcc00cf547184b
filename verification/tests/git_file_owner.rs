use aster::collections::{TextMap, TextSet};
use aster::discovery::scanner::DiscoveredProject;
use aster::git::file_owner::{affected_with_dependents, files_to_projects};
use aster::graph::builder::build_graph;
use aster::plugins::{LocalDependency, ProjectMetadata};

fn set(items: &[&str]) -> TextSet {
    let mut set = TextSet::new();
    for item in items {
        set.insert(item.to_string());
    }
    set
}

fn make_project(name: &str, relative_path: &str, deps: Vec<(&str, &str)>) -> DiscoveredProject {
    DiscoveredProject {
        root: format!("/workspace/{relative_path}"),
        config_path: format!("/workspace/{relative_path}/package.json"),
        metadata: ProjectMetadata {
            name: name.to_string(),
            version: Some("1.0.0".to_string()),
        },
        dependencies: deps
            .into_iter()
            .map(|(name, path)| LocalDependency {
                name: name.to_string(),
                path: path.to_string(),
            })
            .collect(),
        targets: TextMap::new(),
        plugin_name: "nodejs".to_string(),
        relative_path: relative_path.to_string(),
    }
}

#[test]
fn test_files_to_projects_basic() {
    let projects = vec![
        make_project("api", "services/api", vec![]),
        make_project("core", "libs/core", vec![]),
    ];

    let changed = set(&[
        "services/api/src/main.rs",
        "services/api/package.json",
    ]);

    let affected = files_to_projects(&changed, &projects);

    assert_eq!(affected.len(), 1);
    assert!(affected.contains("//services/api"));
}

#[test]
fn test_files_to_projects_multiple() {
    let projects = vec![
        make_project("api", "services/api", vec![]),
        make_project("core", "libs/core", vec![]),
    ];

    let changed = set(&[
        "services/api/src/main.rs",
        "libs/core/index.js",
    ]);

    let affected = files_to_projects(&changed, &projects);

    assert_eq!(affected.len(), 2);
    assert!(affected.contains("//services/api"));
    assert!(affected.contains("//libs/core"));
}

#[test]
fn test_files_to_projects_ignores_workspace_files() {
    let projects = vec![make_project("api", "services/api", vec![])];

    let changed = set(&[
        "README.md",
        ".gitignore",
        "services/api/src/main.rs",
    ]);

    let affected = files_to_projects(&changed, &projects);

    assert_eq!(affected.len(), 1);
    assert!(affected.contains("//services/api"));
}

#[test]
fn test_files_to_projects_most_specific_match() {
    // Nested projects: services/api/submodule is more specific than services/api
    let projects = vec![
        make_project("api", "services/api", vec![]),
        make_project("submodule", "services/api/submodule", vec![]),
    ];

    let changed = set(&["services/api/submodule/file.rs"]);

    let affected = files_to_projects(&changed, &projects);

    assert_eq!(affected.len(), 1);
    assert!(affected.contains("//services/api/submodule"));
    // Should NOT match services/api
    assert!(!affected.contains("//services/api"));
}

#[test]
fn test_files_to_projects_empty_files() {
    let projects = vec![make_project("api", "services/api", vec![])];

    let changed = set(&[]);

    let affected = files_to_projects(&changed, &projects);

    assert!(affected.is_empty());
}

#[test]
fn test_affected_with_dependents_no_dependents() {
    let projects = vec![
        make_project("api", "services/api", vec![]),
        make_project("core", "libs/core", vec![]),
    ];

    let graph = build_graph(&projects).unwrap();

    let directly_affected = set(&["//services/api"]);

    let result = affected_with_dependents(directly_affected, &graph);

    // Only the directly affected project, no dependents
    assert_eq!(result.len(), 1);
    assert!(result.contains("//services/api"));
}

#[test]
fn test_affected_with_dependents_single_dependent() {
    // api depends on core
    let projects = vec![
        make_project("api", "services/api", vec![("core", "//libs/core")]),
        make_project("core", "libs/core", vec![]),
    ];

    let graph = build_graph(&projects).unwrap();

    // core is directly affected
    let directly_affected = set(&["//libs/core"]);

    let result = affected_with_dependents(directly_affected, &graph);

    // core + api (which depends on core)
    assert_eq!(result.len(), 2);
    assert!(result.contains("//libs/core"));
    assert!(result.contains("//services/api"));
}

#[test]
fn test_affected_with_dependents_transitive() {
    // c depends on b, b depends on a
    let projects = vec![
        make_project("c", "c", vec![("b", "//b")]),
        make_project("b", "b", vec![("a", "//a")]),
        make_project("a", "a", vec![]),
    ];

    let graph = build_graph(&projects).unwrap();

    // a is directly affected
    let directly_affected = set(&["//a"]);

    let result = affected_with_dependents(directly_affected, &graph);

    // a, b (depends on a), c (depends on b)
    assert_eq!(result.len(), 3);
    assert!(result.contains("//a"));
    assert!(result.contains("//b"));
    assert!(result.contains("//c"));
}

#[test]
fn test_affected_with_dependents_diamond() {
    // d depends on both b and c, both depend on a
    //       a
    //      / \
    //     b   c
    //      \ /
    //       d
    let projects = vec![
        make_project("d", "d", vec![("b", "//b"), ("c", "//c")]),
        make_project("b", "b", vec![("a", "//a")]),
        make_project("c", "c", vec![("a", "//a")]),
        make_project("a", "a", vec![]),
    ];

    let graph = build_graph(&projects).unwrap();

    // a is directly affected
    let directly_affected = set(&["//a"]);

    let result = affected_with_dependents(directly_affected, &graph);

    // All 4 should be affected
    assert_eq!(result.len(), 4);
    assert!(result.contains("//a"));
    assert!(result.contains("//b"));
    assert!(result.contains("//c"));
    assert!(result.contains("//d"));
}

#[test]
fn test_affected_with_dependents_multiple_affected() {
    // api depends on core, web is independent
    let projects = vec![
        make_project("api", "services/api", vec![("core", "//libs/core")]),
        make_project("web", "services/web", vec![]),
        make_project("core", "libs/core", vec![]),
    ];

    let graph = build_graph(&projects).unwrap();

    // Both core and web are directly affected
    let directly_affected = set(&[
        "//libs/core",
        "//services/web",
    ]);

    let result = affected_with_dependents(directly_affected, &graph);

    // core, web, and api (which depends on core)
    assert_eq!(result.len(), 3);
    assert!(result.contains("//libs/core"));
    assert!(result.contains("//services/web"));
    assert!(result.contains("//services/api"));
}
