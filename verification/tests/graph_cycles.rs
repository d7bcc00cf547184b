use aster::collections::TextMap;
use aster::discovery::scanner::DiscoveredProject;
use aster::graph::builder::build_graph;
use aster::graph::cycles::{find_cycle, CycleError};
use aster::plugins::{LocalDependency, ProjectMetadata};

fn make_project(name: &str, relative_path: &str, deps: Vec<(&str, &str)>) -> DiscoveredProject {
    DiscoveredProject {
        root: format!("/workspace/{relative_path}"),
        config_path: format!("/workspace/{relative_path}/package.json"),
        metadata: ProjectMetadata {
            name: name.to_string(),
            version: Some("1.0.0".to_string()),
        },
        dependencies: deps
            .into_iter()
            .map(|(name, path)| LocalDependency {
                name: name.to_string(),
                path: path.to_string(),
            })
            .collect(),
        targets: TextMap::new(),
        plugin_name: "nodejs".to_string(),
        relative_path: relative_path.to_string(),
    }
}

#[test]
fn cycles_test_no_cycle() {
    // A -> B -> C (no cycle)
    let projects = vec![
        make_project("a", "a", vec![("b", "//b")]),
        make_project("b", "b", vec![("c", "//c")]),
        make_project("c", "c", vec![]),
    ];

    let graph = build_graph(&projects).unwrap();
    assert!(find_cycle(&graph).is_none());
}

#[test]
fn test_simple_cycle() {
    // A -> B -> A (cycle)
    let projects = vec![
        make_project("a", "a", vec![("b", "//b")]),
        make_project("b", "b", vec![("a", "//a")]),
    ];

    let graph = build_graph(&projects).unwrap();
    let cycle = find_cycle(&graph);
    assert!(cycle.is_some());

    let cycle = cycle.unwrap();
    // Cycle should be ["//a", "//b", "//a"] or ["//b", "//a", "//b"]
    assert!(cycle.path.len() == 3);
    assert_eq!(cycle.path.first(), cycle.path.last());
}

#[test]
fn test_longer_cycle() {
    // A -> B -> C -> A (3-node cycle)
    let projects = vec![
        make_project("a", "a", vec![("b", "//b")]),
        make_project("b", "b", vec![("c", "//c")]),
        make_project("c", "c", vec![("a", "//a")]),
    ];

    let graph = build_graph(&projects).unwrap();
    let cycle = find_cycle(&graph);
    assert!(cycle.is_some());

    let cycle = cycle.unwrap();
    assert!(cycle.path.len() == 4); // A -> B -> C -> A
    assert_eq!(cycle.path.first(), cycle.path.last());
}

#[test]
fn test_cycle_in_subgraph() {
    // D -> A -> B -> A (cycle in subgraph, D not involved)
    let projects = vec![
        make_project("d", "d", vec![("a", "//a")]),
        make_project("a", "a", vec![("b", "//b")]),
        make_project("b", "b", vec![("a", "//a")]),
    ];

    let graph = build_graph(&projects).unwrap();
    let cycle = find_cycle(&graph);
    assert!(cycle.is_some());

    let cycle = cycle.unwrap();
    // Cycle should only include A and B, not D
    assert!(!cycle.path.contains(&"//d".to_string()));
}

#[test]
fn test_cycle_error_display() {
    let err = CycleError {
        path: vec![
            "//a".to_string(),
            "//b".to_string(),
            "//c".to_string(),
            "//a".to_string(),
        ],
    };
    assert_eq!(
        err.to_string(),
        "Dependency cycle detected: //a -> //b -> //c -> //a"
    );
}
