use aster::collections::TextMap;
use aster::discovery::scanner::DiscoveredProject;
use aster::graph::builder::build_graph;
use aster::plugins::{LocalDependency, ProjectMetadata};

fn make_project(name: &str, relative_path: &str, deps: Vec<(&str, &str)>) -> DiscoveredProject {
    DiscoveredProject {
        root: format!("/workspace/{relative_path}"),
        config_path: format!("/workspace/{relative_path}/package.json"),
        metadata: ProjectMetadata {
            name: name.to_string(),
            version: Some("1.0.0".to_string()),
        },
        dependencies: deps
            .into_iter()
            .map(|(name, path)| LocalDependency {
                name: name.to_string(),
                path: path.to_string(),
            })
            .collect(),
        targets: TextMap::new(),
        plugin_name: "nodejs".to_string(),
        relative_path: relative_path.to_string(),
    }
}

#[test]
fn builder_test_build_empty_graph() {
    let projects: Vec<DiscoveredProject> = vec![];
    let graph = build_graph(&projects).unwrap();

    assert_eq!(graph.graph.node_count(), 0);
    assert_eq!(graph.graph.edge_count(), 0);
}

#[test]
fn test_build_single_project() {
    let projects = vec![make_project("api", "services/api", vec![])];

    let graph = build_graph(&projects).unwrap();

    assert_eq!(graph.graph.node_count(), 1);
    assert_eq!(graph.graph.edge_count(), 0);

    let node = graph.get("//services/api").unwrap();
    assert_eq!(node.name, "api");
    assert_eq!(node.address, "//services/api");
}

#[test]
fn test_build_with_dependencies() {
    let projects = vec![
        make_project("core", "libs/core", vec![]),
        make_project("api", "services/api", vec![("core", "//libs/core")]),
    ];

    let graph = build_graph(&projects).unwrap();

    assert_eq!(graph.graph.node_count(), 2);
    assert_eq!(graph.graph.edge_count(), 1);

    // api depends on core
    let api_deps = graph.dependencies("//services/api");
    assert_eq!(api_deps.len(), 1);
    assert_eq!(api_deps[0].address, "//libs/core");
}

#[test]
fn test_build_with_relative_path_dependencies() {
    let projects = vec![
        make_project("core", "libs/core", vec![]),
        make_project("api", "services/api", vec![("core", "../../libs/core")]),
    ];

    let graph = build_graph(&projects).unwrap();

    assert_eq!(graph.graph.node_count(), 2);
    assert_eq!(graph.graph.edge_count(), 1);

    let api_deps = graph.dependencies("//services/api");
    assert_eq!(api_deps.len(), 1);
    assert_eq!(api_deps[0].address, "//libs/core");
}

#[test]
fn test_topological_order() {
    // C depends on B, B depends on A
    // Expected order: A, B, C (dependencies first)
    let projects = vec![
        make_project("c", "c", vec![("b", "//b")]),
        make_project("b", "b", vec![("a", "//a")]),
        make_project("a", "a", vec![]),
    ];

    let graph = build_graph(&projects).unwrap();
    let order = graph.topological_order();

    // Find positions
    let pos_a = order.iter().position(|n| n.address == "//a").unwrap();
    let pos_b = order.iter().position(|n| n.address == "//b").unwrap();
    let pos_c = order.iter().position(|n| n.address == "//c").unwrap();

    // A must come before B, B must come before C
    assert!(pos_a < pos_b);
    assert!(pos_b < pos_c);
}

#[test]
fn test_get_project() {
    let projects = vec![
        make_project("api", "services/api", vec![]),
        make_project("web", "services/web", vec![]),
    ];

    let graph = build_graph(&projects).unwrap();

    assert!(graph.get("//services/api").is_some());
    assert!(graph.get("//services/web").is_some());
    assert!(graph.get("//nonexistent").is_none());
}

#[test]
fn test_dependencies_method() {
    // A depends on B and C, B depends on C
    let projects = vec![
        make_project("a", "a", vec![("b", "//b"), ("c", "//c")]),
        make_project("b", "b", vec![("c", "//c")]),
        make_project("c", "c", vec![]),
    ];

    let graph = build_graph(&projects).unwrap();

    // A has two direct deps
    let a_deps = graph.dependencies("//a");
    assert_eq!(a_deps.len(), 2);

    // B has one direct dep
    let b_deps = graph.dependencies("//b");
    assert_eq!(b_deps.len(), 1);
    assert_eq!(b_deps[0].address, "//c");

    // C has no deps
    let c_deps = graph.dependencies("//c");
    assert!(c_deps.is_empty());
}

#[test]
fn test_projects_iterator() {
    let projects = vec![
        make_project("a", "a", vec![]),
        make_project("b", "b", vec![]),
        make_project("c", "c", vec![]),
    ];

    let graph = build_graph(&projects).unwrap();
    let all_projects: Vec<_> = graph.projects().iter().collect();

    assert_eq!(all_projects.len(), 3);
}

#[test]
fn test_address_with_target_suffix_stripped() {
    // Dependency with target suffix should be resolved to base address
    let projects = vec![
        make_project("core", "libs/core", vec![]),
        make_project("api", "services/api", vec![("core", "//libs/core:build")]),
    ];

    let graph = build_graph(&projects).unwrap();

    // Edge should be created to //libs/core (not //libs/core:build)
    let api_deps = graph.dependencies("//services/api");
    assert_eq!(api_deps.len(), 1);
    assert_eq!(api_deps[0].address, "//libs/core");
}
