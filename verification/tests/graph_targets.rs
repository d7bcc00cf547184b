use aster::collections::{TextMap, TextSet};
use aster::discovery::scanner::DiscoveredProject;
use aster::graph::targets::build_target_graph;
use aster::plugins::{ProjectMetadata, Target};

fn make_project(relative_path: &str, targets: Vec<(&str, &str, Vec<&str>)>) -> DiscoveredProject {
    let project_address = format!("//{relative_path}");
    let mut map = TextMap::new();
    for (name, cmd, deps) in targets {
        map.insert(
            name.to_string(),
            Target {
                command: cmd.to_string(),
                depends_on: deps
                    .into_iter()
                    .map(|d| {
                        // Handle //self: references for test convenience
                        if d.starts_with("//self:") {
                            format!("{}:{}", project_address, &d[7..])
                        } else {
                            d.to_string()
                        }
                    })
                    .collect(),
                capabilities: TextSet::new(),
                files_glob: None,
                stream: false,
                cache: None,
                invalidates_cache: false,
                working_dir: None,
                exclusive_resources: vec![],
            },
        );
    }
    DiscoveredProject {
        root: format!("/workspace/{relative_path}"),
        config_path: format!("/workspace/{relative_path}/package.json"),
        metadata: ProjectMetadata {
            name: relative_path.split('/').next_back().unwrap().to_string(),
            version: Some("1.0.0".to_string()),
        },
        dependencies: vec![],
        targets: map,
        plugin_name: "nodejs".to_string(),
        relative_path: relative_path.to_string(),
    }
}

#[test]
fn targets_test_build_empty_graph() {
    let projects: Vec<DiscoveredProject> = vec![];
    let graph = build_target_graph(&projects);

    assert_eq!(graph.graph.node_count(), 0);
    assert_eq!(graph.graph.edge_count(), 0);
}

#[test]
fn test_build_single_project_with_targets() {
    let projects = vec![make_project(
        "services/api",
        vec![
            ("deps", "npm install", vec![]),
            ("test", "npm test", vec!["//self:deps"]),
            ("build", "npm run build", vec!["//self:deps"]),
        ],
    )];

    let graph = build_target_graph(&projects);

    assert_eq!(graph.graph.node_count(), 3);
    assert_eq!(graph.graph.edge_count(), 2); // test->deps, build->deps

    // Check nodes exist
    assert!(graph.get("//services/api:deps").is_some());
    assert!(graph.get("//services/api:test").is_some());
    assert!(graph.get("//services/api:build").is_some());

    // Check dependencies
    let test_deps = graph.dependencies("//services/api:test");
    assert_eq!(test_deps.len(), 1);
    assert_eq!(test_deps[0].address, "//services/api:deps");
}

#[test]
fn test_cross_project_dependencies() {
    let projects = vec![
        make_project(
            "libs/core",
            vec![
                ("deps", "npm install", vec![]),
                ("build", "npm run build", vec!["//self:deps"]),
            ],
        ),
        make_project(
            "services/api",
            vec![
                ("deps", "npm install", vec![]),
                (
                    "build",
                    "npm run build",
                    vec!["//self:deps", "//libs/core:build"],
                ),
                ("test", "npm test", vec!["//self:deps", "//libs/core:build"]),
            ],
        ),
    ];

    let graph = build_target_graph(&projects);

    assert_eq!(graph.graph.node_count(), 5);

    // api:build depends on core:build and api:deps
    let build_deps = graph.dependencies("//services/api:build");
    assert_eq!(build_deps.len(), 2);

    let dep_addrs: Vec<&str> = build_deps.iter().map(|d| d.address.as_str()).collect();
    assert!(dep_addrs.contains(&"//services/api:deps"));
    assert!(dep_addrs.contains(&"//libs/core:build"));
}

#[test]
fn targets_test_find_path_direct() {
    let projects = vec![make_project(
        "services/api",
        vec![
            ("deps", "npm install", vec![]),
            ("test", "npm test", vec!["//self:deps"]),
        ],
    )];

    let graph = build_target_graph(&projects);

    let path = graph.find_path("//services/api:test", "//services/api:deps");
    assert!(path.is_some());
    assert_eq!(
        path.unwrap(),
        vec!["//services/api:test", "//services/api:deps"]
    );
}

#[test]
fn targets_test_find_path_transitive() {
    let projects = vec![
        make_project(
            "libs/core",
            vec![
                ("deps", "npm install", vec![]),
                ("build", "npm run build", vec!["//self:deps"]),
            ],
        ),
        make_project(
            "services/api",
            vec![
                ("deps", "npm install", vec![]),
                ("test", "npm test", vec!["//self:deps", "//libs/core:build"]),
            ],
        ),
    ];

    let graph = build_target_graph(&projects);

    // api:test -> core:build -> core:deps
    let path = graph.find_path("//services/api:test", "//libs/core:deps");
    assert!(path.is_some());
    let path = path.unwrap();
    assert_eq!(path.len(), 3);
    assert_eq!(path[0], "//services/api:test");
    assert_eq!(path[1], "//libs/core:build");
    assert_eq!(path[2], "//libs/core:deps");
}

#[test]
fn targets_test_find_path_no_path() {
    let projects = vec![
        make_project("a", vec![("test", "test", vec![])]),
        make_project("b", vec![("test", "test", vec![])]),
    ];

    let graph = build_target_graph(&projects);

    let path = graph.find_path("//a:test", "//b:test");
    assert!(path.is_none());
}

#[test]
fn test_dependents() {
    let projects = vec![make_project(
        "services/api",
        vec![
            ("deps", "npm install", vec![]),
            ("test", "npm test", vec!["//self:deps"]),
            ("build", "npm run build", vec!["//self:deps"]),
        ],
    )];

    let graph = build_target_graph(&projects);

    let deps_dependents = graph.dependents("//services/api:deps");
    assert_eq!(deps_dependents.len(), 2);
    assert!(deps_dependents.contains(&"//services/api:test".to_string()));
    assert!(deps_dependents.contains(&"//services/api:build".to_string()));
}

#[test]
fn test_cycle_detection() {
    // Create a cycle: a:test -> b:test -> a:test
    let mut projects = vec![
        make_project("a", vec![("test", "test", vec!["//b:test"])]),
        make_project("b", vec![("test", "test", vec![])]),
    ];
    // Manually add the cycle
    let mut test = projects[1].targets.remove("test").unwrap();
    test.depends_on = vec!["//a:test".to_string()];
    projects[1].targets.insert("test".to_string(), test);

    let graph = build_target_graph(&projects);

    let cycle = graph.find_cycle();
    assert!(cycle.is_some());
}

#[test]
fn targets_test_no_cycle() {
    let projects = vec![
        make_project(
            "libs/core",
            vec![
                ("deps", "npm install", vec![]),
                ("build", "npm run build", vec!["//self:deps"]),
            ],
        ),
        make_project(
            "services/api",
            vec![
                ("deps", "npm install", vec![]),
                ("test", "npm test", vec!["//self:deps", "//libs/core:build"]),
            ],
        ),
    ];

    let graph = build_target_graph(&projects);

    let cycle = graph.find_cycle();
    assert!(cycle.is_none());
}
