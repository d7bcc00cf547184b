use aster::cli::run::{check_reserved_target, parse_run_args, select_projects, RunArgs};
use aster::collections::TextMap;
use aster::discovery::scanner::DiscoveredProject;
use aster::graph::builder::build_graph;
use aster::paths::join_path;
use aster::plugins::ProjectMetadata;

#[test]
fn test_parse_run_args_target_only() {
    let args = parse_run_args(vec!["test".to_string()]);

    assert_eq!(args.target, "test");
    assert!(args.projects.is_empty());
    assert!(!args.no_deps);
    assert!(!args.dependents);
    assert!(!args.all);
    assert!(!args.use_cwd);
    assert!(!args.warnings_as_errors);
}

#[test]
fn test_parse_run_args_with_projects() {
    let args = parse_run_args(vec![
        "test".to_string(),
        "//services/api".to_string(),
        "//libs/core".to_string(),
    ]);

    assert_eq!(args.target, "test");
    assert_eq!(args.projects, vec!["//services/api", "//libs/core"]);
    assert!(!args.no_deps);
    assert!(!args.all);
}

#[test]
fn test_parse_run_args_with_all_flag() {
    let args = parse_run_args(vec!["build".to_string(), "--all".to_string()]);

    assert_eq!(args.target, "build");
    assert!(args.projects.is_empty());
    assert!(args.all);
}

#[test]
fn test_parse_run_args_with_no_deps() {
    let args = parse_run_args(vec![
        "test".to_string(),
        "//a".to_string(),
        "--no-deps".to_string(),
    ]);

    assert_eq!(args.target, "test");
    assert_eq!(args.projects, vec!["//a"]);
    assert!(args.no_deps);
    assert!(!args.dependents);
}

#[test]
fn test_parse_run_args_with_dependents() {
    let args = parse_run_args(vec![
        "lint".to_string(),
        "//libs/core".to_string(),
        "--dependents".to_string(),
    ]);

    assert_eq!(args.target, "lint");
    assert_eq!(args.projects, vec!["//libs/core"]);
    assert!(args.dependents);
}

#[test]
fn test_parse_run_args_combined_flags() {
    let args = parse_run_args(vec![
        "test".to_string(),
        "//a".to_string(),
        "--no-deps".to_string(),
        "--dependents".to_string(),
    ]);

    assert_eq!(args.target, "test");
    assert!(args.no_deps);
    assert!(args.dependents);
}

#[test]
fn test_parse_run_args_empty() {
    let args = parse_run_args(vec![]);

    assert_eq!(args.target, "");
    assert!(args.projects.is_empty());
}

#[test]
fn test_parse_run_args_with_dot() {
    let args = parse_run_args(vec!["test".to_string(), ".".to_string()]);

    assert_eq!(args.target, "test");
    assert!(args.projects.is_empty());
    assert!(args.use_cwd);
}

#[test]
fn test_check_reserved_target_allows_normal_targets() {
    assert!(check_reserved_target("test").is_none());
    assert!(check_reserved_target("build").is_none());
    assert!(check_reserved_target("lint").is_none());
    assert!(check_reserved_target("custom-target").is_none());
}

#[test]
fn test_check_reserved_target_blocks_reserved_commands() {
    assert!(check_reserved_target("list").is_some());
    assert!(check_reserved_target("graph").is_some());
    assert!(check_reserved_target("why").is_some());
    assert!(check_reserved_target("init").is_some());
    assert!(check_reserved_target("affected").is_some());
    assert!(check_reserved_target("logs").is_some());
    assert!(check_reserved_target("help").is_some());
}

#[test]
fn test_parse_run_args_with_warnings_as_errors() {
    let args = parse_run_args(vec![
        "build".to_string(),
        "--all".to_string(),
        "--warnings-as-errors".to_string(),
    ]);

    assert_eq!(args.target, "build");
    assert!(args.all);
    assert!(args.warnings_as_errors);
}

#[test]
fn test_parse_run_args_with_glob_pattern() {
    let args = parse_run_args(vec!["test".to_string(), "//src/ts/...".to_string()]);

    assert_eq!(args.target, "test");
    assert_eq!(args.projects, vec!["//src/ts/..."]);
}

#[test]
fn test_parse_run_args_with_multiple_glob_patterns() {
    let args = parse_run_args(vec![
        "test".to_string(),
        "//src/ts/...".to_string(),
        "//libs/...".to_string(),
    ]);

    assert_eq!(args.target, "test");
    assert_eq!(args.projects, vec!["//src/ts/...", "//libs/..."]);
}

#[test]
fn test_parse_run_args_with_exclusions() {
    let args = parse_run_args(vec![
        "test".to_string(),
        "//...".to_string(),
        "-//vendor/...".to_string(),
        "-//generated".to_string(),
    ]);

    assert_eq!(args.target, "test");
    assert_eq!(args.projects, vec!["//..."]);
    assert_eq!(args.exclusions, vec!["//vendor/...", "//generated"]);
}

#[test]
fn test_parse_run_args_with_relative_glob() {
    let args = parse_run_args(vec!["test".to_string(), "./...".to_string()]);

    assert_eq!(args.target, "test");
    assert_eq!(args.projects, vec!["./..."]);
}

#[test]
fn test_parse_run_args_with_stream_flag() {
    let args = parse_run_args(vec![
        "run-dev".to_string(),
        ".".to_string(),
        "--stream".to_string(),
    ]);

    assert_eq!(args.target, "run-dev");
    assert!(args.use_cwd);
    assert_eq!(args.stream_override, Some(true));
}

#[test]
fn test_parse_run_args_with_no_stream_flag() {
    let args = parse_run_args(vec!["run-dev".to_string(), "--no-stream".to_string()]);

    assert_eq!(args.target, "run-dev");
    assert_eq!(args.stream_override, Some(false));
}

#[test]
fn test_parse_run_args_default_stream_override_is_none() {
    let args = parse_run_args(vec!["test".to_string()]);

    assert_eq!(args.stream_override, None);
}

#[test]
fn test_parse_run_args_global_flags() {
    let args = parse_run_args(vec![
        "test".to_string(),
        "--all".to_string(),
        "--no-cache".to_string(),
        "--verbose".to_string(),
        "--full-logs".to_string(),
    ]);

    assert_eq!(args.target, "test");
    assert!(args.all);
    assert!(args.no_cache);
    assert!(args.verbose);
    assert!(args.full_logs);
    assert!(!args.quiet);
    assert!(!args.json);
}

#[test]
fn test_parse_run_args_global_flags_short() {
    let args = parse_run_args(vec![
        "test".to_string(),
        "-v".to_string(),
        "-q".to_string(),
        "--json".to_string(),
    ]);

    assert!(args.verbose);
    assert!(args.quiet);
    assert!(args.json);
}

fn make_project(name: &str, relative_path: &str) -> DiscoveredProject {
    let root = join_path("/workspace", relative_path);
    DiscoveredProject {
        config_path: join_path(&root, "package.json"),
        root,
        metadata: ProjectMetadata {
            name: name.to_string(),
            version: None,
        },
        dependencies: vec![],
        targets: TextMap::new(),
        plugin_name: "nodejs".to_string(),
        relative_path: relative_path.to_string(),
    }
}

#[test]
fn test_select_projects_glob_matches_prefix() {
    let projects = vec![
        make_project("ts-app", "src/ts/app"),
        make_project("ts-lib", "src/ts/lib"),
        make_project("go-service", "src/go/service"),
        make_project("shared", "libs/shared"),
    ];
    let graph = build_graph(&projects).unwrap();
    let workspace_root = "/workspace";
    let cwd = "/workspace";

    let args = RunArgs {
        target: "test".to_string(),
        projects: vec!["//src/ts/...".to_string()],
        exclusions: vec![],
        no_deps: true,
        dependents: false,
        all: false,
        use_cwd: false,
        warnings_as_errors: false,
        stream_override: None,
        ..Default::default()
    };

    let selected = select_projects(&args, &graph, &projects, cwd, workspace_root).unwrap();

    assert_eq!(selected.len(), 2);
    let names: Vec<&str> = selected.iter().map(|p| p.metadata.name.as_str()).collect();
    assert!(names.contains(&"ts-app"));
    assert!(names.contains(&"ts-lib"));
}

#[test]
fn test_select_projects_glob_no_matches_returns_error() {
    let projects = vec![
        make_project("app", "src/app"),
        make_project("lib", "src/lib"),
    ];
    let graph = build_graph(&projects).unwrap();
    let workspace_root = "/workspace";
    let cwd = "/workspace";

    let args = RunArgs {
        target: "test".to_string(),
        projects: vec!["//nonexistent/...".to_string()],
        exclusions: vec![],
        no_deps: true,
        dependents: false,
        all: false,
        use_cwd: false,
        warnings_as_errors: false,
        stream_override: None,
        ..Default::default()
    };

    let result = select_projects(&args, &graph, &projects, cwd, workspace_root);

    assert!(result.is_err());
    assert!(result.unwrap_err().contains("No projects found matching"));
}

#[test]
fn test_select_projects_glob_matches_exact_prefix() {
    // Test that //libs/... also matches //libs (exact match at prefix level)
    let projects = vec![
        make_project("libs-root", "libs"),
        make_project("libs-sub", "libs/shared"),
    ];
    let graph = build_graph(&projects).unwrap();
    let workspace_root = "/workspace";
    let cwd = "/workspace";

    let args = RunArgs {
        target: "test".to_string(),
        projects: vec!["//libs/...".to_string()],
        exclusions: vec![],
        no_deps: true,
        dependents: false,
        all: false,
        use_cwd: false,
        warnings_as_errors: false,
        stream_override: None,
        ..Default::default()
    };

    let selected = select_projects(&args, &graph, &projects, cwd, workspace_root).unwrap();

    assert_eq!(selected.len(), 2);
    let names: Vec<&str> = selected.iter().map(|p| p.metadata.name.as_str()).collect();
    assert!(names.contains(&"libs-root"));
    assert!(names.contains(&"libs-sub"));
}

#[test]
fn test_select_projects_mixed_glob_and_exact() {
    let projects = vec![
        make_project("ts-app", "src/ts/app"),
        make_project("ts-lib", "src/ts/lib"),
        make_project("specific", "other/specific"),
    ];
    let graph = build_graph(&projects).unwrap();
    let workspace_root = "/workspace";
    let cwd = "/workspace";

    let args = RunArgs {
        target: "test".to_string(),
        projects: vec!["//src/ts/...".to_string(), "//other/specific".to_string()],
        exclusions: vec![],
        no_deps: true,
        dependents: false,
        all: false,
        use_cwd: false,
        warnings_as_errors: false,
        stream_override: None,
        ..Default::default()
    };

    let selected = select_projects(&args, &graph, &projects, cwd, workspace_root).unwrap();

    assert_eq!(selected.len(), 3);
    let names: Vec<&str> = selected.iter().map(|p| p.metadata.name.as_str()).collect();
    assert!(names.contains(&"ts-app"));
    assert!(names.contains(&"ts-lib"));
    assert!(names.contains(&"specific"));
}

#[test]
fn test_select_projects_glob_deduplicates() {
    let projects = vec![
        make_project("app", "src/app"),
        make_project("lib", "src/lib"),
    ];
    let graph = build_graph(&projects).unwrap();
    let workspace_root = "/workspace";
    let cwd = "/workspace";

    // Use overlapping patterns that would match the same projects
    let args = RunArgs {
        target: "test".to_string(),
        projects: vec![
            "//src/...".to_string(),
            "//src/app".to_string(), // Already included in //src/...
        ],
        exclusions: vec![],
        no_deps: true,
        dependents: false,
        all: false,
        use_cwd: false,
        warnings_as_errors: false,
        stream_override: None,
        ..Default::default()
    };

    let selected = select_projects(&args, &graph, &projects, cwd, workspace_root).unwrap();

    // Should only have 2 projects, not 3
    assert_eq!(selected.len(), 2);
}

#[test]
fn test_select_projects_all_shorthand() {
    // //... should select all projects
    let projects = vec![
        make_project("app", "src/app"),
        make_project("lib", "libs/lib"),
        make_project("other", "other"),
    ];
    let graph = build_graph(&projects).unwrap();
    let workspace_root = "/workspace";
    let cwd = "/workspace";

    let args = RunArgs {
        target: "test".to_string(),
        projects: vec!["//...".to_string()],
        exclusions: vec![],
        no_deps: true,
        dependents: false,
        all: false,
        use_cwd: false,
        warnings_as_errors: false,
        stream_override: None,
        ..Default::default()
    };

    let selected = select_projects(&args, &graph, &projects, cwd, workspace_root).unwrap();

    assert_eq!(selected.len(), 3);
}

#[test]
fn test_select_projects_exclusion() {
    // //... with exclusion -//libs/...
    let projects = vec![
        make_project("app", "src/app"),
        make_project("lib", "libs/lib"),
        make_project("util", "libs/util"),
        make_project("other", "other"),
    ];
    let graph = build_graph(&projects).unwrap();
    let workspace_root = "/workspace";
    let cwd = "/workspace";

    let args = RunArgs {
        target: "test".to_string(),
        projects: vec!["//...".to_string()],
        exclusions: vec!["//libs/...".to_string()],
        no_deps: true,
        dependents: false,
        all: false,
        use_cwd: false,
        warnings_as_errors: false,
        stream_override: None,
        ..Default::default()
    };

    let selected = select_projects(&args, &graph, &projects, cwd, workspace_root).unwrap();

    assert_eq!(selected.len(), 2);
    let names: Vec<&str> = selected.iter().map(|p| p.metadata.name.as_str()).collect();
    assert!(names.contains(&"app"));
    assert!(names.contains(&"other"));
    assert!(!names.contains(&"lib"));
    assert!(!names.contains(&"util"));
}

#[test]
fn test_select_projects_exclusion_exact() {
    // Exclude a specific project
    let projects = vec![
        make_project("app", "src/app"),
        make_project("lib", "src/lib"),
        make_project("slow", "src/slow"),
    ];
    let graph = build_graph(&projects).unwrap();
    let workspace_root = "/workspace";
    let cwd = "/workspace";

    let args = RunArgs {
        target: "test".to_string(),
        projects: vec!["//src/...".to_string()],
        exclusions: vec!["//src/slow".to_string()],
        no_deps: true,
        dependents: false,
        all: false,
        use_cwd: false,
        warnings_as_errors: false,
        stream_override: None,
        ..Default::default()
    };

    let selected = select_projects(&args, &graph, &projects, cwd, workspace_root).unwrap();

    assert_eq!(selected.len(), 2);
    let names: Vec<&str> = selected.iter().map(|p| p.metadata.name.as_str()).collect();
    assert!(names.contains(&"app"));
    assert!(names.contains(&"lib"));
    assert!(!names.contains(&"slow"));
}

#[test]
fn test_select_projects_relative_glob() {
    // ./... from within src/ts should select src/ts projects
    let projects = vec![
        make_project("ts-app", "src/ts/app"),
        make_project("ts-lib", "src/ts/lib"),
        make_project("go-svc", "src/go/svc"),
    ];
    let graph = build_graph(&projects).unwrap();
    let workspace_root = "/workspace";
    let cwd = "/workspace/src/ts";

    let args = RunArgs {
        target: "test".to_string(),
        projects: vec!["./...".to_string()],
        exclusions: vec![],
        no_deps: true,
        dependents: false,
        all: false,
        use_cwd: false,
        warnings_as_errors: false,
        stream_override: None,
        ..Default::default()
    };

    let selected = select_projects(&args, &graph, &projects, cwd, workspace_root).unwrap();

    assert_eq!(selected.len(), 2);
    let names: Vec<&str> = selected.iter().map(|p| p.metadata.name.as_str()).collect();
    assert!(names.contains(&"ts-app"));
    assert!(names.contains(&"ts-lib"));
}

#[test]
fn test_select_projects_cwd_detection_prefers_nested_over_root() {
    // When in a subdirectory, should NOT match root project with empty path
    let projects = vec![
        make_project("root", ""), // Root project with empty path
        make_project("nested", "services/api"),
    ];
    let graph = build_graph(&projects).unwrap();
    let workspace_root = "/workspace";
    let cwd = "/workspace/services/api";

    // No explicit projects - rely on cwd detection
    let args = RunArgs {
        target: "test".to_string(),
        projects: vec![],
        exclusions: vec![],
        no_deps: true,
        dependents: false,
        all: false,
        use_cwd: true,
        warnings_as_errors: false,
        stream_override: None,
        ..Default::default()
    };

    let selected = select_projects(&args, &graph, &projects, cwd, workspace_root).unwrap();

    // Should select nested project, NOT root
    assert_eq!(selected.len(), 1);
    assert_eq!(selected[0].metadata.name, "nested");
}

#[test]
fn test_select_projects_cwd_detection_no_match_returns_error() {
    // When in a subdirectory with no matching project, should error not match root
    let projects = vec![
        make_project("root", ""), // Root project with empty path
        make_project("other", "other/project"),
    ];
    let graph = build_graph(&projects).unwrap();
    let workspace_root = "/workspace";
    let cwd = "/workspace/services/api"; // No project here

    let args = RunArgs {
        target: "test".to_string(),
        projects: vec![],
        exclusions: vec![],
        no_deps: true,
        dependents: false,
        all: false,
        use_cwd: true,
        warnings_as_errors: false,
        stream_override: None,
        ..Default::default()
    };

    let result = select_projects(&args, &graph, &projects, cwd, workspace_root);

    // Should error, not match root
    assert!(result.is_err());
}

#[test]
fn test_select_projects_cwd_detection_at_root_matches_root() {
    // When at workspace root, should match root project
    let projects = vec![
        make_project("root", ""),
        make_project("nested", "services/api"),
    ];
    let graph = build_graph(&projects).unwrap();
    let workspace_root = "/workspace";
    let cwd = "/workspace"; // At root

    let args = RunArgs {
        target: "test".to_string(),
        projects: vec![],
        exclusions: vec![],
        no_deps: true,
        dependents: false,
        all: false,
        use_cwd: true,
        warnings_as_errors: false,
        stream_override: None,
        ..Default::default()
    };

    let selected = select_projects(&args, &graph, &projects, cwd, workspace_root).unwrap();

    // Should select root project
    assert_eq!(selected.len(), 1);
    assert_eq!(selected[0].metadata.name, "root");
}

fn words(list: &[&str]) -> Vec<String> {
    list.iter().map(|word| word.to_string()).collect()
}

#[test]
fn directories_behind_the_target_name_projects() {
    let args = parse_run_args(words(&["test", "services/*"]));
    assert_eq!(args.target, "test");
    assert_eq!(args.projects, vec!["services/*"]);

    let args = parse_run_args(words(&["--all", "//a", "build", "services/api", "./web", "-x", "--y"]));
    assert_eq!(args.target, "build");
    assert_eq!(args.projects, vec!["//a", "services/api", "./web"]);
    assert!(args.all);

    let args = parse_run_args(words(&["test", "--lang", "nodejs,python", "services/api"]));
    assert_eq!(args.target, "test");
    assert_eq!(args.projects, vec!["services/api"]);
}

#[test]
fn directories_select_projects() {
    let projects = vec![
        make_project("root", ""),
        make_project("api", "services/api"),
        make_project("web", "services/web"),
        make_project("core", "libs/core"),
    ];
    let graph = build_graph(&projects).unwrap();
    let select = |list: &[&str], cwd: &str| {
        let args = parse_run_args(words(list));
        select_projects(&args, &graph, &projects, cwd, "/workspace").map(|selected| {
            selected
                .iter()
                .map(|project| project.metadata.name.clone())
                .collect::<Vec<_>>()
        })
    };
    let names = |list: &[&str]| Ok(words(list));

    assert_eq!(select(&["test", "services/*"], "/workspace"), names(&["api", "web"]));
    assert_eq!(select(&["test", "services/*"], "/workspace/libs"), names(&["api", "web"]));
    assert_eq!(select(&["test", "services/*", "-//services/web"], "/workspace"), names(&["api"]));
    assert_eq!(select(&["test", "services/api"], "/workspace/libs"), names(&["api"]));
    assert_eq!(select(&["test", "services/api/"], "/workspace"), names(&["api"]));
    assert_eq!(select(&["test", "./web"], "/workspace/services"), names(&["web"]));
    assert_eq!(select(&["test", "./*"], "/workspace/services"), names(&["api", "web"]));
    assert_eq!(
        select(&["test", "services"], "/workspace"),
        Err("Project not found: services".to_string())
    );
    assert_eq!(
        select(&["test", "tools/*"], "/workspace"),
        Err("No projects found matching: tools/*".to_string())
    );
    assert_eq!(
        select(&["test", "services/*["], "/workspace"),
        Err("No projects found matching: services/*[".to_string())
    );
    assert_eq!(
        select(&["test", "./web"], "/elsewhere"),
        Err("Project not found: ./web".to_string())
    );
}

#[test]
fn patterns_may_overlap() {
    let projects = vec![make_project("app", "src/app"), make_project("lib", "src/lib")];
    let graph = build_graph(&projects).unwrap();
    for list in [
        &["test", "//src/...", "//src/app"],
        &["test", "//src/...", "src/*"],
        &["test", "//src/...", "src/app"],
    ] {
        let args = parse_run_args(words(list));
        let selected = select_projects(&args, &graph, &projects, "/workspace", "/workspace").unwrap();
        assert_eq!(selected.len(), 2);
    }
    let args = parse_run_args(words(&["test", "//src/...", "//src/app/..."]));
    assert_eq!(
        select_projects(&args, &graph, &projects, "/workspace", "/workspace").unwrap_err(),
        "No projects found matching: //src/app/..."
    );
}
