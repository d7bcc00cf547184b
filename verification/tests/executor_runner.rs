use aster::cli::output::OutputMode;
use aster::collections::{TextMap, TextSet};
use aster::discovery::scanner::DiscoveredProject;
use aster::executor::jobs::Preparation;
use aster::executor::levels::compute_target_levels;
use aster::executor::results::{ended_result, CommandEnd, ExecutionResult};
use aster::executor::runner::Executor;
use aster::executor::targets::{collect_target_deps, parse_target_address};
use aster::plugins::{ProjectMetadata, Target};

/// Helper to create a Target with empty capabilities
fn target(command: &str, depends_on: Vec<&str>) -> Target {
    Target {
        command: command.to_string(),
        depends_on: depends_on.into_iter().map(|s| s.to_string()).collect(),
        capabilities: TextSet::new(),
        files_glob: None,
        stream: false,
        cache: None,
        invalidates_cache: false,
        working_dir: None,
        exclusive_resources: vec![],
    }
}

fn make_project_with_targets(relative_path: &str, targets: TextMap<Target>) -> DiscoveredProject {
    DiscoveredProject {
        root: format!("/workspace/{relative_path}"),
        config_path: format!("/workspace/{relative_path}/package.json"),
        metadata: ProjectMetadata {
            name: relative_path.to_string(),
            version: Some("1.0.0".to_string()),
        },
        dependencies: vec![],
        targets,
        plugin_name: "nodejs".to_string(),
        relative_path: relative_path.to_string(),
    }
}

fn map_of(projects: &[DiscoveredProject]) -> TextMap<&DiscoveredProject> {
    let mut map = TextMap::new();
    for project in projects {
        map.insert(format!("//{}", project.relative_path), project);
    }
    map
}

#[test]
fn test_parse_target_address() {
    let result = parse_target_address("//apps/web:test");
    assert_eq!(result, Some(("//apps/web".to_string(), "test".to_string())));

    let result = parse_target_address("//a:deps");
    assert_eq!(result, Some(("//a".to_string(), "deps".to_string())));

    let result = parse_target_address("invalid");
    assert_eq!(result, None);
}

#[test]
fn test_compute_target_levels_single() {
    let mut targets = TextMap::new();
    targets.insert("test".to_string(), target("npm test", vec![]));
    let project = make_project_with_targets("a", targets);
    let projects = [project];

    let project_map = map_of(&projects);

    let mut targets_to_run = TextSet::new();
    targets_to_run.insert("//a:test".to_string());

    let levels = compute_target_levels(&targets_to_run, &project_map);

    assert_eq!(levels.len(), 1);
    assert!(levels[0].contains(&"//a:test".to_string()));
}

#[test]
fn test_compute_target_levels_with_deps_target() {
    // test depends on deps in same project
    let mut targets = TextMap::new();
    targets.insert("deps".to_string(), target("npm install", vec![]));
    targets.insert("test".to_string(), target("npm test", vec!["//a:deps"]));
    let project = make_project_with_targets("a", targets);
    let projects = [project];

    let project_map = map_of(&projects);

    let mut targets_to_run = TextSet::new();
    targets_to_run.insert("//a:test".to_string());
    targets_to_run.insert("//a:deps".to_string());

    let levels = compute_target_levels(&targets_to_run, &project_map);

    assert_eq!(levels.len(), 2);
    assert!(levels[0].contains(&"//a:deps".to_string()));
    assert!(levels[1].contains(&"//a:test".to_string()));
}

#[test]
fn test_compute_target_levels_cross_project() {
    // //b:test depends on //a:build
    let mut targets_a = TextMap::new();
    targets_a.insert("build".to_string(), target("npm run build", vec![]));

    let mut targets_b = TextMap::new();
    targets_b.insert("test".to_string(), target("npm test", vec!["//a:build"]));

    let project_a = make_project_with_targets("a", targets_a);
    let project_b = make_project_with_targets("b", targets_b);
    let projects = [project_a, project_b];

    let project_map = map_of(&projects);

    let mut targets_to_run = TextSet::new();
    targets_to_run.insert("//a:build".to_string());
    targets_to_run.insert("//b:test".to_string());

    let levels = compute_target_levels(&targets_to_run, &project_map);

    assert_eq!(levels.len(), 2);
    assert!(levels[0].contains(&"//a:build".to_string()));
    assert!(levels[1].contains(&"//b:test".to_string()));
}

#[test]
fn test_collect_target_deps() {
    let mut targets = TextMap::new();
    targets.insert("deps".to_string(), target("npm install", vec![]));
    targets.insert(
        "build".to_string(),
        target("npm run build", vec!["//a:deps"]),
    );
    targets.insert("test".to_string(), target("npm test", vec!["//a:build"]));
    let project = make_project_with_targets("a", targets);
    let projects = [project];

    let project_map = map_of(&projects);

    let mut collected = TextSet::new();
    collect_target_deps("//a:test", &project_map, &mut collected);

    // Should collect build and deps (transitively)
    assert!(collected.contains("//a:build"));
    assert!(collected.contains("//a:deps"));
}

#[test]
fn test_compute_target_levels_diamond() {
    // deps -> build and lint -> test (test depends on both build and lint)
    let mut targets = TextMap::new();
    targets.insert("deps".to_string(), target("npm install", vec![]));
    targets.insert(
        "build".to_string(),
        target("npm run build", vec!["//a:deps"]),
    );
    targets.insert("lint".to_string(), target("npm run lint", vec!["//a:deps"]));
    targets.insert(
        "test".to_string(),
        target("npm test", vec!["//a:build", "//a:lint"]),
    );
    let project = make_project_with_targets("a", targets);
    let projects = [project];

    let project_map = map_of(&projects);

    let mut targets_to_run = TextSet::new();
    targets_to_run.insert("//a:deps".to_string());
    targets_to_run.insert("//a:build".to_string());
    targets_to_run.insert("//a:lint".to_string());
    targets_to_run.insert("//a:test".to_string());

    let levels = compute_target_levels(&targets_to_run, &project_map);

    assert_eq!(levels.len(), 3);
    assert!(levels[0].contains(&"//a:deps".to_string()));
    assert!(levels[1].contains(&"//a:build".to_string()));
    assert!(levels[1].contains(&"//a:lint".to_string()));
    assert!(levels[2].contains(&"//a:test".to_string()));
}

#[test]
fn test_execution_result_struct() {
    let result = ExecutionResult {
        address: "//test:build".to_string(),
        success: true,
        skipped: false,
        cached: false,
        output: "test output".to_string(),
        duration_ms: 100,
    };

    assert_eq!(result.address, "//test:build");
    assert!(result.success);
    assert!(!result.skipped);
    assert!(!result.cached);
    assert_eq!(result.output, "test output");
    assert_eq!(result.duration_ms, 100);
}

#[test]
fn failed_prerequisite_blocks_dependent_command() {
    let mut targets = TextMap::new();
    targets.insert("deps".to_string(), target("sh -c 'exit 7'", vec![]));
    targets.insert("build".to_string(), target("touch dependent-ran", vec!["//a:deps"]));
    let projects = [make_project_with_targets("a", targets)];
    let refs = projects.iter().collect::<Vec<_>>();
    let map = map_of(&projects);
    let mut requested = TextSet::new();
    requested.insert("//a:build".to_string());
    let executor = Executor::with_all_options("/workspace", OutputMode::Json, false, false);

    let mut run = executor.execute_targets(&requested, &refs, false);
    let mut started = Vec::new();
    while let Some(level) = run.next_level(&map, false) {
        let mut results = Vec::new();
        for prepared in level.prepared {
            let Preparation::Ready(job) = prepared else {
                panic!("every target of the run is defined");
            };
            results.push(ended_result(
                &job.address,
                &CommandEnd::Exited {
                    success: job.command != "sh -c 'exit 7'",
                    stdout: Vec::new(),
                    stderr: Vec::new(),
                },
                1,
            ));
            started.push(job.address);
        }
        run.finish_level(&results);
    }
    let dependency = run.results.iter().find(|result| result.address == "//a:deps").unwrap();
    let dependent = run.results.iter().find(|result| result.address == "//a:build").unwrap();

    assert!(!dependency.success);
    assert!(!dependent.success);
    assert!(dependent.output.contains("Blocked"));
    assert_eq!(started, vec!["//a:deps"], "blocked dependent command was executed");
}
