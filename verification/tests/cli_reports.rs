use aster::cli::output::{build_execution_output, summarize, summary_lines, OutputMode};
use aster::cli::run::{expand_selection, parse_run_args, select_projects};
use aster::collections::TextMap;
use aster::discovery::scanner::DiscoveredProject;
use aster::executor::command::{parse_command, quote_command_argument};
use aster::executor::logs::{failure_reports, run_log, LogStore};
use aster::executor::results::ExecutionResult;
use aster::executor::runner::Executor;
use aster::graph::builder::{build_graph, dependency_warnings};
use aster::graph::cycles::find_cycle;
use aster::plugins::{LocalDependency, ProjectMetadata};

fn result(address: &str, success: bool, skipped: bool, cached: bool, output: &str) -> ExecutionResult {
    ExecutionResult {
        address: address.to_string(),
        success,
        skipped,
        cached,
        output: output.to_string(),
        duration_ms: 10,
    }
}

fn results() -> Vec<ExecutionResult> {
    vec![
        result("//a:test", true, false, false, ""),
        result("//b:test", false, false, false, "bad"),
        result("//c:test", true, true, false, ""),
        result("//d:test", true, false, true, ""),
    ]
}

fn project(path: &str, dependencies: &[&str]) -> DiscoveredProject {
    DiscoveredProject {
        root: format!("/w/{path}"),
        config_path: format!("/w/{path}/package.json"),
        metadata: ProjectMetadata {
            name: path.to_string(),
            version: None,
        },
        dependencies: dependencies
            .iter()
            .map(|path| LocalDependency {
                name: path.to_string(),
                path: path.to_string(),
            })
            .collect(),
        targets: TextMap::new(),
        plugin_name: "nodejs".to_string(),
        relative_path: path.to_string(),
    }
}

fn words(items: &[&str]) -> Vec<String> {
    items.iter().map(|item| item.to_string()).collect()
}

fn paths(projects: &[&DiscoveredProject]) -> Vec<String> {
    projects.iter().map(|project| project.relative_path.clone()).collect()
}

#[test]
fn summaries_count_each_result() {
    let summary = summarize(&results());
    assert_eq!(summary.total, 4);
    assert_eq!(
        (summary.passed, summary.failed, summary.skipped, summary.cached),
        (1, 1, 1, 1)
    );
    assert_eq!(summary.duration_ms, 40);
    let output = build_execution_output(&results());
    let statuses = output
        .results
        .iter()
        .map(|one| one.status.as_str())
        .collect::<Vec<_>>();
    assert_eq!(statuses, vec!["passed", "failed", "skipped", "cached"]);
    assert_eq!(output.results[1].exit_code, Some(1));
    assert_eq!(output.results[1].output.as_deref(), Some("bad"));
    assert_eq!(output.results[2].exit_code, None);
    assert_eq!(output.results[0].output, None);
}

#[test]
fn summaries_are_written_by_mode() {
    assert_eq!(
        summary_lines(&results(), "test", OutputMode::Normal, false),
        vec![
            "\n=== Summary ===",
            "Ran 'test' on 4 projects: 1 passed, 1 cached, 1 failed, 1 skipped (no target)",
            "Total time: 40ms",
            "\nFailed projects:",
            "  - //b:test",
        ]
    );
    assert_eq!(
        summary_lines(&results(), "test", OutputMode::Quiet, false),
        vec!["1 passed, 1 cached, 1 failed"]
    );
    assert!(summary_lines(&results(), "test", OutputMode::Json, false).is_empty());
    assert_eq!(
        summary_lines(&Vec::new(), "lint", OutputMode::Verbose, true)[1],
        "Ran 'lint' on 0 affected projects: 0 passed, 0 failed"
    );
}

#[test]
fn runs_are_logged() {
    let log = run_log("now".to_string(), "test", &results());
    assert_eq!(log.target, "test");
    assert_eq!(log.results[1].status, "failed");
    assert_eq!(log.results[1].exit_code, Some(1));
    assert_eq!(log.results[2].status, "skipped");
    assert_eq!(log.results[2].exit_code, None);
    let store = LogStore::new("/w");
    assert_eq!(store.latest_path(), "/w/.aster/logs/latest.json");
    assert_eq!(store.get_target_log(Some(&log), "//b:test").unwrap().output, "bad");
    assert!(store.get_target_log(Some(&log), "//z:test").is_none());
    assert!(store.get_target_log(None, "//b:test").is_none());
}

#[test]
fn failures_show_their_last_lines() {
    let output = (0..20).map(|line| format!("line {line}\n")).collect::<String>();
    let failed = vec![
        result("//a:test", false, false, false, &output),
        result("//b:test", true, false, false, "fine"),
    ];
    let reports = failure_reports(&failed, false);
    assert_eq!(reports.len(), 1);
    assert_eq!(reports[0].lines.len(), 15);
    assert_eq!(reports[0].lines[0], "    line 5");
    assert_eq!(
        reports[0].hint.as_deref(),
        Some("Run `aster logs //a:test` for full output")
    );
    let full = failure_reports(&failed, true);
    assert_eq!(full[0].lines.len(), 20);
    assert_eq!(full[0].hint, None);
}

#[test]
fn selections_are_expanded() {
    let projects = vec![
        project("core", &[]),
        project("lib", &["//core"]),
        project("app", &["//lib"]),
        project("other", &[]),
    ];
    let graph = build_graph(&projects).unwrap();
    let run = |args: &[&str]| {
        let args = parse_run_args(words(args));
        let selected = select_projects(&args, &graph, &projects, "/w", "/w").unwrap();
        paths(&expand_selection(&args, &selected, &graph, &projects))
    };
    assert_eq!(run(&["test", "//lib"]), vec!["core", "lib"]);
    assert_eq!(run(&["test", "//lib", "--no-deps"]), vec!["lib"]);
    assert_eq!(run(&["test", "//lib", "--no-deps", "--dependents"]), vec!["lib", "app"]);
    assert_eq!(run(&["test", "--all"]), vec!["core", "lib", "app", "other"]);
    assert_eq!(run(&["test", "--all", "-//other", "--no-deps"]), vec!["core", "lib", "app"]);
    let args = parse_run_args(words(&["test", "//gone"]));
    assert_eq!(
        select_projects(&args, &graph, &projects, "/w", "/w").unwrap_err(),
        "Project not found: //gone"
    );
    let args = parse_run_args(words(&["test", "//gone/..."]));
    assert_eq!(
        select_projects(&args, &graph, &projects, "/w", "/w").unwrap_err(),
        "No projects found matching: //gone/..."
    );
}

#[test]
fn dependencies_come_before_dependents() {
    let projects = vec![
        project("app", &["//lib", "//core"]),
        project("lib", &["../core"]),
        project("core", &[]),
    ];
    let graph = build_graph(&projects).unwrap();
    assert!(find_cycle(&graph).is_none());
    let order = graph
        .topological_order()
        .iter()
        .map(|node| node.address.clone())
        .collect::<Vec<_>>();
    assert_eq!(order, vec!["//core", "//lib", "//app"]);
    assert!(dependency_warnings(&projects).is_empty());
    let missing = vec![project("app", &["//gone:build"])];
    assert_eq!(
        dependency_warnings(&missing),
        vec!["warning: dependency //gone from //app not found in workspace"]
    );
    let cyclic = build_graph(&[project("a", &["//b"]), project("b", &["//a"])].into_iter().collect()).unwrap();
    let text = find_cycle(&cyclic).unwrap().to_string();
    assert!(text.starts_with("Dependency cycle detected: //"));
}

#[test]
fn quoted_arguments_are_read_back() {
    for value in ["plain", "two words", "it's", "", "a\"b", "$HOME", "#x", "\\"] {
        let command = format!("tool {}", quote_command_argument(value));
        assert_eq!(parse_command(&command).unwrap().args, vec![value]);
    }
}

#[test]
fn executors_have_options() {
    let plain = Executor::new("/w");
    assert!(plain.use_cache && !plain.full_logs && !plain.null_stdin);
    let full = Executor::with_options("/w", OutputMode::Quiet, true);
    assert!(full.full_logs && full.use_cache);
    assert_eq!(full.output_mode, OutputMode::Quiet);
}
