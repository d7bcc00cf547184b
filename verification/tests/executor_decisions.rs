use aster::cache::hasher::InputFile;
use aster::cache::store::CacheEntry;
use aster::collections::{TextMap, TextSet};
use aster::config::project::CacheConfig;
use aster::discovery::scanner::DiscoveredProject;
use aster::executor::caching::{postflight, preflight, start_job, JobStart, Preflight};
use aster::executor::command::parse_command;
use aster::executor::jobs::{
    invalidated_project, is_default_cacheable_target, level_resources, output_paths, prepare_target, CacheUpdate,
    Preparation, TargetJob,
};
use aster::executor::results::{
    combine_output, ended_result, prepare_command, settle_result, CommandEnd, ExecutionResult,
};
use aster::executor::run::TargetRun;
use aster::executor::signals::{terminate_step, watch_step, TerminateStep, WatchStep, COMMAND_GRACE_MILLIS};
use aster::executor::runner::Executor;
use aster::executor::signals::{shutdown_signal, signal_action, SignalAction};
use aster::cli::output::OutputMode;
use aster::graph::builder::build_graph;
use aster::plugins::{CacheInputs, ProjectMetadata, Target};

fn target(command: &str, depends_on: &[&str]) -> Target {
    Target {
        command: command.to_string(),
        depends_on: depends_on.iter().map(|s| s.to_string()).collect(),
        capabilities: TextSet::new(),
        files_glob: None,
        stream: false,
        cache: None,
        invalidates_cache: false,
        working_dir: None,
        exclusive_resources: Vec::new(),
    }
}

fn cache(enabled: Option<bool>) -> CacheConfig {
    CacheConfig {
        enabled,
        include_globs: Vec::new(),
        exclude_globs: Vec::new(),
        env: Vec::new(),
        outputs: Vec::new(),
    }
}

fn project(path: &str, targets: Vec<(&str, Target)>) -> DiscoveredProject {
    let mut map = TextMap::new();
    for (name, target) in targets {
        map.insert(name.to_string(), target);
    }
    DiscoveredProject {
        root: format!("/w/{path}"),
        config_path: format!("/w/{path}/package.json"),
        metadata: ProjectMetadata {
            name: path.to_string(),
            version: None,
        },
        dependencies: Vec::new(),
        targets: map,
        plugin_name: "nodejs".to_string(),
        relative_path: path.to_string(),
    }
}

fn map_of(projects: &[DiscoveredProject]) -> TextMap<&DiscoveredProject> {
    let mut map = TextMap::new();
    for project in projects {
        map.insert(format!("//{}", project.relative_path), project);
    }
    map
}

fn job<'a>(address: &str, projects: &TextMap<&'a DiscoveredProject>) -> TargetJob<'a> {
    match prepare_target(address, projects, None) {
        Preparation::Ready(job) => job,
        _ => panic!("{address} is not ready"),
    }
}

fn inputs() -> CacheInputs {
    CacheInputs {
        source_globs: vec!["**/*.ts".to_string()],
        config_files: Vec::new(),
        env_vars: Vec::new(),
    }
}

fn files(content: &str) -> Vec<InputFile> {
    vec![InputFile {
        path: "src/index.ts".to_string(),
        content: content.as_bytes().to_vec(),
    }]
}

fn entry(hash: &str, success: bool) -> CacheEntry {
    CacheEntry {
        hash: hash.to_string(),
        timestamp: "2026-01-01T00:00:00Z".to_string(),
        success,
    }
}

fn missed(decision: Preflight) -> String {
    match decision {
        Preflight::Miss(hash) => hash,
        other => panic!("expected a miss, got {other:?}"),
    }
}

fn result(address: &str, success: bool) -> ExecutionResult {
    ExecutionResult {
        address: address.to_string(),
        success,
        skipped: false,
        cached: false,
        output: String::new(),
        duration_ms: 1,
    }
}

fn set(items: &[&str]) -> TextSet {
    let mut set = TextSet::new();
    for item in items {
        set.insert(item.to_string());
    }
    set
}

#[test]
fn a_success_is_cached_and_found_again() {
    let projects = [project("a", vec![("test", target("npm test", &[]))])];
    let map = map_of(&projects);
    let job = job("//a:test", &map);
    let mut computed = TextMap::new();
    let environment = TextMap::new();
    let before = files("one");
    let hash = missed(preflight(
        &job,
        Some(&inputs()),
        &environment,
        Some(&before),
        None,
        true,
        &mut computed,
    ));
    assert_eq!(hash.len(), 64);
    assert!(!computed.contains_key("//a:test"));
    let update = postflight(
        &job,
        true,
        true,
        Some(&hash),
        Some(&inputs()),
        &environment,
        Some(&before),
        &mut computed,
    );
    assert_eq!(update, CacheUpdate::Store(hash.clone()));
    assert_eq!(computed.get("//a:test"), Some(&hash));

    let mut later = TextMap::new();
    let found = entry(&hash, true);
    match preflight(
        &job,
        Some(&inputs()),
        &environment,
        Some(&before),
        Some(&found),
        true,
        &mut later,
    ) {
        Preflight::Hit(result) => {
            assert!(result.success && result.cached);
            assert_eq!(result.address, "//a:test");
        }
        other => panic!("expected a hit, got {other:?}"),
    }
    assert_eq!(later.get("//a:test"), Some(&hash));

    for (found, files, outputs) in [
        (entry(&hash, false), files("one"), true),
        (entry(&hash, true), files("two"), true),
        (entry(&hash, true), files("one"), false),
    ] {
        let mut none = TextMap::new();
        let decision = preflight(
            &job,
            Some(&inputs()),
            &environment,
            Some(&files),
            Some(&found),
            outputs,
            &mut none,
        );
        assert!(matches!(decision, Preflight::Miss(_)));
        assert!(none.is_empty());
    }
}

#[test]
fn a_target_that_changes_its_inputs_leaves_nothing() {
    let projects = [project("a", vec![("test", target("npm test", &[]))])];
    let map = map_of(&projects);
    let job = job("//a:test", &map);
    let mut computed = TextMap::new();
    let environment = TextMap::new();
    let hash = missed(preflight(
        &job,
        Some(&inputs()),
        &environment,
        Some(&files("one")),
        None,
        true,
        &mut computed,
    ));
    for (success, after, expected) in [
        (true, "two", CacheUpdate::Remove),
        (false, "one", CacheUpdate::Remove),
        (true, "one", CacheUpdate::Store(hash.clone())),
    ] {
        let update = postflight(
            &job,
            success,
            true,
            Some(&hash),
            Some(&inputs()),
            &environment,
            Some(&files(after)),
            &mut TextMap::new(),
        );
        assert_eq!(update, expected);
    }
    let unused = postflight(
        &job,
        false,
        false,
        Some(&hash),
        Some(&inputs()),
        &environment,
        Some(&files("one")),
        &mut TextMap::new(),
    );
    assert_eq!(unused, CacheUpdate::Keep);
}

#[test]
fn what_the_cache_says_decides_what_runs() {
    assert!(matches!(
        start_job(None),
        JobStart::Run {
            hash: None,
            forget: false
        }
    ));
    assert!(matches!(
        start_job(Some(Preflight::Unavailable)),
        JobStart::Run {
            hash: None,
            forget: true
        }
    ));
    match start_job(Some(Preflight::Miss("key".to_string()))) {
        JobStart::Run { hash, forget } => {
            assert_eq!(hash.as_deref(), Some("key"));
            assert!(!forget);
        }
        other => panic!("a miss runs, got {other:?}"),
    }
    match start_job(Some(Preflight::Hit(result("//a:test", true)))) {
        JobStart::Report(result) => assert_eq!(result.address, "//a:test"),
        other => panic!("a hit does not run, got {other:?}"),
    }
}

#[test]
fn only_common_or_enabled_targets_are_cached() {
    let mut enabled = target("run", &[]);
    enabled.cache = Some(cache(Some(true)));
    let mut disabled = target("run", &[]);
    disabled.cache = Some(cache(Some(false)));
    let projects = [project(
        "a",
        vec![
            ("custom", target("run", &[])),
            ("wanted", enabled),
            ("build", target("run", &[])),
            ("lint", disabled),
        ],
    )];
    let map = map_of(&projects);
    let environment = TextMap::new();
    for (address, cached) in [
        ("//a:custom", false),
        ("//a:wanted", true),
        ("//a:build", true),
        ("//a:lint", false),
    ] {
        let decision = preflight(
            &job(address, &map),
            Some(&inputs()),
            &environment,
            Some(&files("one")),
            None,
            true,
            &mut TextMap::new(),
        );
        assert_eq!(matches!(decision, Preflight::Miss(_)), cached, "{address}");
    }
    assert!(is_default_cacheable_target("typecheck"));
    assert!(!is_default_cacheable_target("dev"));
}

#[test]
fn a_target_is_not_cached_without_what_its_key_needs() {
    let projects = [project(
        "a",
        vec![
            ("deps", target("npm install", &[])),
            ("test", target("npm test", &["//a:deps"])),
        ],
    )];
    let map = map_of(&projects);
    let environment = TextMap::new();
    let look = |found: Option<&Vec<InputFile>>, inputs: Option<&CacheInputs>, computed: &mut TextMap<String>| {
        preflight(&job("//a:test", &map), inputs, &environment, found, None, true, computed)
    };
    let known = inputs();
    let read = files("one");
    assert!(matches!(
        look(Some(&read), Some(&known), &mut TextMap::new()),
        Preflight::Unavailable
    ));
    let mut computed = TextMap::new();
    computed.insert("//a:deps".to_string(), "abc".to_string());
    assert!(matches!(look(None, Some(&known), &mut computed), Preflight::Unavailable));
    assert!(matches!(look(Some(&read), None, &mut computed), Preflight::Unavailable));
    let one = missed(look(Some(&read), Some(&known), &mut computed));
    computed.insert("//a:deps".to_string(), "def".to_string());
    let other = missed(look(Some(&read), Some(&known), &mut computed));
    assert_ne!(one, other);
}

#[test]
fn targets_are_prepared_with_their_command() {
    let mut own = target("npm test", &[]);
    own.working_dir = Some("/w/elsewhere".to_string());
    own.exclusive_resources = vec!["db".to_string(), "cache".to_string(), "db".to_string()];
    own.invalidates_cache = true;
    let projects = [project("a", vec![("test", own), ("build", target("make", &[]))])];
    let map = map_of(&projects);
    let ready = job("//a:test", &map);
    assert_eq!(ready.command, "npm test");
    assert_eq!(ready.working_dir(), "/w/elsewhere");
    assert_eq!(ready.resources(), vec!["cache", "db"]);
    assert!(ready.invalidates_cache());
    assert_eq!(job("//a:build", &map).working_dir(), "/w/a");

    let mut overrides = TextMap::new();
    overrides.insert("//a:lint".to_string(), "eslint .".to_string());
    match prepare_target("//a:lint", &map, Some(&overrides)) {
        Preparation::Ready(job) => assert_eq!(job.command, "eslint ."),
        _ => panic!("an override runs"),
    }
    match prepare_target("//a:lint", &map, None) {
        Preparation::Skipped(result) => {
            assert!(result.success && result.skipped);
            assert_eq!(result.output, "Skipped: no 'lint' target defined");
        }
        _ => panic!("an unknown target is skipped"),
    }
    assert!(matches!(prepare_target("//b:test", &map, None), Preparation::Ignored));
    assert!(matches!(prepare_target("nonsense", &map, None), Preparation::Ignored));

    let needed = level_resources(
        &vec!["//a:test".to_string(), "//a:build".to_string()],
        &map,
    );
    assert_eq!(needed.to_vec(), vec!["cache", "db"]);
}

#[test]
fn a_success_may_clear_its_project() {
    assert_eq!(
        invalidated_project("//a:codegen", true, true, true).as_deref(),
        Some("//a")
    );
    assert_eq!(invalidated_project("//a:codegen", false, true, true), None);
    assert_eq!(invalidated_project("//a:codegen", true, false, true), None);
    assert_eq!(invalidated_project("//a:codegen", true, true, false), None);
}

#[test]
fn outputs_are_looked_for_in_the_project() {
    let mut config = cache(None);
    config.outputs = vec!["dist".to_string(), "/abs".to_string()];
    assert_eq!(output_paths("/w/a", Some(&config)), vec!["/w/a/dist", "/abs"]);
    assert!(output_paths("/w/a", None).is_empty());
}

#[test]
fn a_failed_target_blocks_those_behind_it() {
    let projects = [
        project("a", vec![("build", target("make", &[]))]),
        project("b", vec![("build", target("make", &["//a:build"]))]),
        project("c", vec![("build", target("make", &["//b:build"]))]),
        project("d", vec![("build", target("make", &[]))]),
    ];
    let map = map_of(&projects);
    let mut run = TargetRun::new(&set(&["//a:build", "//b:build", "//c:build", "//d:build"]), &map, None);
    assert_eq!(run.levels.len(), 3);
    assert_eq!(run.next_level(&map, false).unwrap().runnable, vec!["//a:build", "//d:build"]);
    run.finish_level(&vec![result("//a:build", false), result("//d:build", true)]);
    assert!(run.next_level(&map, false).unwrap().prepared.is_empty());
    run.finish_level(&Vec::new());
    assert!(run.next_level(&map, false).unwrap().prepared.is_empty());
    run.finish_level(&Vec::new());
    assert!(run.next_level(&map, false).is_none());
    let addresses = run.results.iter().map(|one| one.address.as_str()).collect::<Vec<_>>();
    assert_eq!(addresses, vec!["//a:build", "//d:build", "//b:build", "//c:build"]);
    assert!(!run.results[2].success);
    assert!(run.results[2].output.contains("//a:build"));
    assert!(run.results[3].output.contains("//b:build"));
}

#[test]
fn no_level_starts_during_a_shutdown() {
    let projects = [project("a", vec![("build", target("make", &[]))])];
    let map = map_of(&projects);
    let mut run = TargetRun::new(&set(&["//a:build"]), &map, None);
    assert!(run.next_level(&map, true).is_none());
    assert_eq!(run.next, 0);
}

#[test]
fn output_of_commands_is_combined() {
    assert_eq!(combine_output("out", "err"), "out\nerr");
    assert_eq!(combine_output("out\n", "err"), "out\nerr");
    assert_eq!(combine_output("out", ""), "out");
    assert_eq!(combine_output("", "err"), "err");
    let ended = ended_result(
        "//a:test",
        &CommandEnd::Exited {
            success: false,
            stdout: b"out".to_vec(),
            stderr: vec![b'e', b'r', 0xff],
        },
        7,
    );
    assert!(!ended.success);
    assert_eq!(ended.output, "out\ner\u{fffd}");
    assert_eq!(ended.duration_ms, 7);
    let failed = ended_result("//a:test", &CommandEnd::Failed("no such file".to_string()), 7);
    assert_eq!(failed.output, "Failed to execute command: no such file");
}

#[test]
fn results_during_a_shutdown_are_cancelled() {
    let mut one = result("//a:test", true);
    one.output = "half".to_string();
    let settled = settle_result(one, true);
    assert!(!settled.success);
    assert_eq!(settled.output, "half\nCancelled: shutdown requested");
    let settled = settle_result(result("//a:test", true), true);
    assert_eq!(settled.output, "Cancelled: shutdown requested");
    assert!(settle_result(result("//a:test", true), false).success);
}

#[test]
fn commands_are_checked_before_they_run() {
    let ready = prepare_command("//a:test", "CI=1 npm 'run it'").unwrap();
    assert_eq!(ready.program, "npm");
    assert_eq!(ready.args, vec!["run it"]);
    assert_eq!(ready.env, vec![("CI".to_string(), "1".to_string())]);
    for (command, message) in [
        ("", "empty command"),
        ("A=1 B=2", "empty command (only environment variables)"),
        ("npm 'x", "invalid command quoting: npm 'x"),
        ("''", "Empty command"),
    ] {
        let failed = prepare_command("//a:test", command).unwrap_err();
        assert!(!failed.success);
        assert_eq!(failed.output, message);
    }
    assert_eq!(parse_command("1A=2 x").unwrap().program, "1A=2");
}

#[test]
fn streamed_targets_say_what_runs() {
    let projects = [project("a", vec![("dev", target("npm run dev", &[]))])];
    let quiet = Executor::new("/w").execute_streaming("dev", &projects[0]);
    assert!(quiet.notices.is_empty());
    let (command, directory) = quiet.process.unwrap();
    assert_eq!(command.program, "npm");
    assert_eq!(command.args, vec!["run", "dev"]);
    assert_eq!(directory, "/w/a");
    let loud = Executor::with_output_mode("/w", OutputMode::Verbose).execute_streaming("dev", &projects[0]);
    assert_eq!(
        loud.notices,
        vec!["[aster] Running: npm run dev", "[aster] Working directory: /w/a"]
    );
    let missing = Executor::new("/w").execute_streaming("serve", &projects[0]);
    assert_eq!(missing.process.unwrap_err(), "No 'serve' target defined for //a");
}

#[test]
fn executors_run_targets_with_what_they_need() {
    let projects = [
        project("a", vec![("build", target("make", &[])), ("test", target("make", &[]))]),
        project("b", vec![("build", target("make", &["//a:build"]))]),
    ];
    let all = projects.iter().collect::<Vec<_>>();
    let executor = Executor::with_all_options("/w", OutputMode::Quiet, true, false).with_null_stdin();
    assert!(executor.full_logs && !executor.use_cache && executor.null_stdin);
    let run = executor.execute_targets(&set(&["//b:build"]), &all, false);
    assert_eq!(run.levels, vec![vec!["//a:build"], vec!["//b:build"]]);
    let run = executor.execute_targets(&set(&["//b:build"]), &all, true);
    assert_eq!(run.levels, vec![vec!["//b:build"]]);
    assert_eq!(run.overrides.len(), 0);
    let run = executor.execute_with_command_overrides("test", &all, &TextMap::new(), Some(&set(&["//a"])));
    assert_eq!(run.levels, vec![vec!["//a:test"]]);
}

#[test]
fn overrides_replace_the_commands_of_a_run() {
    let projects = [
        project("a", vec![("lint", target("npm run lint", &[]))]),
        project("b", vec![]),
        project("c", vec![("lint", target("make lint", &[]))]),
        project("d", vec![]),
    ];
    let all = projects.iter().collect::<Vec<_>>();
    let map = map_of(&projects);
    let mut overrides = TextMap::new();
    overrides.insert("//a:lint".to_string(), "eslint x.ts".to_string());
    overrides.insert("//b:lint".to_string(), "eslint y.ts".to_string());
    let executor = Executor::new("/w");
    let commands = |mut run: TargetRun| {
        run.next_level(&map, false)
            .unwrap()
            .prepared
            .into_iter()
            .map(|prepared| match prepared {
                Preparation::Ready(job) => job.command,
                Preparation::Skipped(result) => result.output,
                Preparation::Ignored => "ignored".to_string(),
            })
            .collect::<Vec<_>>()
    };
    let skipped = "Skipped: no 'lint' target defined";
    let run = executor.execute_with_command_overrides("lint", &all, &overrides, None);
    assert_eq!(commands(run), vec!["eslint x.ts", "eslint y.ts", "make lint", skipped]);
    let run = executor.execute("lint", &all, &build_graph(&Vec::new()).unwrap(), None);
    assert_eq!(commands(run), vec!["npm run lint", skipped, "make lint", skipped]);
    let none = executor.execute_with_command_overrides("lint", &Vec::new(), &overrides, None);
    assert!(none.levels.is_empty());
}

#[test]
fn signals_end_an_idle_program() {
    assert_eq!(signal_action(2, 0, false), SignalAction::Exit(130));
    assert_eq!(signal_action(15, 0, true), SignalAction::Keep);
    assert_eq!(signal_action(15, 1, false), SignalAction::Keep);
    assert_eq!(shutdown_signal(0), None);
    assert_eq!(shutdown_signal(15), Some(15));
}

#[test]
fn processes_that_do_not_end_are_killed() {
    assert_eq!(watch_step(false, false), WatchStep::Wait);
    assert_eq!(watch_step(false, true), WatchStep::Terminate);
    assert_eq!(watch_step(true, true), WatchStep::Finish);
    assert_eq!(terminate_step(false, 0, COMMAND_GRACE_MILLIS), TerminateStep::Wait);
    assert_eq!(terminate_step(true, 2_999, COMMAND_GRACE_MILLIS), TerminateStep::Finish);
    assert_eq!(terminate_step(true, 3_000, COMMAND_GRACE_MILLIS), TerminateStep::Kill);
    assert_eq!(terminate_step(false, 3_000, COMMAND_GRACE_MILLIS), TerminateStep::Kill);
}
