use aster::collections::TextMap;
use aster::dev::broker::ReadyRecord;
use aster::dev::daemon::{
    bundle_id, daemon_error, BundleState, Daemon, DaemonError, DaemonErrorCode, LaunchDecision, LaunchOptions,
    LaunchStatus, Operation, SpawnOrder, DEFAULT_GROUP, PROTOCOL_VERSION,
};
use aster::dev::requests::{DaemonReply, RequestPaths};
use aster::dev::supervisor::{
    ready_record, removes_endpoint, runtime_directory, startup_log, startup_step, supervisor_arguments,
    supervisor_environment, tail_start, validate_runtime_directory, validate_runtime_file, ResponseValue,
    RuntimePaths, StartupStep, CONNECT_TIMEOUT_MILLIS,
};

fn spawn_order(decision: LaunchDecision) -> SpawnOrder {
    match decision {
        LaunchDecision::Spawn(order) => order,
        other => panic!("expected an order to spawn, got {other:?}"),
    }
}

fn spawn(daemon: &mut Daemon, workspace: &str, group: Option<&str>, pid: u32, connection: u64, now: u64) -> String {
    let order = spawn_order(daemon.launch(workspace, group, connection).unwrap());
    let id = order.bundle_id.clone();
    daemon.note_spawned(order, pid, connection, now);
    id
}

fn record(id: &str, workspace: &str, group: &str, display_group: Option<&str>, pid: u32) -> ReadyRecord {
    let mut ports = TextMap::new();
    ports.insert("api".to_string(), 4100);
    ReadyRecord {
        version: PROTOCOL_VERSION,
        bundle_id: id.to_string(),
        workspace: workspace.to_string(),
        group: group.to_string(),
        display_group: display_group.map(str::to_string),
        supervisor_pid: pid,
        services: vec!["api".to_string()],
        ports,
    }
}

fn paths(workspace: &str) -> RequestPaths {
    RequestPaths {
        workspace: Ok(workspace.to_string()),
        executable: Ok("/bin/aster".to_string()),
    }
}

fn bad_path() -> DaemonError {
    daemon_error(DaemonErrorCode::InvalidPath, "workspace /gone is not a directory")
}

fn launch_operation(group: Option<&str>) -> Operation {
    Operation::Launch {
        workspace: "/w".to_string(),
        group: group.map(str::to_string),
        watch: true,
        use_cache: false,
        executable: "aster".to_string(),
    }
}

#[test]
fn a_bundle_is_started_waited_for_and_reported() {
    let mut daemon = Daemon::new();
    let order = spawn_order(daemon.launch("/w", Some(" api "), 1).unwrap());
    assert_eq!(order.group, "api");
    assert_eq!(order.display_group.as_deref(), Some("api"));
    assert_eq!(order.bundle_id, bundle_id("/w", "api"));
    let id = order.bundle_id.clone();
    daemon.note_spawned(order, 42, 1, 1_000);
    assert_eq!(daemon.bundles.len(), 1);
    assert_eq!(daemon.bundles[0].deadline, 21_000);
    assert_eq!(daemon.bundles[0].descriptor.state, BundleState::Starting);

    assert!(matches!(
        daemon.launch("/w", Some("api"), 2).unwrap(),
        LaunchDecision::Wait
    ));

    let answers = daemon.note_ready(record(&id, "/w", "api", Some("api"), 42));
    assert_eq!(answers.len(), 2);
    assert_eq!(answers[0].connection, 1);
    assert_eq!(answers[0].result.status, LaunchStatus::Started);
    assert_eq!(answers[1].connection, 2);
    assert_eq!(answers[1].result.status, LaunchStatus::AlreadyRunning);
    assert_eq!(answers[1].result.bundle.state, BundleState::Running);
    assert_eq!(answers[1].result.bundle.services, vec!["api"]);
    assert_eq!(answers[1].result.bundle.ports.get("api"), Some(&4100));

    match daemon.launch("/w", Some("api"), 3).unwrap() {
        LaunchDecision::Reply(result) => {
            assert_eq!(result.status, LaunchStatus::AlreadyRunning);
            assert_eq!(result.bundle.supervisor_pid, 42);
        }
        other => panic!("expected a reply, got {other:?}"),
    }
    assert_eq!(daemon.bundles.len(), 1);
}

#[test]
fn a_record_of_another_supervisor_is_ignored() {
    let mut daemon = Daemon::new();
    let id = spawn(&mut daemon, "/w", None, 42, 1, 0);
    assert!(daemon.note_ready(record(&id, "/w", DEFAULT_GROUP, None, 43)).is_empty());
    assert!(daemon.note_ready(record("other", "/w", DEFAULT_GROUP, None, 42)).is_empty());
    assert!(daemon
        .note_ready(record(&id, "/w", DEFAULT_GROUP, Some("shown"), 42))
        .is_empty());
    let mut old = record(&id, "/w", DEFAULT_GROUP, None, 42);
    old.version = PROTOCOL_VERSION + 1;
    assert!(daemon.note_ready(old).is_empty());
    assert_eq!(daemon.bundles[0].descriptor.state, BundleState::Starting);
    assert_eq!(daemon.note_ready(record(&id, "/w", DEFAULT_GROUP, None, 42)).len(), 1);
}

#[test]
fn stopping_a_workspace_leaves_the_others() {
    let mut daemon = Daemon::new();
    spawn(&mut daemon, "/one", None, 1, 1, 0);
    spawn(&mut daemon, "/two", None, 2, 2, 0);
    spawn(&mut daemon, "/one", Some("api"), 3, 3, 0);
    assert_eq!(daemon.list_workspace("/one").len(), 2);

    let stopped = daemon.stop_workspace("/one", None).unwrap();
    assert_eq!(stopped.bundles.len(), 2);
    assert_eq!(stopped.bundles[0].state, BundleState::Stopping);
    assert_eq!(stopped.waiting, vec![1, 3]);
    assert_eq!(stopped.error.code, DaemonErrorCode::StartupFailed);
    assert_eq!(
        stopped.error.to_string(),
        "service supervisor was stopped during startup"
    );
    assert!(daemon.list_workspace("/one").is_empty());
    assert_eq!(daemon.list_workspace("/two").len(), 1);
    assert!(!daemon.stopping_all);
}

#[test]
fn stopping_a_group_leaves_the_rest_of_its_workspace() {
    let mut daemon = Daemon::new();
    spawn(&mut daemon, "/w", None, 1, 1, 0);
    spawn(&mut daemon, "/w", Some("api"), 2, 2, 0);
    let stopped = daemon.stop_workspace("/w", Some("api")).unwrap();
    assert_eq!(stopped.bundles.len(), 1);
    assert_eq!(stopped.bundles[0].group, "api");
    assert_eq!(daemon.bundles.len(), 1);
    let error = daemon.stop_workspace("/w", Some(DEFAULT_GROUP)).unwrap_err();
    assert_eq!(error.code, DaemonErrorCode::InvalidRequest);
    assert_eq!(daemon.bundles.len(), 1);
}

#[test]
fn a_daemon_that_stops_all_takes_no_launch_and_ends() {
    let mut daemon = Daemon::new();
    spawn(&mut daemon, "/w", None, 1, 1, 0);
    assert!(!daemon.check_idle(0));
    let stopped = daemon.stop_all();
    assert_eq!(stopped.bundles.len(), 1);
    let error = daemon.launch("/w", None, 2).unwrap_err();
    assert_eq!(error.code, DaemonErrorCode::Busy);
    assert_eq!(error.message, "daemon is stopping all bundles");
    assert!(daemon.check_idle(0));
}

#[test]
fn an_idle_daemon_ends_after_its_grace() {
    let mut daemon = Daemon::new();
    assert!(!daemon.check_idle(1_000));
    assert!(!daemon.check_idle(1_499));
    assert!(daemon.check_idle(1_500));
    spawn(&mut daemon, "/w", None, 1, 1, 1_400);
    assert!(!daemon.check_idle(9_000));
    assert_eq!(daemon.idle_since, None);
}

#[test]
fn a_supervisor_that_ends_or_is_late_is_reported() {
    let mut daemon = Daemon::new();
    spawn(&mut daemon, "/w", None, 1, 7, 1_000);
    assert!(!daemon.has_ended(0, false, 20_999));
    assert!(daemon.has_ended(0, false, 21_000));
    assert!(daemon.has_ended(0, true, 1_000));
    let ended = daemon.remove_ended(0, None, Some("log".to_string()));
    assert_eq!(ended.waiting, vec![7]);
    assert_eq!(ended.error.code, DaemonErrorCode::StartupFailed);
    assert_eq!(ended.error.message, "service supervisor readiness timed out");
    assert_eq!(ended.error.diagnostics.as_deref(), Some("log"));
    assert!(daemon.bundles.is_empty());

    let id = spawn(&mut daemon, "/w", None, 2, 8, 0);
    daemon.note_ready(record(&id, "/w", DEFAULT_GROUP, None, 2));
    assert!(!daemon.has_ended(0, false, 99_000));
    let ended = daemon.remove_ended(0, Some("exit status: 1"), None);
    assert!(ended.waiting.is_empty());
    assert_eq!(
        ended.error.message,
        "service supervisor exited before readiness: exit status: 1"
    );
}

#[test]
fn requests_are_met_or_refused() {
    let mut daemon = Daemon::new();
    let error = daemon
        .handle_request(99, Operation::StopAll, paths("/w"), 1, 5)
        .unwrap_err();
    assert_eq!(error.code, DaemonErrorCode::UnsupportedProtocol);
    assert_eq!(error.message, "daemon protocol version 1 is required");
    assert!(!daemon.stopping_all);

    match daemon.handle_request(1, Operation::Ping, paths("/w"), 1, 5).unwrap() {
        DaemonReply::Pong(pid) => assert_eq!(pid, 5),
        other => panic!("expected a pong, got {other:?}"),
    }

    match daemon
        .handle_request(1, launch_operation(None), paths("/w"), 1, 5)
        .unwrap()
    {
        DaemonReply::Launch {
            decision,
            executable,
            watch,
            use_cache,
        } => {
            let order = spawn_order(decision);
            assert_eq!(order.group, DEFAULT_GROUP);
            assert_eq!(order.display_group, None);
            assert_eq!(executable, "/bin/aster");
            assert!(watch);
            assert!(!use_cache);
            daemon.note_spawned(order, 9, 1, 0);
        }
        other => panic!("expected a launch, got {other:?}"),
    }

    let list = Operation::ListWorkspace {
        workspace: "/w".to_string(),
    };
    match daemon.handle_request(1, list, paths("/w"), 2, 5).unwrap() {
        DaemonReply::Bundles(bundles) => assert_eq!(bundles.len(), 1),
        other => panic!("expected bundles, got {other:?}"),
    }

    match daemon
        .handle_request(1, Operation::StopAll, paths("/w"), 3, 5)
        .unwrap()
    {
        DaemonReply::Stopped(stopped) => assert_eq!(stopped.waiting, vec![1]),
        other => panic!("expected stopped bundles, got {other:?}"),
    }
    assert!(daemon.stopping_all);
    let error = daemon
        .handle_request(1, launch_operation(None), paths("/w"), 4, 5)
        .unwrap_err();
    assert_eq!(error.code, DaemonErrorCode::Busy);
}

#[test]
fn a_refused_request_changes_nothing() {
    let mut daemon = Daemon::new();
    spawn(&mut daemon, "/w", None, 1, 1, 0);
    let gone = || RequestPaths {
        workspace: Err(bad_path()),
        executable: Ok("/bin/aster".to_string()),
    };
    let list = Operation::ListWorkspace {
        workspace: "/gone".to_string(),
    };
    let stop = Operation::StopWorkspace {
        workspace: "/gone".to_string(),
        group: None,
    };
    for operation in [launch_operation(None), list, stop] {
        let error = daemon.handle_request(1, operation, gone(), 2, 5).unwrap_err();
        assert_eq!(error, bad_path());
    }
    let no_program = RequestPaths {
        workspace: Ok("/w".to_string()),
        executable: Err(daemon_error(DaemonErrorCode::InvalidPath, "not a file")),
    };
    let error = daemon
        .handle_request(1, launch_operation(None), no_program, 2, 5)
        .unwrap_err();
    assert_eq!(error.message, "not a file");
    let error = daemon
        .handle_request(1, launch_operation(Some("  ")), paths("/w"), 2, 5)
        .unwrap_err();
    assert_eq!(error.code, DaemonErrorCode::InvalidRequest);
    assert_eq!(
        error.message,
        "service group is empty or reserved for Aster's default bundle"
    );
    assert_eq!(daemon.bundles.len(), 1);
    assert_eq!(daemon.bundles[0].waiters.len(), 1);
}

#[test]
fn bundle_ids_are_the_first_twelve_bytes_of_a_digest() {
    let id = bundle_id("/w", "api");
    assert_eq!(id.len(), 24);
    assert!(id.chars().all(|c| c.is_ascii_hexdigit() && !c.is_ascii_uppercase()));
    assert_ne!(id, bundle_id("/w", DEFAULT_GROUP));
    assert_ne!(id, bundle_id("/v", "api"));
}

#[test]
fn supervisors_are_started_with_what_was_asked_for() {
    assert_eq!(
        supervisor_arguments(Some("api"), true, true),
        vec!["services", "up", "api", "--no-ui"]
    );
    assert_eq!(
        supervisor_arguments(None, false, false),
        vec!["services", "up", "--no-ui", "--no-watch", "--no-cache"]
    );
    let order = SpawnOrder {
        bundle_id: "id".to_string(),
        workspace: "/w".to_string(),
        group: DEFAULT_GROUP.to_string(),
        display_group: None,
    };
    let environment = supervisor_environment(&order, "/run/ready.sock");
    assert_eq!(environment.len(), 4);
    assert_eq!(
        environment[0],
        (
            "ASTER_INTERNAL_DAEMON_READY_SOCKET".to_string(),
            "/run/ready.sock".to_string()
        )
    );
    assert_eq!(
        environment[3],
        ("ASTER_INTERNAL_DAEMON_DISPLAY_GROUP".to_string(), String::new())
    );
    assert_eq!(startup_log("/run", "id"), "/run/supervisor-id.log");
    let options = LaunchOptions::new("/w", "/bin/aster");
    assert!(options.watch && options.use_cache && options.group.is_none());
}

#[test]
fn supervisors_report_with_their_environment() {
    let make = |id: Option<&str>, group: Option<&str>, shown: Option<&str>| {
        ready_record(
            id.map(str::to_string),
            group.map(str::to_string),
            shown.map(str::to_string),
            "/w".to_string(),
            3,
            vec!["api".to_string()],
            TextMap::new(),
        )
    };
    let record = make(Some("id"), Some("api"), Some("")).unwrap();
    assert_eq!(record.version, PROTOCOL_VERSION);
    assert_eq!(record.display_group, None);
    assert_eq!(
        make(Some("id"), Some("api"), Some("api")).unwrap().display_group,
        Some("api".to_string())
    );
    assert_eq!(make(None, None, None).unwrap_err().message, "missing daemon bundle id");
    assert_eq!(
        make(Some("id"), None, None).unwrap_err().message,
        "missing daemon group"
    );
}

#[test]
fn runtime_files_are_checked() {
    assert_eq!(runtime_directory(Some("/run/own"), "/tmp", 7), "/run/own");
    assert_eq!(runtime_directory(None, "/tmp", 7), "/tmp/aster-daemon-v1-7");
    let paths = RuntimePaths::within("/run");
    assert_eq!(paths.socket, "/run/daemon.sock");
    assert_eq!(paths.ready, "/run/ready.sock");
    assert_eq!(paths.pid, "/run/daemon.pid");

    assert!(validate_runtime_directory("/run", true, 7, 0o40700, 7).is_ok());
    for (is_directory, owner, mode) in [(true, 7, 0o40755), (true, 8, 0o40700), (false, 7, 0o100700)] {
        let error = validate_runtime_directory("/run", is_directory, owner, mode, 7).unwrap_err();
        assert_eq!(error.code, DaemonErrorCode::InsecureRuntimeDirectory);
        assert_eq!(
            error.message,
            "daemon runtime directory /run must be owned by effective uid 7 with mode 0700"
        );
    }
    assert!(validate_runtime_file("/run/daemon.lock", true, 7, 7).is_ok());
    let error = validate_runtime_file("/run/daemon.lock", true, 8, 7).unwrap_err();
    assert_eq!(error.code, DaemonErrorCode::EndpointCollision);
    assert_eq!(error.message, "unsafe daemon runtime file /run/daemon.lock");

    assert_eq!(removes_endpoint("/s", None), Ok(false));
    assert_eq!(removes_endpoint("/s", Some(true)), Ok(true));
    assert_eq!(
        removes_endpoint("/s", Some(false)).unwrap_err().message,
        "daemon endpoint /s is not a socket"
    );
    assert_eq!(tail_start(10, 16384), 0);
    assert_eq!(tail_start(16385, 16384), 1);
}

#[test]
fn answers_of_another_kind_are_refused() {
    assert_eq!(ResponseValue::Pong { daemon_pid: 3 }.into_pong(), Ok(3));
    let error = ResponseValue::Bundles(Vec::new()).into_pong().unwrap_err();
    assert_eq!(error.code, DaemonErrorCode::UnsupportedProtocol);
    assert!(ResponseValue::Bundles(Vec::new()).into_bundles().is_ok());
    assert!(ResponseValue::Stopped(Vec::new()).into_bundles().is_err());
    assert!(ResponseValue::Stopped(Vec::new()).into_stopped().is_ok());
    assert!(ResponseValue::Pong { daemon_pid: 3 }.into_launch().is_err());
    assert!(ResponseValue::Pong { daemon_pid: 3 }.into_stopped().is_err());
}

#[test]
fn a_starting_daemon_is_waited_for() {
    let step = |ready: bool, status: Option<&str>, now: u64| {
        startup_step(ready, status, "no answer", now, CONNECT_TIMEOUT_MILLIS)
    };
    let failure = |step: StartupStep| match step {
        StartupStep::Failed(error) => {
            assert_eq!(error.code, DaemonErrorCode::DaemonUnavailable);
            assert_eq!(error.diagnostics, None);
            error.message
        }
        other => panic!("expected a failure, got {other:?}"),
    };
    assert!(matches!(step(true, Some("pid 7"), 20_000), StartupStep::Ready));
    assert!(matches!(step(false, None, 9_999), StartupStep::Wait));
    assert_eq!(failure(step(false, Some("pid 7"), 9_999)), "daemon exited during startup: pid 7");
    assert_eq!(failure(step(false, Some("pid 7"), 10_000)), "daemon did not become ready: no answer");
    assert_eq!(failure(step(false, None, 10_000)), "daemon did not become ready: no answer");
}
