use aster::collections::{TextMap, TextSet};
use aster::dev::control::{
    admit_request, hex_text, is_state_changing_control_command, refusal_text, Admission, ControlReply, RunKey,
    WireControlRequest,
};
use aster::dev::dashboard::{footer_text, Dashboard, DashboardAction, Key, LineKind, ServiceState};
use aster::dev::plan::ServicePlan;
use aster::dev::process::LogEvent;
use aster::dev::runner::DevRun;
use aster::dev::starts::{
    affected_services, after_prerequisites, plan_lines, prerequisite_report, start_failed, start_messages,
    workspace_header, FileChange,
};
use aster::executor::results::ExecutionResult;
use aster::plugins::Target;
use aster::text::output_text;

fn plan(name: &str, port: Option<u16>, open_url: Option<&str>) -> ServicePlan {
    ServicePlan {
        name: name.to_string(),
        target_address: format!("//{name}:dev"),
        target: Target {
            command: "npm run dev".to_string(),
            depends_on: Vec::new(),
            capabilities: TextSet::new(),
            files_glob: None,
            stream: true,
            cache: None,
            invalidates_cache: false,
            working_dir: None,
            exclusive_resources: Vec::new(),
        },
        project_root: format!("/w/{name}"),
        port,
        open_url: open_url.map(str::to_string),
        env: TextMap::new(),
        watch: Vec::new(),
    }
}

fn plans() -> Vec<ServicePlan> {
    vec![
        plan("api", Some(4100), Some("http://localhost:4100")),
        plan("web", None, None),
    ]
}

fn event(service: &str, line: &str, stderr: bool) -> LogEvent {
    LogEvent {
        service: service.to_string(),
        line: line.to_string(),
        stderr,
    }
}

fn request(command: &str, token: Option<&str>) -> Option<WireControlRequest> {
    Some(WireControlRequest {
        command: command.to_string(),
        service: None,
        token: token.map(str::to_string),
    })
}

fn result(address: &str, success: bool, skipped: bool, cached: bool, output: &str) -> ExecutionResult {
    ExecutionResult {
        address: address.to_string(),
        success,
        skipped,
        cached,
        output: output.to_string(),
        duration_ms: 0,
    }
}

#[test]
fn the_dashboard_shows_the_lines_of_each_service() {
    let mut dashboard = Dashboard::new(&plans());
    dashboard.push_log(&event("api", "\u{1b}[31mred\u{1b}[0m", true));
    dashboard.push_log(&event("api", "plain", false));
    dashboard.push_system("web", "starting");
    dashboard.push_log(&event("other", "lost", false));
    let lines = &dashboard.logs.get("api").unwrap().lines;
    assert_eq!(lines.len(), 2);
    assert_eq!(lines[0].text, "red");
    assert_eq!(lines[0].kind, LineKind::Error);
    assert_eq!(lines[1].kind, LineKind::Output);
    assert_eq!(dashboard.logs.get("web").unwrap().lines[0].kind, LineKind::System);
    assert!(!dashboard.logs.contains_key("other"));
    assert_eq!(dashboard.active_name(), "api");
    assert_eq!(dashboard.active_url().as_deref(), Some("http://localhost:4100"));
    assert_eq!(
        dashboard.service_label(0),
        ("api :4100".to_string(), "  stopped".to_string())
    );
    dashboard.set_state("web", ServiceState::Running);
    assert_eq!(dashboard.service_label(1), ("web".to_string(), "  running".to_string()));
}

#[test]
fn the_dashboard_keeps_the_newest_lines() {
    let mut dashboard = Dashboard::new(&plans());
    for number in 0..5002 {
        dashboard.push_log(&event("api", &format!("{number}"), false));
    }
    let log = dashboard.logs.get("api").unwrap();
    assert_eq!(log.lines.len(), 5000);
    assert_eq!(log.lines[0].text, "2");
    assert_eq!(log.lines[4999].text, "5001");
    let wide = "x".repeat(1_500_000);
    dashboard.push_log(&event("web", &wide, false));
    dashboard.push_log(&event("web", &wide, false));
    assert_eq!(dashboard.logs.get("web").unwrap().lines.len(), 1);
}

#[test]
fn keys_move_the_view() {
    let mut dashboard = Dashboard::new(&plans());
    assert!(matches!(dashboard.handle_key(Key::Tab, false), DashboardAction::Draw));
    assert_eq!(dashboard.active, 1);
    dashboard.handle_key(Key::Right, false);
    assert_eq!(dashboard.active, 1);
    dashboard.handle_key(Key::Char('h'), false);
    assert_eq!(dashboard.active, 0);
    match dashboard.handle_key(Key::Char('r'), false) {
        DashboardAction::Restart(name) => assert_eq!(name, "api"),
        other => panic!("expected a restart, got {other:?}"),
    }
    assert!(matches!(dashboard.handle_key(Key::Char('o'), false), DashboardAction::Open));
    assert!(matches!(dashboard.handle_key(Key::Char('q'), false), DashboardAction::Quit));
    assert!(matches!(dashboard.handle_key(Key::Char('c'), true), DashboardAction::Quit));
    assert!(matches!(
        dashboard.handle_key(Key::Char('c'), false),
        DashboardAction::Ignore
    ));
    dashboard.handle_key(Key::Char('w'), false);
    dashboard.handle_key(Key::Char('f'), false);
    assert!(!dashboard.wrap && dashboard.fullscreen);

    assert_eq!(dashboard.place_scroll(30, 10), 20);
    assert_eq!(dashboard.scroll, u16::MAX);
    dashboard.handle_key(Key::Up, false);
    assert_eq!(dashboard.scroll, 19);
    assert_eq!(dashboard.place_scroll(15, 10), 5);
    assert_eq!(dashboard.scroll, 5);
    dashboard.handle_key(Key::Down, false);
    assert_eq!(dashboard.scroll, 5);
    dashboard.handle_key(Key::Enter, false);
    assert_eq!(dashboard.scroll, u16::MAX);
    assert_eq!(dashboard.place_scroll(3, 10), 0);
}

#[test]
fn the_footer_names_the_token() {
    let help = "h/l service  j/k scroll  Enter bottom  r restart  o open  w wrap  f fullscreen  q quit";
    assert_eq!(footer_text(None), help);
    assert_eq!(footer_text(Some("/t")), format!("control token: /t\n{help}"));
    assert_eq!(ServiceState::Restarting.label(), "restarting");
}

#[test]
fn services_start_one_after_another() {
    let mut run = DevRun::new(&plans(), None, 1_000);
    assert_eq!(run.debounce, 300);
    assert_eq!(run.suppress_until, 1_700);
    let first = run.next_start().unwrap();
    assert_eq!(first.service, "api");
    assert_eq!(first.reason, "initial start");
    assert!(!first.stop_first);
    assert_eq!(run.dashboard.states.get("api"), Some(&ServiceState::Starting));
    assert!(run.next_start().is_none());
    run.note_started("api", true, 2_000);
    assert!(run.running.contains("api"));
    assert_eq!(run.suppress_until, 2_700);
    let second = run.next_start().unwrap();
    assert_eq!(second.service, "web");
    run.note_started("web", false, 3_000);
    assert_eq!(run.dashboard.states.get("web"), Some(&ServiceState::Stopped));
    assert!(run.next_start().is_none());
    assert_eq!(run.stop_order(), vec!["api"]);
}

#[test]
fn restarts_keep_their_turn() {
    let mut run = DevRun::new(&plans(), Some(50), 0);
    for name in ["api", "web"] {
        run.next_start().unwrap();
        run.note_started(name, true, 0);
    }
    assert_eq!(
        run.queue_restart("web", "one").unwrap().line,
        "restart queued: one"
    );
    assert_eq!(run.queue_restarts(&vec!["api".to_string(), "web".to_string()], "two").len(), 1);
    assert_eq!(run.pending.len(), 2);
    let order = run.next_start().unwrap();
    assert_eq!(order.service, "web");
    assert_eq!(order.reason, "two");
    assert!(order.stop_first);
    assert!(!run.running.contains("web"));
    assert_eq!(run.dashboard.states.get("web"), Some(&ServiceState::Restarting));
    let message = run.note_exit("api", -9);
    assert_eq!(message.line, "process exited with code -9");
    assert!(message.stderr);
    assert_eq!(run.stop_order(), Vec::<String>::new());
}

#[test]
fn changes_are_gathered_for_a_while() {
    let mut run = DevRun::new(&plans(), Some(50), 0);
    while let Some(order) = run.next_start() {
        run.note_started(&order.service, true, 0);
    }
    run.note_changes(&vec!["a".to_string()], 1_000);
    run.note_changes(&vec!["b".to_string()], 1_030);
    assert!(run.take_changes(1_049).is_none());
    let (paths, suppress) = run.take_changes(1_050).unwrap();
    assert_eq!(paths, vec!["a", "b"]);
    assert!(!suppress);
    assert!(run.take_changes(9_999).is_none());
    run.note_changes(&vec!["c".to_string()], 100);
    assert!(run.take_changes(600).unwrap().1);
    let messages = run.note_affected(&vec!["web".to_string()], 2_000);
    assert_eq!(messages[0].line, "restart queued: watched dependency changed");
    assert_eq!(run.suppress_until, 2_700);
    assert!(run.goes_on(false, false));
    assert!(!run.goes_on(true, false) && !run.goes_on(false, true));
}

#[test]
fn changing_commands_need_the_token() {
    for command in ["restart", "restart_all", "shutdown"] {
        assert!(is_state_changing_control_command(command));
        assert_eq!(admit_request(&request(command, None), "t"), Admission::Refused);
        assert_eq!(admit_request(&request(command, Some("u")), "t"), Admission::Refused);
    }
    assert_eq!(admit_request(&request("restart", Some("t")), "t"), Admission::Forward);
    assert_eq!(admit_request(&request("shutdown", Some("t")), "t"), Admission::Shutdown);
    assert_eq!(admit_request(&request("status", None), "t"), Admission::Forward);
    assert_eq!(admit_request(&None, "t"), Admission::Invalid);
    assert_eq!(refusal_text(Admission::Invalid), Some("invalid json"));
    assert_eq!(refusal_text(Admission::Refused), Some("valid control token required"));
    assert_eq!(refusal_text(Admission::Forward), None);
    assert_eq!(hex_text(&vec![0, 15, 255]), "000fff");
}

#[test]
fn control_requests_are_answered() {
    let mut run = DevRun::new(&plans(), None, 0);
    while let Some(order) = run.next_start() {
        run.note_started(&order.service, order.service == "api", 0);
    }
    match run.handle_control("status", None, false).0 {
        ControlReply::Status(list) => {
            assert!(list[0].running && !list[1].running);
            assert_eq!(list[1].name, "web");
        }
        other => panic!("expected a status, got {other:?}"),
    }
    match run.handle_control("list_services", None, false).0 {
        ControlReply::Services(names) => assert_eq!(names, vec!["api", "web"]),
        other => panic!("expected services, got {other:?}"),
    }
    assert!(run.pending.is_empty());
    for (command, service, message) in [
        ("restart", None, "restart requires 'service' field"),
        ("restart", Some("gone"), "unknown service: gone"),
        ("dance", None, "unknown command: dance"),
    ] {
        match run.handle_control(command, service, false).0 {
            ControlReply::Failed(error) => assert_eq!(error, message),
            other => panic!("expected a failure, got {other:?}"),
        }
    }
    let (reply, messages) = run.handle_control("restart", Some("web"), false);
    assert!(matches!(reply, ControlReply::Queued));
    assert_eq!(messages[0].line, "restart queued: control socket restart");
    assert!(run.handle_control("restart_all", None, true).1.is_empty());
    assert_eq!(run.handle_control("restart_all", None, false).1.len(), 1);
    assert_eq!(run.pending.len(), 2);
    assert!(matches!(run.handle_control("shutdown", None, false).0, ControlReply::Done));
    assert!(run.quitting && !run.goes_on(false, false));
}

#[test]
fn keys_of_a_run_restart_and_open() {
    let mut run = DevRun::new(&plans(), None, 0);
    while let Some(order) = run.next_start() {
        run.note_started(&order.service, true, 0);
    }
    match run.handle_key(Key::Char('r'), false, 5_000) {
        RunKey::Restarted(Some(message)) => assert_eq!(message.line, "restart queued: manual restart"),
        other => panic!("expected a restart, got {other:?}"),
    }
    assert_eq!(run.suppress_until, 5_700);
    assert!(matches!(
        run.handle_key(Key::Char('r'), false, 6_000),
        RunKey::Restarted(None)
    ));
    match run.handle_key(Key::Char('o'), false, 6_000) {
        RunKey::Open(url) => assert_eq!(url.as_deref(), Some("http://localhost:4100")),
        other => panic!("expected to open, got {other:?}"),
    }
    assert!(matches!(run.handle_key(Key::Char('q'), false, 0), RunKey::Quit));
    assert!(matches!(run.handle_key(Key::Left, false, 0), RunKey::Draw));
    assert!(matches!(run.handle_key(Key::Other, false, 0), RunKey::Ignore));
}

#[test]
fn prerequisites_are_reported_line_by_line() {
    let report = prerequisite_report(&vec![
        result("//a:build", true, false, true, ""),
        result("//b:build", false, false, false, "one\ntwo\n"),
        result("//c:build", false, true, false, ""),
    ]);
    assert_eq!(
        report.lines,
        vec![
            (false, "[cached] //a:build".to_string()),
            (true, "[failed] //b:build".to_string()),
            (true, "[//b:build] one".to_string()),
            (true, "[//b:build] two".to_string()),
            (true, "[failed] //c:build".to_string()),
        ]
    );
    assert_eq!(report.failures, vec!["//b:build"]);
    let (starts, message) = after_prerequisites("web", "//web:dev", &report.failures, false);
    assert!(!starts && message.stderr);
    assert_eq!(message.line, "prerequisite failed: //b:build");
    let (starts, message) = after_prerequisites("web", "//web:dev", &Vec::new(), true);
    assert!(!starts);
    assert_eq!(message.line, "shutdown requested; service start skipped");
    let (starts, message) = after_prerequisites("web", "//web:dev", &Vec::new(), false);
    assert!(starts);
    assert_eq!(message.line, "starting //web:dev");
    assert_eq!(start_failed("web", "no").line, "start failed: no");
    assert_eq!(start_messages("web", "//web:dev", "initial start").len(), 1);
    let messages = start_messages("web", "//web:dev", "manual restart");
    assert_eq!(messages[0].line, "restart requested: manual restart");
    assert_eq!(messages[1].line, "running prerequisites for //web:dev");
}

#[test]
fn ignored_and_generated_changes_concern_nobody() {
    let change = |ignored: bool, generated: bool, service: &str| FileChange {
        ignored,
        generated,
        services: vec![service.to_string()],
    };
    let names = vec!["web".to_string(), "api".to_string(), "worker".to_string()];
    let changes = vec![
        change(true, false, "web"),
        change(false, true, "api"),
        change(false, false, "worker"),
    ];
    assert_eq!(affected_services(&names, &changes, true), vec!["worker"]);
    assert_eq!(affected_services(&names, &changes, false), vec!["api", "worker"]);
}

#[test]
fn plans_are_shown() {
    assert_eq!(
        plan_lines(&plans(), Some(9000)),
        vec![
            "[services] 2 service(s)",
            "[services]   api :4100 -> //api:dev [open http://localhost:4100]",
            "[services]   web -> //web:dev",
            "[services]   control :9000",
        ]
    );
    assert_eq!(workspace_header("/w", Some("main")), "/w  \u{b7}  main");
    assert_eq!(workspace_header("/w", Some("")), "/w  \u{b7}  detached");
    assert_eq!(workspace_header("/w", None), "/w  \u{b7}  detached");
}

#[test]
fn keys_keep_what_was_said() {
    let mut run = DevRun::new(&plans(), None, 0);
    assert_eq!(run.dashboard.ports.get("api"), Some(&Some(4100)));
    assert_eq!(run.dashboard.urls.get("web"), Some(&None));
    run.dashboard.push_log(&event("api", "hello", false));
    for key in [Key::Other, Key::Char('x'), Key::Char('l'), Key::Char('r')] {
        run.handle_key(key, false, 1);
        assert_eq!(run.dashboard.logs.get("api").unwrap().lines.len(), 1);
        assert_eq!(run.dashboard.ports.get("api"), Some(&Some(4100)));
        assert_eq!(
            run.dashboard.urls.get("api").unwrap().as_deref(),
            Some("http://localhost:4100")
        );
    }
}

#[test]
fn output_of_tools_is_trimmed() {
    assert_eq!(output_text(b" main\n"), "main");
    assert_eq!(output_text(b"a\xff\n"), "a\u{fffd}");
}
