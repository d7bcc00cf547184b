use aster::collections::{TextMap, TextSet};
use aster::config::workspace::{DevServiceConfig, DevWorkspaceConfig};
use aster::dev::ansi::strip_ansi_sequences;
use aster::dev::environment::{env_file_paths, load_env_files, validate_environment, validate_environment_key};
use aster::dev::log_files::{
    encode_path_component, find_service_log, missing_log_text, pager_command, service_log_directory, service_log_path,
    worktree_name, CappedLogFile, ServiceLogFiles, OVERSIZED_LINE_NOTICE, SERVICE_LOG_MAX_BYTES, TRUNCATION_NOTICE,
};
use aster::dev::process::{
    exit_code, forward_log_line, prepare_launch, report_drop, Forward, LineReader, LogEvent, SendOutcome,
};
use aster::plugins::Target;

fn target(command: &str) -> Target {
    Target {
        command: command.to_string(),
        depends_on: Vec::new(),
        capabilities: TextSet::new(),
        files_glob: None,
        stream: true,
        cache: None,
        invalidates_cache: false,
        working_dir: None,
        exclusive_resources: Vec::new(),
    }
}

fn map(entries: &[(&str, &str)]) -> TextMap<String> {
    let mut map = TextMap::new();
    for (key, value) in entries {
        map.insert(key.to_string(), value.to_string());
    }
    map
}

fn texts(lines: Vec<Vec<u8>>) -> Vec<String> {
    lines
        .into_iter()
        .map(|line| String::from_utf8(line).unwrap())
        .collect()
}

#[test]
fn escapes_are_removed() {
    assert_eq!(strip_ansi_sequences("\u{1b}[1;31mred\u{1b}[0m plain"), "red plain");
    assert_eq!(strip_ansi_sequences("\u{1b}]0;title\u{7}text"), "text");
    assert_eq!(strip_ansi_sequences("no escape"), "no escape");
}

#[test]
fn later_env_files_win() {
    let values = load_env_files(&vec![
        "# comment\nexport A=1\nB = 'two words' \nbroken\n=x\n".to_string(),
        "A=\"3\"\nC=a=b\n".to_string(),
    ]);
    assert_eq!(values.get("A").unwrap(), "3");
    assert_eq!(values.get("B").unwrap(), "two words");
    assert_eq!(values.get("C").unwrap(), "a=b");
    assert_eq!(values.len(), 3);
    assert_eq!(
        env_file_paths("/w", &vec![".env".to_string(), "/etc/env".to_string()]),
        vec!["/w/.env", "/etc/env"]
    );
}

#[test]
fn environments_are_checked() {
    assert!(validate_environment("api", &map(&[("A", "1")])).is_ok());
    assert_eq!(
        validate_environment_key("api", "A=B").unwrap_err(),
        "service 'api' has invalid environment key \"A=B\""
    );
    assert_eq!(
        validate_environment_key("api", "A\0").unwrap_err(),
        "service 'api' has invalid environment key \"A\\0\""
    );
    assert_eq!(
        validate_environment("api", &map(&[("A", "x\0")])).unwrap_err(),
        "service 'api' environment value for 'A' contains NUL"
    );
    assert!(validate_environment("api", &map(&[("", "x")])).is_err());
}

#[test]
fn services_see_little_of_the_environment() {
    let launch = prepare_launch(
        &target("PORT=9 npm run 'the thing'"),
        "/w/api",
        &map(&[("PORT", "4100"), ("MODE", "dev")]),
        &map(&[("PATH", "/bin"), ("LC_ALL", "C"), ("SECRET", "x"), ("MODE", "prod")]),
    )
    .unwrap();
    assert_eq!(launch.program, "npm");
    assert_eq!(launch.args, vec!["run", "the thing"]);
    assert_eq!(launch.working_dir, "/w/api");
    assert_eq!(launch.env.get("PATH").unwrap(), "/bin");
    assert_eq!(launch.env.get("LC_ALL").unwrap(), "C");
    assert_eq!(launch.env.get("PORT").unwrap(), "9");
    assert_eq!(launch.env.get("MODE").unwrap(), "dev");
    assert!(!launch.env.contains_key("SECRET"));
    let none = TextMap::new();
    assert_eq!(
        prepare_launch(&target("a 'b"), "/w", &none, &none).unwrap_err().to_string(),
        "invalid command quoting: a 'b"
    );
    assert!(prepare_launch(&target(""), "/w", &none, &none).is_err());
    let mut moved = target("make");
    moved.working_dir = Some("/elsewhere".to_string());
    assert_eq!(
        prepare_launch(&moved, "/w", &none, &none).unwrap().working_dir,
        "/elsewhere"
    );
}

#[test]
fn lines_do_not_depend_on_how_output_arrives() {
    let output = b"one\r\ntwo\n\nthree";
    for size in 1..output.len() {
        let mut reader = LineReader::new();
        let mut lines = Vec::new();
        for chunk in output.chunks(size) {
            lines.extend(reader.feed(&chunk.to_vec()));
        }
        assert_eq!(texts(lines), vec!["one", "two", ""]);
        assert_eq!(reader.finish(), Some(b"three".to_vec()));
    }
    assert_eq!(LineReader::new().finish(), None);
}

#[test]
fn long_lines_come_in_pieces() {
    let mut reader = LineReader::new();
    let lines = texts(reader.feed(&vec![b'x'; 65540]));
    assert_eq!(lines.len(), 1);
    assert_eq!(lines[0], format!("{} [aster: long line continued]", "x".repeat(65536)));
    assert_eq!(reader.finish(), Some(b"xxxx".to_vec()));
}

#[test]
fn lines_are_printed_or_sent() {
    match forward_log_line("api", false, b"ok", false) {
        Forward::Print(text) => assert_eq!(text, "[api] | ok"),
        other => panic!("expected a print, got {other:?}"),
    }
    match forward_log_line("api", true, b"a\xffb", false) {
        Forward::Print(text) => assert_eq!(text, "[api] ! a\u{fffd}b"),
        other => panic!("expected a print, got {other:?}"),
    }
    match forward_log_line("api", true, b"bad", true) {
        Forward::Send(event) => {
            assert!(event.stderr);
            assert_eq!(event.line, "bad");
        }
        other => panic!("expected a message, got {other:?}"),
    }
}

#[test]
fn lost_output_is_reported_once() {
    let mut reported = false;
    let notice = report_drop("api", SendOutcome::Full, &mut reported).unwrap();
    assert_eq!(notice.line, "[aster] service output omitted while the UI was busy");
    assert!(report_drop("api", SendOutcome::Full, &mut reported).is_none());
    assert!(report_drop("api", SendOutcome::Closed, &mut reported).is_none());
    assert!(reported);
    assert!(report_drop("api", SendOutcome::Sent, &mut reported).is_none());
    assert!(!reported);
    assert_eq!(exit_code(Some(3)), 3);
    assert_eq!(exit_code(None), -1);
}

#[test]
fn log_paths_are_safe() {
    assert_eq!(encode_path_component("api-1.x_y"), "api-1.x_y");
    assert_eq!(encode_path_component("a/b é"), "a%2Fb%20%C3%A9");
    assert_eq!(encode_path_component(""), "default");
    assert_eq!(encode_path_component("."), "%2E");
    assert_eq!(encode_path_component(".."), "%2E%2E");
    assert_eq!(encode_path_component("../platform/backend"), "..%2Fplatform%2Fbackend");
    assert_eq!(encode_path_component("default"), "default");
    let values = ["%2E", "%", "2E", ".", "a/b", "a%2Fb", "a", "default"];
    for (at, one) in values.iter().enumerate() {
        for two in &values[at + 1..] {
            assert_ne!(encode_path_component(one), encode_path_component(two));
        }
    }
    assert_eq!(worktree_name("/home/me/work tree"), "work tree");
    assert_eq!(worktree_name("/"), "default");
    assert_eq!(
        service_log_directory("/w/main", "../api"),
        "/w/main/.aster/logs/main/..%2Fapi"
    );
    assert_eq!(service_log_path("/w/main", "api"), "/w/main/.aster/logs/main/api/logs.txt");
}

#[test]
fn log_files_stay_within_their_limit() {
    let (mut file, first) = CappedLogFile::open(0, 100);
    assert!(first.is_none());
    let write = file.write_line("twelve chars");
    assert!(!write.replace);
    assert_eq!(write.text, "twelve chars\n");
    assert_eq!(file.len, 13);
    for _ in 0..50 {
        file.write_line("twelve chars");
        assert!(file.len <= 100);
    }
    let (mut full, _) = CappedLogFile::open(95, 100);
    let write = full.write_line("twelve chars");
    assert!(write.replace);
    assert_eq!(write.text, format!("{TRUNCATION_NOTICE}twelve chars\n"));
    let (mut small, _) = CappedLogFile::open(10, 20);
    let write = small.write_line("twelve chars");
    assert_eq!(write.text, "twelve chars\n");
    assert!(write.replace);
    let write = small.write_line(&"x".repeat(20));
    assert_eq!(write.text, "");
    assert_eq!(small.len, 0);
    let (mut large, _) = CappedLogFile::open(0, SERVICE_LOG_MAX_BYTES);
    let write = large.write_line(&"x".repeat(SERVICE_LOG_MAX_BYTES as usize));
    assert_eq!(write.text, OVERSIZED_LINE_NOTICE);
    let (cut, write) = CappedLogFile::open(101, 100);
    assert_eq!(write.unwrap().text, TRUNCATION_NOTICE);
    assert_eq!(cut.len, TRUNCATION_NOTICE.len() as u64);
}

#[test]
fn each_service_has_its_log() {
    let mut files = ServiceLogFiles::new();
    assert!(files.add("api", 0, 100).is_none());
    let event = |service: &str| LogEvent {
        service: service.to_string(),
        line: "x".to_string(),
        stderr: false,
    };
    assert_eq!(files.write(&event("api")).unwrap().text, "x\n");
    assert!(files.write(&event("web")).is_none());
    assert_eq!(files.files.get("api").unwrap().len, 2);
}

#[test]
fn logs_are_found_by_service() {
    let mut config = DevWorkspaceConfig::default();
    assert_eq!(
        find_service_log("/w", &config, "api").unwrap_err(),
        "unknown service 'api'; no services are configured"
    );
    config.services.insert(
        "web".to_string(),
        DevServiceConfig {
            target: Some("//web:dev".to_string()),
            tls_proxy: None,
            port: None,
            open_path: None,
            env_files: Vec::new(),
            env: TextMap::new(),
            port_env: TextMap::new(),
            inherit_env: Vec::new(),
            order: 0,
        },
    );
    assert_eq!(
        find_service_log("/w", &config, "api").unwrap_err(),
        "unknown service 'api'; configured services: web"
    );
    assert_eq!(
        find_service_log("/w", &config, "web").unwrap(),
        "/w/.aster/logs/w/web/logs.txt"
    );
    assert_eq!(
        missing_log_text("web", "/l"),
        "no logs found for service 'web' at /l; run `aster services up` first"
    );
    assert_eq!(
        pager_command("less -R '+G x'").unwrap().unwrap(),
        vec!["less", "-R", "+G x"]
    );
    assert_eq!(pager_command("  ").unwrap(), None);
    assert_eq!(pager_command("less '").unwrap_err(), "failed to parse PAGER");
}
