use aster::collections::{TextMap, TextSet};
use aster::config::workspace::{DevServiceConfig, DevWorkspaceConfig};
use aster::dev::port_allocator::{lease_directory, lease_text, port_lock, PortAllocator};
use aster::dev::port_cleanup::{
    add_listening_sockets, cleared_line, force_line, format_ports, group_owners, no_listeners_line, owner_line,
    owns_socket, parse_pid_lines, process_command, resolve_port_selection, still_occupied_text, CleanupStep,
    PortCleanup, PortOwner,
};
use aster::dev::port_report::{
    format_workspace_ports, workspace_ports_report, PortAllocationStatus, ServicePortStatus, WorkspacePortAllocation,
};

fn ports<const N: usize>(entries: [(&str, u16); N]) -> TextMap<u16> {
    let mut map = TextMap::new();
    for (name, port) in entries {
        map.insert(name.to_string(), port);
    }
    map
}

fn service(port: Option<&str>) -> DevServiceConfig {
    DevServiceConfig {
        target: Some("//api:dev".to_string()),
        tls_proxy: None,
        port: port.map(str::to_string),
        open_path: None,
        env_files: Vec::new(),
        env: TextMap::new(),
        port_env: TextMap::new(),
        inherit_env: Vec::new(),
        order: 0,
    }
}

#[test]
fn leased_ports_are_not_leased_again() {
    let mut allocator = PortAllocator::new();
    let first = ports([("web", 3100), ("api", 4100), ("alias", 3100)]);
    let values = allocator.plan_bundle(&first).unwrap().unwrap();
    assert_eq!(values, vec![3100, 4100]);
    allocator.commit(&values);
    assert_eq!(allocator.plan_bundle(&ports([("other", 4100)])).unwrap(), None);
    assert_eq!(
        allocator.plan_bundle(&ports([("other", 4101)])).unwrap(),
        Some(vec![4101])
    );
    assert_eq!(
        allocator.plan_bundle(&ports([("bad", 0)])).unwrap_err(),
        "port 'bad' must be between 1 and 65535"
    );
}

#[test]
fn the_first_port_that_is_wrong_or_taken_decides() {
    let mut allocator = PortAllocator::new();
    allocator.commit(&vec![4100]);
    assert_eq!(
        allocator.plan_bundle(&ports([("a", 4100), ("b", 0)])).unwrap(),
        None
    );
    assert!(allocator.plan_bundle(&ports([("a", 0), ("b", 4100)])).is_err());
}

#[test]
fn locks_are_named_by_port() {
    assert_eq!(port_lock("/leases", 4100), "/leases/4100.lock");
    assert_eq!(lease_text(7, "/w"), "pid=7 workspace=/w\n");
    assert_eq!(lease_directory(Some("/own"), "/tmp", "7"), "/own");
    assert_eq!(lease_directory(None, "/tmp", "7"), "/tmp/aster-port-leases-v1-7");
}

#[test]
fn owners_are_grouped_by_process() {
    let owners = group_owners(&vec![(4100, 9), (3100, 4), (3100, 9), (4100, 9)]);
    assert_eq!(owners.len(), 2);
    assert_eq!(owners[0].pid, 4);
    assert_eq!(owners[0].ports, vec![3100]);
    assert_eq!(owners[1].pid, 9);
    assert_eq!(owners[1].ports, vec![3100, 4100]);
}

#[test]
fn selection_errors_say_what_is_wrong() {
    let none = TextMap::new();
    assert_eq!(
        resolve_port_selection(&none, &["web".to_string()]).unwrap_err(),
        "unknown configured port name or invalid port number 'web'"
    );
    assert_eq!(
        resolve_port_selection(&none, &["0".to_string()]).unwrap_err(),
        "port number must be between 1 and 65535"
    );
    assert_eq!(
        resolve_port_selection(&none, &[]).unwrap_err(),
        "no ports selected; configure [dev.ports] or provide port numbers"
    );
    assert!(resolve_port_selection(&none, &["65536".to_string()]).is_err());
}

#[test]
fn listening_sockets_come_from_the_socket_table() {
    let table = "  sl  local_address rem_address   st tx_queue rx_queue tr tm->when retrnsmt   uid  timeout inode\n\
   0: 0100007F:1004 00000000:0000 0A 00000000:00000000 00:00000000 00000000  1000        0 111 1\n\
   1: 0100007F:1004 00000000:0000 01 00000000:00000000 00:00000000 00000000  1000        0 222 1\n\
   2: 0100007F:1005 00000000:0000 0A 00000000:00000000 00:00000000 00000000  1000        0 333 1\n\
   3: short\n";
    let mut sockets = TextSet::new();
    add_listening_sockets(table, 0x1004, &mut sockets);
    assert_eq!(sockets.to_vec(), vec!["111"]);
    assert!(owns_socket(&vec!["/dev/null".to_string(), "socket:[111]".to_string()], &sockets));
    assert!(!owns_socket(&vec!["socket:[222]".to_string()], &sockets));
    assert!(!owns_socket(&vec!["pipe:[111]".to_string()], &sockets));
    assert!(!owns_socket(&vec!["socket:[111".to_string()], &sockets));
}

#[test]
fn process_lists_are_parsed() {
    assert_eq!(parse_pid_lines(true, b"12\n\n 7 \n12\n", "lsof"), Ok(vec![12, 7, 12]));
    assert_eq!(parse_pid_lines(false, b"", "lsof"), Ok(Vec::new()));
    assert_eq!(
        parse_pid_lines(true, b"12\nx\"y\n", "lsof").unwrap_err(),
        "lsof returned invalid process ID \"x\\\"y\""
    );
    assert_eq!(
        parse_pid_lines(true, b"\xff\n", "lsof").unwrap_err(),
        "lsof returned invalid process ID \"\u{fffd}\""
    );
    assert_eq!(process_command(Some("  node server.js\n")), "node server.js");
    assert_eq!(process_command(Some(" \n")), "unknown command");
    assert_eq!(process_command(None), "unknown command");
}

#[test]
fn port_messages_name_the_ports() {
    assert_eq!(format_ports(&[3100, 4100]), ":3100, :4100");
    assert_eq!(no_listeners_line(&[3100]), "No listeners found on :3100.");
    assert_eq!(cleared_line(&[3100, 4100]), "Cleared :3100, :4100.");
    assert_eq!(force_line(2), "Force-killing 2 remaining listener(s)...");
    let owner = PortOwner {
        pid: 9,
        ports: vec![3100],
    };
    assert_eq!(
        owner_line(&owner, "node", true),
        "Would terminate: process 9 (node) listening on :3100"
    );
    assert_eq!(
        owner_line(&owner, "node", false),
        "Terminating: process 9 (node) listening on :3100"
    );
    assert_eq!(
        still_occupied_text(&[3100], &vec![owner]),
        "ports still occupied after cleanup: :3100 (listener PIDs: 9)"
    );
}

#[test]
fn cleanup_waits_forces_and_confirms() {
    let mut cleanup = PortCleanup::new(100);
    assert_eq!(cleanup.next_step(true, 2_099), CleanupStep::Wait);
    assert_eq!(cleanup.next_step(true, 2_100), CleanupStep::Force);
    assert_eq!(cleanup.next_step(false, 500), CleanupStep::Confirm);
    cleanup.confirm(2_100);
    assert_eq!(cleanup.next_step(true, 3_099), CleanupStep::Wait);
    assert_eq!(cleanup.next_step(true, 3_100), CleanupStep::Failed);
    assert_eq!(cleanup.next_step(false, 3_100), CleanupStep::Done);
}

#[test]
fn reports_list_ports_then_services_without_one() {
    let mut services = TextMap::new();
    services.insert("api".to_string(), Some("api".to_string()));
    services.insert("worker".to_string(), None);
    let allocation = WorkspacePortAllocation {
        supervisor_pid: 42,
        status: PortAllocationStatus::Active,
        services,
        ports: ports([("api", 4100), ("spare", 4200)]),
    };
    let report = workspace_ports_report(
        "/w".to_string(),
        vec![allocation],
        &DevWorkspaceConfig::default(),
    );
    assert_eq!(report.instances[0].status, ServicePortStatus::Active);
    assert_eq!(report.instances[0].services[0].port, Some(4100));
    assert_eq!(
        format_workspace_ports(&report),
        "SERVICE  PORT NAME  PORT  STATUS  SUPERVISOR\n\
         api      api        4100  active  42\n\
         -        spare      4200  active  42\n\
         worker   -          -     active  42\n"
    );
}

#[test]
fn reports_without_services_take_them_from_the_configuration() {
    let mut config = DevWorkspaceConfig::default();
    config.services.insert("api".to_string(), service(Some("api")));
    config.services.insert("web".to_string(), service(Some("web")));
    let allocation = WorkspacePortAllocation {
        supervisor_pid: 1,
        status: PortAllocationStatus::Orphaned,
        services: TextMap::new(),
        ports: ports([("api", 4100)]),
    };
    let report = workspace_ports_report("/w".to_string(), vec![allocation], &config);
    let services = &report.instances[0].services;
    assert_eq!(services.len(), 2);
    assert_eq!(services[0].name, "api");
    assert_eq!(services[0].port, Some(4100));
    assert_eq!(services[1].port_name.as_deref(), Some("web"));
    assert_eq!(services[1].port, None);
    assert_eq!(report.instances[0].status, ServicePortStatus::Orphaned);
}

#[test]
fn an_empty_report_says_so() {
    let report = workspace_ports_report("/w".to_string(), Vec::new(), &DevWorkspaceConfig::default());
    assert_eq!(
        format_workspace_ports(&report),
        "No running service port allocations found for this worktree.\n"
    );
}
