use aster::collections::{TextMap, TextSet};
use aster::config::workspace::{
    DetailedDevServiceGroupConfig, DevPortConfig, DevServiceConfig, DevServiceGroupConfig, DevTlsProxyConfig,
    DevTlsRouteConfig, DevWorkspaceConfig, DynamicDevPortConfig, DynamicPortAllocation, ResolvedDevPortConfig,
};
use aster::dev::allocation::{
    collect_active_ports, default_dynamic_values, dynamic_root, resolve_dev_ports, resolve_static_dev_ports,
};
use aster::dev::plan::{resolve_dev_plan, select_control_port, start_dev_plan, PlanContext, ServicePlan};
use aster::dev::ports::{resolve_ports, validate_port_offsets, PortSources};
use aster::dev::search::{format_named_ports, start_search, PortSearch, SearchStep};
use aster::dev::services::{authority_text, proxies_resolved, resolve_tls_open_urls, select_service_names};
use aster::dev::starts::collect_non_stream_dependencies;
use aster::dev::template::expand_template;
use aster::discovery::scanner::DiscoveredProject;
use aster::graph::targets::build_target_graph;
use aster::plugins::{ProjectMetadata, Target};

fn fixed(port: u16) -> DevPortConfig {
    DevPortConfig::Fixed(port)
}

fn dynamic(start: u16, end: u16, preferred: Option<u16>) -> DevPortConfig {
    DevPortConfig::Dynamic(DynamicDevPortConfig {
        allocation: DynamicPortAllocation::Dynamic,
        range: [start, end],
        preferred,
    })
}

fn resolved(env: &[&str], default: u16, offset: Option<(&str, u16)>) -> ResolvedDevPortConfig {
    ResolvedDevPortConfig {
        env: env.iter().map(|name| name.to_string()).collect(),
        file_env: None,
        default,
        offset_from: offset.map(|(from, _)| from.to_string()),
        offset_base: offset.map(|(_, base)| base),
        saturating_offset: false,
    }
}

fn map<V>(entries: Vec<(&str, V)>) -> TextMap<V> {
    let mut map = TextMap::new();
    for (key, value) in entries {
        map.insert(key.to_string(), value);
    }
    map
}

fn texts(entries: &[(&str, &str)]) -> TextMap<String> {
    map(entries.iter().map(|(key, value)| (*key, value.to_string())).collect())
}

fn sources(environment: &[(&str, &str)], file_env: &[(&str, &str)]) -> PortSources {
    PortSources {
        environment: texts(environment),
        file_env: texts(file_env),
    }
}

fn service(target: Option<&str>, port: Option<&str>) -> DevServiceConfig {
    DevServiceConfig {
        target: target.map(str::to_string),
        tls_proxy: None,
        port: port.map(str::to_string),
        open_path: None,
        env_files: Vec::new(),
        env: TextMap::new(),
        port_env: TextMap::new(),
        inherit_env: Vec::new(),
        order: 0,
    }
}

fn proxy(routes: Vec<DevTlsRouteConfig>) -> DevTlsProxyConfig {
    DevTlsProxyConfig {
        certificate_hosts: vec!["app.test".to_string()],
        open_host: "app.test".to_string(),
        dns_domain: None,
        routes,
    }
}

fn route(host: &str, port: &str) -> DevTlsRouteConfig {
    DevTlsRouteConfig {
        host: Some(host.to_string()),
        host_suffix: None,
        open_host: None,
        upstream_port: port.to_string(),
    }
}

fn target(command: &str, stream: bool, depends_on: &[&str]) -> Target {
    Target {
        command: command.to_string(),
        depends_on: depends_on.iter().map(|name| name.to_string()).collect(),
        capabilities: TextSet::new(),
        files_glob: None,
        stream,
        cache: None,
        invalidates_cache: false,
        working_dir: None,
        exclusive_resources: Vec::new(),
    }
}

fn project(path: &str, targets: Vec<(&str, Target)>) -> DiscoveredProject {
    DiscoveredProject {
        root: format!("/w/{path}"),
        config_path: format!("/w/{path}/package.json"),
        metadata: ProjectMetadata {
            name: path.to_string(),
            version: None,
        },
        dependencies: Vec::new(),
        targets: map(targets),
        plugin_name: "nodejs".to_string(),
        relative_path: path.to_string(),
    }
}

fn projects() -> Vec<DiscoveredProject> {
    vec![
        project("lib", vec![("build", target("make", false, &[]))]),
        project(
            "api",
            vec![
                ("build", target("make", false, &["//lib:build"])),
                ("dev", target("npm run dev -- --port {port}", true, &["//api:build", "//web:dev"])),
            ],
        ),
        project("web", vec![("dev", target("vite", true, &[]))]),
    ]
}

/// Search for ports while some are held.
fn search(config: &TextMap<DevPortConfig>, mut search: PortSearch, held: &[u16]) -> Result<TextMap<u16>, String> {
    let none = sources(&[], &[]);
    loop {
        match search.next_step(config, &none)? {
            SearchStep::Done(ports) => return Ok(ports),
            SearchStep::Try(bundle) => {
                let free = (0..bundle.len()).all(|at| !held.contains(bundle.value_at(at)));
                search.note_attempt(config, &bundle, free)?;
            }
        }
    }
}

fn resolve(config: &DevWorkspaceConfig, ports: &TextMap<u16>, executable: Option<&str>) -> Result<Vec<ServicePlan>, String> {
    let projects = projects();
    let graph = build_target_graph(&projects);
    let selected = select_service_names(config, None)?;
    assert!(config.validate().is_ok() && proxies_resolved(config, &selected, ports));
    let context = PlanContext {
        workspace_root: "/w",
        config,
        projects: &projects,
        graph: &graph,
        ports,
        env_files: &map(vec![("api", vec!["FROM_FILE=1\nSHADOWED=file\n".to_string()])]),
        environment: &texts(&[("TOKEN", "t"), ("OTHER", "o")]),
        executable,
    };
    resolve_dev_plan(&context, None, &selected, &None).map(|(services, _)| services)
}

#[test]
fn ports_come_from_the_environment_then_files_then_defaults() {
    let configs = map(vec![
        ("api", DevPortConfig::Resolved(resolved(&["API_PORT", "PORT"], 4000, None))),
        ("web", fixed(3000)),
        ("next", DevPortConfig::Resolved(resolved(&[], 5000, Some(("api", 4000))))),
    ]);
    let none = TextMap::new();
    let value = |sources: &PortSources, name: &str| resolve_ports(&configs, sources, &none).map(|p| *p.get(name).unwrap());
    assert_eq!(value(&sources(&[], &[]), "api"), Ok(4000));
    assert_eq!(value(&sources(&[("PORT", "4100")], &[("API_PORT", "1")]), "api"), Ok(4100));
    assert_eq!(value(&sources(&[], &[("PORT", "4200")]), "api"), Ok(4200));
    assert_eq!(value(&sources(&[("PORT", "4100")], &[]), "next"), Ok(5100));
    assert_eq!(
        value(&sources(&[("PORT", "many")], &[]), "api"),
        Err("port 'api' environment variable PORT is not a valid port".to_string())
    );
    assert_eq!(
        value(&sources(&[("PORT", "0")], &[]), "api"),
        Err("port 'api' must be between 1 and 65535".to_string())
    );
    assert_eq!(
        value(&sources(&[("PORT", "3999")], &[]), "api"),
        Err("port 'next' offset source 'api' (3999) is below offset_base (4000)".to_string())
    );
    assert_eq!(
        value(&sources(&[("PORT", "65000")], &[]), "api"),
        Err("port 'next' overflows: default 5000 + offset 61000 exceeds 65535".to_string())
    );
}

#[test]
fn port_configurations_are_checked() {
    let fault = |entries: Vec<(&str, DevPortConfig)>| validate_port_offsets(&map(entries)).unwrap_err();
    assert_eq!(
        fault(vec![("a", dynamic(0, 5, None))]),
        "dynamic port 'a' range must contain valid ports in ascending order"
    );
    assert_eq!(
        fault(vec![("a", dynamic(10, 20, Some(9)))]),
        "dynamic port 'a' preferred value 9 is outside range 10-20"
    );
    let mut half = resolved(&[], 1, Some(("b", 1)));
    half.offset_base = None;
    assert_eq!(
        fault(vec![("a", DevPortConfig::Resolved(half)), ("b", fixed(1))]),
        "port 'a' sets offset_from but is missing offset_base"
    );
    let mut half = resolved(&[], 1, Some(("b", 1)));
    half.offset_from = None;
    assert_eq!(
        fault(vec![("a", DevPortConfig::Resolved(half))]),
        "port 'a' sets offset_base but is missing offset_from"
    );
    assert_eq!(
        fault(vec![("a", DevPortConfig::Resolved(resolved(&[], 1, Some(("b", 1)))))]),
        "port 'a' offset_from references unknown port 'b'"
    );
    assert_eq!(
        fault(vec![
            ("a", DevPortConfig::Resolved(resolved(&[], 1, Some(("b", 1))))),
            ("b", DevPortConfig::Resolved(resolved(&[], 1, Some(("a", 1))))),
        ]),
        "service port offset_from cycle includes 'a'"
    );
}

#[test]
fn ports_move_with_their_dynamic_port() {
    let configs = map(vec![
        ("base", dynamic(4000, 4099, Some(4010))),
        ("next", DevPortConfig::Resolved(resolved(&[], 5000, Some(("base", 4000))))),
        ("still", fixed(3000)),
    ]);
    assert_eq!(dynamic_root("next", &configs), Ok(Some("base".to_string())));
    assert_eq!(dynamic_root("still", &configs), Ok(None));
    assert_eq!(dynamic_root("gone", &configs), Err("unknown service port 'gone'".to_string()));
    assert_eq!(default_dynamic_values(&configs).get("base"), Some(&4010));
    let config = DevWorkspaceConfig {
        ports: configs,
        ..DevWorkspaceConfig::default()
    };
    let all = resolve_dev_ports(&config, &sources(&[], &[])).unwrap();
    assert_eq!(all.get("next"), Some(&5010));
    let fixed_only = resolve_static_dev_ports(&config, &sources(&[], &[])).unwrap();
    assert_eq!(fixed_only.len(), 1);
    assert_eq!(fixed_only.get("still"), Some(&3000));
}

#[test]
fn the_search_tries_the_preferred_port_and_then_the_range() {
    let configs = map(vec![
        ("base", dynamic(4000, 4002, Some(4001))),
        ("next", DevPortConfig::Resolved(resolved(&[], 5000, Some(("base", 4000))))),
        ("still", fixed(3000)),
    ]);
    let mut active = TextSet::new();
    for name in ["base", "next", "still"] {
        active.insert(name.to_string());
    }
    let begin = || start_search(&configs, &active).unwrap();
    assert_eq!(search(&configs, begin(), &[]).unwrap().get("base"), Some(&4001));
    let moved = search(&configs, begin(), &[4001, 5000]).unwrap();
    assert_eq!(moved.get("base"), Some(&4002));
    assert_eq!(moved.get("next"), Some(&5002));
    assert_eq!(
        search(&configs, begin(), &[4000, 4001, 4002]).unwrap_err(),
        "no collision-free port bundle is available for dynamic port 'base' in range 4000-4002"
    );
    assert_eq!(
        search(&configs, begin(), &[3000]).unwrap_err(),
        "configured static service ports are already allocated or listening: still=3000"
    );
    active.insert("gone".to_string());
    assert_eq!(
        start_search(&configs, &active).unwrap_err(),
        "selected services reference unknown port 'gone'"
    );
    assert_eq!(format_named_ports(&map(vec![("b", 2), ("a", 1)])), "a=1, b=2");
}

#[test]
fn ports_of_selected_services_are_active_with_what_they_follow() {
    let mut api = service(Some("//api:dev"), Some("next"));
    api.port_env = texts(&[("WEB_PORT", "web")]);
    let config = DevWorkspaceConfig {
        ports: map(vec![
            ("base", fixed(4000)),
            ("next", DevPortConfig::Resolved(resolved(&[], 5000, Some(("base", 4000))))),
            ("web", fixed(3000)),
            ("unused", fixed(1)),
            ("control", fixed(9000)),
        ]),
        services: map(vec![("api", api), ("other", service(Some("//web:dev"), Some("unused")))]),
        ..DevWorkspaceConfig::default()
    };
    let mut selected = TextSet::new();
    selected.insert("api".to_string());
    let active = collect_active_ports(&config, &selected, Some(&"control".to_string()));
    assert_eq!(active.to_vec(), vec!["base", "control", "next", "web"]);
}

#[test]
fn services_are_selected_by_group() {
    let mut config = DevWorkspaceConfig {
        services: map(vec![
            ("api", service(Some("//api:dev"), None)),
            ("web", service(Some("//web:dev"), None)),
            ("job", service(Some("//api:dev"), None)),
        ]),
        ..DevWorkspaceConfig::default()
    };
    assert_eq!(
        select_service_names(&config, Some("front")).unwrap_err(),
        "unknown service group 'front'; no service groups are configured"
    );
    config.service_groups = map(vec![
        ("front", DevServiceGroupConfig::Services(vec!["web".to_string()])),
        (
            "main",
            DevServiceGroupConfig::Detailed(DetailedDevServiceGroupConfig {
                services: vec!["job".to_string()],
                control_port: Some("own".to_string()),
            }),
        ),
    ]);
    config.control_port = Some("common".to_string());
    assert_eq!(select_service_names(&config, None).unwrap().to_vec(), vec!["api", "job"]);
    assert_eq!(select_service_names(&config, Some("front")).unwrap().to_vec(), vec!["web"]);
    assert_eq!(
        select_service_names(&config, Some("back")).unwrap_err(),
        "unknown service group 'back'; configured groups: front, main"
    );
    assert_eq!(select_control_port(&config, None), Some(&"own".to_string()));
    assert_eq!(select_control_port(&config, Some("front")), Some(&"common".to_string()));
    config.services.insert("bad".to_string(), service(None, None));
    assert_eq!(
        select_service_names(&config, None).unwrap_err(),
        "service 'bad' must set target or tls_proxy"
    );
}

#[test]
fn a_run_needs_services() {
    assert_eq!(
        start_dev_plan(&DevWorkspaceConfig::default(), None).err().unwrap(),
        "no services configured; add [dev.services.<name>] to aster.toml"
    );
    let config = DevWorkspaceConfig {
        ports: map(vec![("api", fixed(4000))]),
        services: map(vec![("api", service(Some("//api:dev"), Some("api")))]),
        ..DevWorkspaceConfig::default()
    };
    let start = start_dev_plan(&config, None).ok().unwrap();
    assert_eq!(start.selected.to_vec(), vec!["api"]);
    assert_eq!(start.control_port, None);
    assert_eq!(search(&config.ports, start.search, &[]).unwrap().get("api"), Some(&4000));
}

#[test]
fn services_are_planned_in_order_with_their_environment() {
    let mut api = service(Some("//api:dev"), Some("api"));
    api.order = 1;
    api.open_path = Some("docs".to_string());
    api.inherit_env = vec!["TOKEN".to_string(), "MISSING".to_string()];
    api.env = texts(&[("SHADOWED", "http://localhost:{ports.web}"), ("SELF", "{port}")]);
    api.port_env = texts(&[("WEB_PORT", "web")]);
    let config = DevWorkspaceConfig {
        services: map(vec![("api", api), ("web", service(Some("//web:dev"), Some("web")))]),
        ..DevWorkspaceConfig::default()
    };
    let ports = map(vec![("api", 4100), ("web", 3100)]);
    let plans = resolve(&config, &ports, None).unwrap();
    assert_eq!(plans[0].name, "web");
    assert_eq!(plans[0].open_url.as_deref(), Some("http://localhost:3100"));
    let api = &plans[1];
    assert_eq!(api.target_address, "//api:dev");
    assert_eq!(api.target.command, "npm run dev -- --port 4100");
    assert_eq!(api.project_root, "/w/api");
    assert_eq!(api.open_url.as_deref(), Some("http://localhost:4100/docs"));
    assert_eq!(api.watch, vec!["//api:dev"]);
    let expected = texts(&[
        ("ASTER_SERVICE_NAME", "api"),
        ("ASTER_SERVICE_PORT", "4100"),
        ("FROM_FILE", "1"),
        ("SELF", "4100"),
        ("SHADOWED", "http://localhost:3100"),
        ("TOKEN", "t"),
        ("WEB_PORT", "3100"),
    ]);
    assert_eq!(api.env, expected);
}

#[test]
fn proxies_are_planned_with_this_program() {
    let mut edge = service(None, Some("https"));
    edge.tls_proxy = Some(proxy(vec![route("app.test", "web")]));
    let config = DevWorkspaceConfig {
        services: map(vec![("edge", edge), ("web", service(Some("//web:dev"), Some("web")))]),
        ..DevWorkspaceConfig::default()
    };
    let ports = map(vec![("https", 8443), ("web", 3100)]);
    let plans = resolve(&config, &ports, Some("/opt/my tools/aster")).unwrap();
    assert_eq!(plans[0].target_address, "builtin:tls-proxy:edge");
    assert_eq!(plans[0].target.command, "'/opt/my tools/aster' services tls serve edge");
    assert_eq!(plans[0].open_url.as_deref(), Some("https://app.test:8443"));
    assert_eq!(
        plans[0].env.get("ASTER_RESOLVED_PORTS").unwrap(),
        "{\"https\":8443,\"web\":3100}"
    );
    assert_eq!(plans[1].open_url.as_deref(), Some("https://app.test:8443"));
    assert!(plans[1].env.get("ASTER_RESOLVED_PORTS").is_none());
    assert_eq!(
        resolve(&config, &ports, None).unwrap_err(),
        "failed to locate the Aster executable for TLS proxy service"
    );
}

#[test]
fn plans_say_what_is_wrong_with_a_service() {
    let ports = map(vec![("api", 4100)]);
    let fault = |service: DevServiceConfig| {
        let config = DevWorkspaceConfig {
            services: map(vec![("s", service)]),
            ..DevWorkspaceConfig::default()
        };
        resolve(&config, &ports, None).unwrap_err()
    };
    assert_eq!(
        fault(service(Some("//api:dev"), Some("gone"))),
        "service 's' references unknown port 'gone'"
    );
    assert_eq!(
        fault(service(Some("api"), None)),
        "service 's' target must use //project:target syntax: api"
    );
    assert_eq!(
        fault(service(Some("//gone:dev"), None)),
        "service 's' references unknown project //gone"
    );
    assert_eq!(
        fault(service(Some("//api:gone"), None)),
        "service 's' references unknown target //api:gone"
    );
    assert_eq!(
        fault(service(Some("//api:build"), None)),
        "service 's' target //api:build must set stream = true"
    );
    assert_eq!(
        fault(service(Some("//api:dev"), None)),
        "invalid command for service 's': uses {port} but the service has no configured port"
    );
    let mut bad = service(Some("//web:dev"), None);
    bad.env = texts(&[("A", "{ports.gone}")]);
    assert_eq!(
        fault(bad),
        "invalid env value for service 's' key 'A': references unknown port template {ports.gone}"
    );
    let mut bad = service(Some("//web:dev"), None);
    bad.port_env = texts(&[("A", "gone")]);
    assert_eq!(fault(bad), "service 's' port_env key 'A' references unknown port 'gone'");
}

#[test]
fn open_urls_must_agree() {
    let mut edge = service(None, Some("https"));
    edge.tls_proxy = Some(proxy(vec![route("one.test", "web"), route("two.test", "web")]));
    let config = DevWorkspaceConfig {
        services: map(vec![("edge", edge)]),
        ..DevWorkspaceConfig::default()
    };
    let mut selected = TextSet::new();
    selected.insert("edge".to_string());
    assert_eq!(
        resolve_tls_open_urls(&config, &selected, &map(vec![("https", 443)])).unwrap_err(),
        "TLS routes publish multiple open hosts for upstream port 'web': https://one.test and https://two.test"
    );
    assert_eq!(authority_text("one.test", 443), "one.test");
    assert_eq!(authority_text("one.test", 8443), "one.test:8443");
    assert!(!proxies_resolved(&config, &selected, &TextMap::new()));
}

#[test]
fn templates_are_filled() {
    let ports = map(vec![("api", 4100), ("web", 3100)]);
    assert_eq!(
        expand_template("{port}:{ports.api}:{ports.web}", Some(1), &ports),
        Ok("1:4100:3100".to_string())
    );
    assert_eq!(
        expand_template("x {ports.gone} y", None, &ports),
        Err("references unknown port template {ports.gone}".to_string())
    );
    assert_eq!(expand_template("plain", None, &ports), Ok("plain".to_string()));
}

#[test]
fn prerequisites_are_the_targets_that_end() {
    let projects = projects();
    let graph = build_target_graph(&projects);
    let mut streams = TextSet::new();
    streams.insert("//api:dev".to_string());
    streams.insert("//web:dev".to_string());
    assert_eq!(
        collect_non_stream_dependencies("//api:dev", &graph, &streams).to_vec(),
        vec!["//api:build", "//lib:build"]
    );
}
