use aster::collections::TextMap;
use aster::config::workspace::{
    DetailedDevServiceGroupConfig, DevPortConfig, DevServiceConfig, DevServiceGroupConfig, DevTlsProxyConfig,
    DevTlsRouteConfig, DevWorkspaceConfig, DynamicDevPortConfig, DynamicPortAllocation, ResolvedDevPortConfig,
};
use aster::dev::allocation::resolve_static_dev_ports;
use aster::dev::environment::validate_environment;
use aster::dev::ports::{resolve_ports, validate_port_offsets, PortSources};
use aster::dev::services::{resolve_tls_open_urls, select_service_names};
use aster::dev::template::expand_template;

fn map<V, const N: usize>(entries: [(String, V); N]) -> TextMap<V> {
    let mut map = TextMap::new();
    for (key, value) in entries {
        map.insert(key, value);
    }
    map
}

fn no_sources() -> PortSources {
    PortSources {
        environment: TextMap::new(),
        file_env: TextMap::new(),
    }
}

fn service(target: &str) -> DevServiceConfig {
    DevServiceConfig {
        target: Some(target.to_string()),
        tls_proxy: None,
        port: None,
        open_path: None,
        env_files: Vec::new(),
        env: TextMap::new(),
        port_env: TextMap::new(),
        inherit_env: Vec::new(),
        order: 0,
    }
}

#[test]
fn tls_routes_publish_https_open_urls_for_upstream_services() {
    let tls_service = DevServiceConfig {
        target: None,
        tls_proxy: Some(DevTlsProxyConfig {
            certificate_hosts: vec![
                "intern.dev".to_string(),
                "*.local.sites.intern.dev".to_string(),
            ],
            open_host: "intern.dev".to_string(),
            dns_domain: None,
            routes: vec![
                DevTlsRouteConfig {
                    host: Some("intern.dev".to_string()),
                    host_suffix: None,
                    open_host: None,
                    upstream_port: "frontend".to_string(),
                },
                DevTlsRouteConfig {
                    host: None,
                    host_suffix: Some(".sites.intern.dev".to_string()),
                    open_host: Some("test.local.sites.intern.dev".to_string()),
                    upstream_port: "gateway".to_string(),
                },
            ],
        }),
        port: Some("https".to_string()),
        open_path: None,
        env_files: Vec::new(),
        env: TextMap::new(),
        port_env: TextMap::new(),
        inherit_env: Vec::new(),
        order: 0,
    };
    let config = DevWorkspaceConfig {
        ports: map([
            ("https".to_string(), DevPortConfig::Fixed(8443)),
            ("frontend".to_string(), DevPortConfig::Fixed(3100)),
            ("gateway".to_string(), DevPortConfig::Fixed(3800)),
        ]),
        services: map([
            ("frontend".to_string(), service("//frontend:dev")),
            ("gateway".to_string(), service("//gateway:dev")),
            ("edge".to_string(), tls_service),
        ]),
        service_groups: map([(
            "intern".to_string(),
            DevServiceGroupConfig::Services(vec![
                "frontend".to_string(),
                "gateway".to_string(),
                "edge".to_string(),
            ]),
        )]),
        ..DevWorkspaceConfig::default()
    };
    let selected = select_service_names(&config, Some("intern")).unwrap();
    let ports = resolve_ports(&config.ports, &no_sources(), &TextMap::new()).unwrap();

    let open_urls = resolve_tls_open_urls(&config, &selected, &ports).unwrap();
    assert_eq!(open_urls.get("frontend").unwrap(), "https://intern.dev:8443");
    assert_eq!(
        open_urls.get("gateway").unwrap(),
        "https://test.local.sites.intern.dev:8443"
    );
}

#[test]
fn service_groups_select_grouped_or_ungrouped_services() {
    let config = DevWorkspaceConfig {
        services: map([
            ("platform".to_string(), service("//platform:dev")),
            ("metrics".to_string(), service("//metrics:dev")),
            ("intern-data".to_string(), service("//intern-data:dev")),
            ("intern-fe".to_string(), service("//intern-fe:dev")),
        ]),
        service_groups: map([
            (
                "main".to_string(),
                DevServiceGroupConfig::Services(vec!["platform".to_string()]),
            ),
            (
                "intern".to_string(),
                DevServiceGroupConfig::Services(vec![
                    "intern-data".to_string(),
                    "intern-fe".to_string(),
                ]),
            ),
        ]),
        ..DevWorkspaceConfig::default()
    };

    assert_eq!(
        select_service_names(&config, None).unwrap().to_vec(),
        vec!["metrics", "platform"]
    );
    assert_eq!(
        select_service_names(&config, Some("intern")).unwrap().to_vec(),
        vec!["intern-data", "intern-fe"]
    );
    assert_eq!(
        select_service_names(&config, Some("main")).unwrap().to_vec(),
        vec!["platform"]
    );
    let error = select_service_names(&config, Some("missing")).unwrap_err();
    assert!(error
        .to_string()
        .contains("configured groups: intern, main"));
}

#[test]
fn services_can_belong_to_multiple_groups() {
    let config = DevWorkspaceConfig {
        services: map([
            ("shared".to_string(), service("//shared:dev")),
            ("one".to_string(), service("//one:dev")),
        ]),
        service_groups: map([
            (
                "small".to_string(),
                DevServiceGroupConfig::Services(vec!["shared".to_string()]),
            ),
            (
                "full".to_string(),
                DevServiceGroupConfig::Services(vec!["shared".to_string(), "one".to_string()]),
            ),
        ]),
        ..DevWorkspaceConfig::default()
    };

    assert!(select_service_names(&config, None).unwrap().is_empty());
    assert_eq!(
        select_service_names(&config, Some("small")).unwrap().to_vec(),
        vec!["shared"]
    );
}

#[test]
fn service_group_control_port_overrides_global_control_port() {
    let config = DevWorkspaceConfig {
        control_port: Some("global-control".to_string()),
        ports: map([
            ("global-control".to_string(), DevPortConfig::Fixed(5000)),
            ("intern-control".to_string(), DevPortConfig::Fixed(5001)),
        ]),
        services: map([("api".to_string(), service("//api:dev"))]),
        service_groups: map([(
            "intern".to_string(),
            DevServiceGroupConfig::Detailed(DetailedDevServiceGroupConfig {
                services: vec!["api".to_string()],
                control_port: Some("intern-control".to_string()),
            }),
        )]),
        ..DevWorkspaceConfig::default()
    };

    let ports = resolve_ports(&config.ports, &no_sources(), &TextMap::new()).unwrap();
    let selected = config.service_groups.get("intern").unwrap().control_port();
    assert_eq!(selected.and_then(|name| ports.get(name)), Some(&5001));
}

#[test]
fn resolves_offset_ports_and_templates() {
    let configs = map([
        ("api".to_string(), DevPortConfig::Fixed(4004)),
        (
            "web".to_string(),
            DevPortConfig::Resolved(ResolvedDevPortConfig {
                    env: vec![],
                file_env: None,
                default: 3300,
                offset_from: Some("api".to_string()),
                offset_base: Some(4000),
                saturating_offset: false,
            }),
        ),
    ]);
    let ports = resolve_ports(&configs, &no_sources(), &TextMap::new()).unwrap();
    assert_eq!(*ports.get("web").unwrap(), 3304);
    assert_eq!(
        expand_template("serve {port} --api {ports.api}", Some(3304), &ports).unwrap(),
        "serve 3304 --api 4004"
    );
}

#[test]
fn rejects_unknown_port_template() {
    let error = expand_template("serve {ports.missing}", None, &TextMap::new()).unwrap_err();
    assert!(error.to_string().contains("unknown port template"));
}

#[test]
fn maintenance_resolution_excludes_dynamic_bundles() {
    let config = DevWorkspaceConfig {
        ports: map([
            (
                "dynamic".to_string(),
                DevPortConfig::Dynamic(DynamicDevPortConfig {
                    allocation: DynamicPortAllocation::Dynamic,
                    range: [4000, 4099],
                    preferred: Some(4000),
                }),
            ),
            (
                "derived".to_string(),
                DevPortConfig::Resolved(ResolvedDevPortConfig {
                            env: vec![],
                    file_env: None,
                    default: 3000,
                    offset_from: Some("dynamic".to_string()),
                    offset_base: Some(4000),
                    saturating_offset: false,
                }),
            ),
            ("static".to_string(), DevPortConfig::Fixed(5432)),
        ]),
        ..DevWorkspaceConfig::default()
    };

    let ports = resolve_static_dev_ports(&config, &no_sources()).unwrap();
    assert_eq!(ports.len(), 1);
    assert_eq!(ports.get("static"), Some(&5432));
}

#[test]
fn rejects_invalid_derived_port_ranges() {
    for (base, default, expected) in [
        (3999, 3300, "below offset_base"),
        (65000, 10000, "overflows"),
    ] {
        let configs = map([
            ("api".to_string(), DevPortConfig::Fixed(base)),
            (
                "web".to_string(),
                DevPortConfig::Resolved(ResolvedDevPortConfig {
                            env: vec![],
                    file_env: None,
                    default,
                    offset_from: Some("api".to_string()),
                    offset_base: Some(4000),
                    saturating_offset: false,
                }),
            ),
        ]);
        let error = resolve_ports(&configs, &no_sources(), &TextMap::new()).unwrap_err();
        assert!(error.to_string().contains(expected), "{error}");
    }
}

#[test]
fn rejects_zero_named_port() {
    let configs = map([("control".to_string(), DevPortConfig::Fixed(0))]);
    let error = resolve_ports(&configs, &no_sources(), &TextMap::new()).unwrap_err();
    assert!(error.to_string().contains("between 1 and 65535"));
}

#[test]
fn saturating_offset_accepts_source_below_baseline() {
    let configs = map([
        ("api".to_string(), DevPortConfig::Fixed(3999)),
        (
            "web".to_string(),
            DevPortConfig::Resolved(ResolvedDevPortConfig {
                    env: vec![],
                file_env: None,
                default: 3300,
                offset_from: Some("api".to_string()),
                offset_base: Some(4000),
                saturating_offset: true,
            }),
        ),
    ]);
    let ports = resolve_ports(&configs, &no_sources(), &TextMap::new()).unwrap();
    assert_eq!(*ports.get("web").unwrap(), 3300);
}

#[test]
fn explicit_empty_file_env_disables_port_file_lookup() {
    let key = "ASTER_TEST_PORT_EXPLICIT_EMPTY_FILE_ENV";
    let configs = map([(
        "api".to_string(),
        DevPortConfig::Resolved(ResolvedDevPortConfig {
            env: vec![key.to_string()],
            file_env: Some(vec![]),
            default: 4100,
            offset_from: None,
            offset_base: None,
            saturating_offset: false,
        }),
    )]);
    let file_env = map([(key.to_string(), "4200".to_string())]);

    let ports = resolve_ports(
        &configs,
        &PortSources {
            environment: TextMap::new(),
            file_env,
        },
        &TextMap::new(),
    ).unwrap();
    assert_eq!(*ports.get("api").unwrap(), 4100);
}

#[test]
fn validates_offset_graph_before_considering_overrides() {
    let malformed = ResolvedDevPortConfig {
        env: vec!["PORT_OVERRIDE".to_string()],
        file_env: None,
        default: 3300,
        offset_from: Some("missing".to_string()),
        offset_base: None,
        saturating_offset: false,
    };
    let configs = map([("web".to_string(), DevPortConfig::Resolved(malformed))]);
    let error = validate_port_offsets(&configs).unwrap_err();
    assert!(error.to_string().contains("missing offset_base"));

    let cyclic = |next: &str| {
        DevPortConfig::Resolved(ResolvedDevPortConfig {
            env: vec![],
            file_env: None,
            default: 3000,
            offset_from: Some(next.to_string()),
            offset_base: Some(3000),
            saturating_offset: false,
        })
    };
    let configs = map([
        ("one".to_string(), cyclic("two")),
        ("two".to_string(), cyclic("one")),
    ]);
    let error = validate_port_offsets(&configs).unwrap_err();
    assert!(error.to_string().contains("cycle"));
}

#[test]
fn rejects_environment_entries_that_command_cannot_accept() {
    let invalid_key = map([("BAD=KEY".to_string(), "value".to_string())]);
    assert!(validate_environment("api", &invalid_key)
        .unwrap_err()
        .to_string()
        .contains("invalid environment key"));

    let invalid_value = map([("KEY".to_string(), "bad\0value".to_string())]);
    assert!(validate_environment("api", &invalid_value)
        .unwrap_err()
        .to_string()
        .contains("contains NUL"));
}
