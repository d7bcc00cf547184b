use aster::collections::TextMap;
use aster::config::workspace::{DevServiceConfig, DevTlsProxyConfig, DevTlsRouteConfig, DevWorkspaceConfig};
use aster::dev::tls::{
    certificate_arguments, certificate_directory, check_local_dns, configured_proxy, dns_failure_text,
    hostname_without_port, match_route, resolve_edge, route_request, upgrade_requested, upstream_uri, ProxyDecision,
    ResolvedRoute, RouteSelector,
};

fn route(host: Option<&str>, suffix: Option<&str>, port: &str) -> DevTlsRouteConfig {
    DevTlsRouteConfig {
        host: host.map(str::to_string),
        host_suffix: suffix.map(str::to_string),
        open_host: None,
        upstream_port: port.to_string(),
    }
}

fn proxy(routes: Vec<DevTlsRouteConfig>) -> DevTlsProxyConfig {
    DevTlsProxyConfig {
        certificate_hosts: vec!["one.test".to_string(), "*.test".to_string()],
        open_host: "one.test".to_string(),
        dns_domain: None,
        routes,
    }
}

fn service(tls_proxy: Option<DevTlsProxyConfig>) -> DevServiceConfig {
    DevServiceConfig {
        target: None,
        tls_proxy,
        port: Some("https".to_string()),
        open_path: None,
        env_files: Vec::new(),
        env: TextMap::new(),
        port_env: TextMap::new(),
        inherit_env: Vec::new(),
        order: 0,
    }
}

fn ports() -> TextMap<u16> {
    let mut ports = TextMap::new();
    ports.insert("https".to_string(), 8443);
    ports.insert("web".to_string(), 3100);
    ports.insert("api".to_string(), 4100);
    ports
}

#[test]
fn hosts_are_taken_without_their_port() {
    assert_eq!(hostname_without_port(" one.test:8443 ").as_deref(), Some("one.test"));
    assert_eq!(hostname_without_port("one.test").as_deref(), Some("one.test"));
    assert_eq!(hostname_without_port("  "), None);
}

#[test]
fn longer_hosts_are_tried_first() {
    let tls = proxy(vec![
        route(None, Some(".test"), "web"),
        route(None, Some(".API.test"), "api"),
        route(Some("One.test"), None, "api"),
    ]);
    let (port, routes) = resolve_edge(&service(None), &tls, "edge", &ports()).unwrap();
    assert_eq!(port, 8443);
    assert_eq!(match_route("x.api.test", &routes), Some(4100));
    assert_eq!(match_route("x.test", &routes), Some(3100));
    assert_eq!(match_route("one.test", &routes), Some(4100));
    assert_eq!(match_route("other", &routes), None);
    assert_eq!(match_route(".test", &routes), None);
    assert_eq!(routes[0].selector.len(), 9);
}

#[test]
fn edges_need_their_ports() {
    let tls = proxy(vec![route(Some("one.test"), None, "gone")]);
    assert_eq!(
        resolve_edge(&service(None), &tls, "edge", &ports()).unwrap_err(),
        "TLS route references unknown port 'gone'"
    );
    let mut none = TextMap::new();
    none.insert("web".to_string(), 3100);
    assert!(resolve_edge(&service(None), &tls, "edge", &none).is_err());
}

#[test]
fn proxies_are_found_by_name() {
    let mut config = DevWorkspaceConfig::default();
    assert_eq!(
        configured_proxy(&config, "edge").unwrap_err(),
        "unknown TLS service 'edge'; no TLS proxy services are configured"
    );
    config.services.insert("edge".to_string(), service(Some(proxy(Vec::new()))));
    config.services.insert("web".to_string(), service(None));
    assert!(configured_proxy(&config, "edge").is_ok());
    assert_eq!(
        configured_proxy(&config, "other").unwrap_err(),
        "unknown TLS service 'other'; configured TLS services: edge"
    );
    assert!(configured_proxy(&config, "web").is_err());
}

#[test]
fn certificates_are_kept_by_service() {
    assert_eq!(certificate_directory("/w", "edge").unwrap(), "/w/.aster/tls/edge");
    for name in ["", "/edge", "a/../b", ".."] {
        assert_eq!(
            certificate_directory("/w", name).unwrap_err(),
            format!("invalid TLS service name '{name}'")
        );
    }
    assert_eq!(
        certificate_arguments(&proxy(Vec::new()), "/c/cert.pem", "/c/key.pem"),
        vec![
            "-cert-file",
            "/c/cert.pem",
            "-key-file",
            "/c/key.pem",
            "one.test",
            "*.test"
        ]
    );
}

#[test]
fn names_must_resolve_to_this_machine() {
    let probes = vec!["a.test".to_string(), "b.test".to_string()];
    assert_eq!(check_local_dns(&probes, &vec![true, true], "test"), Ok(()));
    let error = check_local_dns(&probes, &vec![true, false], "test").unwrap_err();
    assert_eq!(error, dns_failure_text("b.test", "test"));
    assert!(error.starts_with("TLS hostname 'b.test' does not resolve to loopback."));
    assert!(error.contains("address=/.test/127.0.0.1"));
}

#[test]
fn requests_go_to_the_service_of_their_host() {
    let routes = vec![
        ResolvedRoute {
            selector: RouteSelector::Exact("one.test".to_string()),
            port: 3100,
        },
        ResolvedRoute {
            selector: RouteSelector::Suffix(".test".to_string()),
            port: 4100,
        },
    ];
    match route_request(Some("ONE.test:8443"), &routes) {
        ProxyDecision::Forward { hostname, port } => {
            assert_eq!(hostname, "one.test");
            assert_eq!(port, 3100);
        }
        other => panic!("expected to forward, got {other:?}"),
    }
    assert!(matches!(
        route_request(Some("x.test"), &routes),
        ProxyDecision::Forward { port: 4100, .. }
    ));
    assert!(matches!(
        route_request(Some("elsewhere"), &routes),
        ProxyDecision::UnknownHost
    ));
    assert!(matches!(route_request(None, &routes), ProxyDecision::MissingHost));
    assert!(matches!(route_request(Some(" "), &routes), ProxyDecision::MissingHost));
}

#[test]
fn upgrades_are_asked_for_by_both_headers() {
    assert!(upgrade_requested(true, Some("keep-alive, Upgrade")));
    assert!(!upgrade_requested(false, Some("Upgrade")));
    assert!(!upgrade_requested(true, Some("keep-alive")));
    assert!(!upgrade_requested(true, None));
}

#[test]
fn requests_keep_their_path() {
    assert_eq!(upstream_uri(3100, Some("/a?b=c")), "http://127.0.0.1:3100/a?b=c");
    assert_eq!(upstream_uri(3100, None), "http://127.0.0.1:3100/");
}
