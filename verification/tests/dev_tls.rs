use aster::config::workspace::{DevTlsProxyConfig, DevTlsRouteConfig};
use aster::dev::tls::{dns_probe_hostnames, match_route, ResolvedRoute, RouteSelector};

#[test]
fn wildcard_route_matches_any_subdomain_depth_but_not_the_suffix_itself() {
    let routes = vec![ResolvedRoute {
        selector: RouteSelector::Suffix(".sites.test".to_string()),
        port: 4100,
    }];
    assert_eq!(match_route("one.sites.test", &routes), Some(4100));
    assert_eq!(match_route("one.two.sites.test", &routes), Some(4100));
    assert_eq!(match_route("sites.test", &routes), None);
}

#[test]
fn dns_validation_probes_apex_open_host_and_a_wildcard_site_hostname() {
    let tls = DevTlsProxyConfig {
        certificate_hosts: vec![
            "intern.dev".to_string(),
            "*.local.sites.intern.dev".to_string(),
        ],
        open_host: "intern.dev".to_string(),
        dns_domain: Some("intern.dev".to_string()),
        routes: vec![DevTlsRouteConfig {
            host: None,
            host_suffix: Some(".sites.intern.dev".to_string()),
            open_host: Some("test.local.sites.intern.dev".to_string()),
            upstream_port: "gateway".to_string(),
        }],
    };
    assert_eq!(
        dns_probe_hostnames(&tls, "intern.dev")
            .to_vec(),
        [
            "aster-dns-probe.local.sites.intern.dev",
            "intern.dev",
            "test.local.sites.intern.dev"
        ]
    );
}
