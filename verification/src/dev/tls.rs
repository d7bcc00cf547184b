//! The proxy that ends TLS in front of the services.
use vstd::prelude::*;
use crate::collections::{TextMap, TextSet};
use crate::config::workspace::{DevServiceConfig, DevTlsProxyConfig, DevTlsRouteConfig, DevWorkspaceConfig};
use crate::dev::services::are_routes;
use crate::numbers::{decimal, decimal_text};
use crate::paths::{absolute, is_absolute, join_path, path_join};
use crate::text::{
    byte_count, byte_length, chars_of, concat2, concat3, concat4, concat5, contains_item, ends_with, join_texts,
    joined, lower_text, lowered, same_text, split_first, split_first_at, split_first_none, split_in_turn,
    split_of_one_part, split_on, split_once, split_text, strip_prefix, texts, trim_text, trimmed,
    trimming_spares_the_rest, white_space,
};

verus! {

/// The file of the certificate.
pub const CERT_FILE: &'static str = "cert.pem";

/// The file of the private key.
pub const KEY_FILE: &'static str = "key.pem";

// ---------------------------------------------------------------------------
// Routes
// ---------------------------------------------------------------------------

/// Which hosts a route is for.
#[derive(Debug, Clone)]
pub enum RouteSelector {
    /// The host itself
    Exact(String),
    /// The hosts with the ending, with something before it
    Suffix(String),
}

/// A route with the port behind it.
#[derive(Debug, Clone)]
pub struct ResolvedRoute {
    pub selector: RouteSelector,
    pub port: u16,
}

/// A route: the host or ending, whether it is an ending, and the port.
pub struct RouteView {
    pub host: Seq<char>,
    pub is_suffix: bool,
    pub port: u16,
}

/// A route by its contents.
pub open spec fn route_view(route: ResolvedRoute) -> RouteView {
    match route.selector {
        RouteSelector::Exact(host) => RouteView { host: host@, is_suffix: false, port: route.port },
        RouteSelector::Suffix(host) => RouteView { host: host@, is_suffix: true, port: route.port },
    }
}

/// Routes by their contents.
pub open spec fn route_views(routes: Seq<ResolvedRoute>) -> Seq<RouteView> {
    routes.map_values(|route: ResolvedRoute| route_view(route))
}

/// The route is for the host.
pub open spec fn selects(route: RouteView, hostname: Seq<char>) -> bool {
    if route.is_suffix {
        route.host.is_suffix_of(hostname) && hostname.len() > route.host.len()
    } else {
        hostname == route.host
    }
}

impl RouteSelector {
    /// The size of the host or ending in bytes.
    pub fn len(&self) -> (size: u64)
        ensures
            size == byte_length(
                match *self {
                    RouteSelector::Exact(host) => host@,
                    RouteSelector::Suffix(host) => host@,
                },
            ),
    {
        match self {
            RouteSelector::Exact(host) => byte_count(host),
            RouteSelector::Suffix(host) => byte_count(host),
        }
    }

    /// Whether the route is for the host.
    pub fn matches(&self, hostname: &str) -> (found: bool)
        ensures
            found == selects(route_view(ResolvedRoute { selector: *self, port: 0 }), hostname@),
    {
        match self {
            RouteSelector::Exact(host) => same_text(hostname, host),
            RouteSelector::Suffix(host) => ends_with(hostname, host) && chars_of(hostname).len() > chars_of(host).len(),
        }
    }
}

/// The port behind the first route for the host.
pub fn match_route(hostname: &str, routes: &[ResolvedRoute]) -> (port: Option<u16>)
    ensures
        match port {
            Some(port) => exists|at: int|
                0 <= at < routes@.len() && selects(#[trigger] route_view(routes@[at]), hostname@)
                    && routes@[at].port == port && (forall|i: int|
                    0 <= i < at ==> !selects(#[trigger] route_view(routes@[i]), hostname@)),
            None => forall|i: int| 0 <= i < routes@.len() ==> !selects(#[trigger] route_view(routes@[i]), hostname@),
        },
{
    let mut i: usize = 0;
    while i < routes.len()
        invariant
            i <= routes@.len(),
            forall|k: int| 0 <= k < i ==> !selects(#[trigger] route_view(routes@[k]), hostname@),
        decreases routes@.len() - i,
    {
        let found = routes[i].selector.matches(hostname);
        assert(found == selects(route_view(routes@[i as int]), hostname@));
        if found {
            return Some(routes[i].port);
        }
        i += 1;
    }
    None
}

/// The host of a `Host` header, without its port.
pub open spec fn plain_host(host: Seq<char>) -> Option<Seq<char>> {
    let plain = trimmed(host);
    if plain.len() == 0 {
        None
    } else {
        match split_first(plain, ':') {
            Some((name, _)) => Some(name),
            None => Some(plain),
        }
    }
}

/// The host of a `Host` header, without its port.
pub fn hostname_without_port(host: &str) -> (name: Option<String>)
    ensures
        match name {
            Some(name) => plain_host(host@) == Some(name@),
            None => plain_host(host@) is None,
        },
{
    let plain = trim_text(host);
    if plain.as_str().is_empty() {
        return None;
    }
    match split_once(&plain, ':') {
        Some((name, _)) => Some(name),
        None => Some(plain),
    }
}

// ---------------------------------------------------------------------------
// The order of the routes
// ---------------------------------------------------------------------------

/// The size by which routes are ordered.
pub open spec fn size_of_route(route: RouteView) -> nat {
    byte_length(route.host)
}

/// The routes of one size.
pub open spec fn of_size(routes: Seq<RouteView>, size: nat) -> Seq<RouteView> {
    routes.filter(|route: RouteView| size_of_route(route) == size)
}

/// Longer hosts come first.
pub open spec fn longest_first(routes: Seq<RouteView>) -> bool {
    forall|i: int, j: int|
        0 <= i < j < routes.len() ==> size_of_route(#[trigger] routes[i]) >= size_of_route(#[trigger] routes[j])
}

/// The routes with longer hosts first, and those of one size in the order that
/// they had.
pub open spec fn is_ordered(ordered: Seq<RouteView>, routes: Seq<RouteView>) -> bool {
    &&& longest_first(ordered)
    &&& forall|size: nat| #[trigger] of_size(ordered, size) == of_size(routes, size)
}

proof fn filter_joins(one: Seq<RouteView>, other: Seq<RouteView>, size: nat)
    ensures
        of_size(one + other, size) == of_size(one, size) + of_size(other, size),
    decreases other.len(),
{
    reveal(Seq::filter);
    if other.len() == 0 {
        assert(one + other =~= one);
        assert(of_size(one, size) + of_size(other, size) =~= of_size(one, size));
    } else {
        filter_joins(one, other.drop_last(), size);
        assert((one + other).drop_last() =~= one + other.drop_last());
        assert((one + other).last() == other.last());
        assert(of_size(one + other, size) =~= of_size(one, size) + of_size(other, size));
    }
}

proof fn none_of_size(routes: Seq<RouteView>, size: nat)
    requires
        forall|i: int| 0 <= i < routes.len() ==> size_of_route(#[trigger] routes[i]) != size,
    ensures
        of_size(routes, size) == Seq::<RouteView>::empty(),
    decreases routes.len(),
{
    reveal(Seq::filter);
    if routes.len() > 0 {
        let front = routes.drop_last();
        assert forall|i: int| 0 <= i < front.len() implies size_of_route(#[trigger] front[i]) != size by {
            assert(front[i] == routes[i]);
        }
        none_of_size(front, size);
        assert(routes.last() == routes[routes.len() - 1]);
    }
}

proof fn placed_keeps_order(ordered: Seq<RouteView>, routes: Seq<RouteView>, route: RouteView, at: int)
    requires
        is_ordered(ordered, routes),
        0 <= at <= ordered.len(),
        forall|i: int| 0 <= i < at ==> size_of_route(#[trigger] ordered[i]) >= size_of_route(route),
        forall|i: int| at <= i < ordered.len() ==> size_of_route(#[trigger] ordered[i]) < size_of_route(route),
    ensures
        is_ordered(ordered.insert(at, route), routes.push(route)),
{
    let placed = ordered.insert(at, route);
    assert forall|i: int, j: int| 0 <= i < j < placed.len() implies size_of_route(#[trigger] placed[i])
        >= size_of_route(#[trigger] placed[j]) by {
        let one = if i < at { i } else { i - 1 };
        let other = if j < at { j } else { j - 1 };
        if i != at && j != at {
            assert(placed[i] == ordered[one]);
            assert(placed[j] == ordered[other]);
        } else if i == at {
            assert(placed[j] == ordered[other]);
        } else {
            assert(placed[i] == ordered[one]);
        }
    }
    assert forall|size: nat| #[trigger] of_size(placed, size) == of_size(routes.push(route), size) by {
        let front = ordered.take(at);
        let back = ordered.skip(at);
        let middle = seq![route];
        reveal_with_fuel(Seq::filter, 2);
        assert(ordered =~= front + back);
        assert(placed =~= front + middle + back);
        assert(routes.push(route) =~= routes + middle);
        filter_joins(front, back, size);
        filter_joins(front + middle, back, size);
        filter_joins(front, middle, size);
        filter_joins(routes, middle, size);
        assert(of_size(ordered, size) == of_size(routes, size));
        if size_of_route(route) == size {
            none_of_size(back, size);
            assert(of_size(placed, size) =~= of_size(front, size) + of_size(middle, size));
            assert(of_size(ordered, size) =~= of_size(front, size));
        } else {
            none_of_size(middle, size);
            assert(of_size(placed, size) =~= of_size(front, size) + of_size(back, size));
            assert(of_size(routes, size) + of_size(middle, size) =~= of_size(routes, size));
        }
    }
}

fn order_routes(routes: Vec<ResolvedRoute>) -> (ordered: Vec<ResolvedRoute>)
    ensures
        is_ordered(route_views(ordered@), route_views(routes@)),
{
    let mut ordered: Vec<ResolvedRoute> = Vec::new();
    let mut left = routes;
    let ghost all = route_views(routes@);
    let count = left.len();
    let mut i: usize = 0;
    assert(all.take(0) =~= route_views(ordered@));
    assert(route_views(left@) =~= all.skip(0));
    while i < count
        invariant
            i <= count,
            count == all.len(),
            route_views(left@) == all.skip(i as int),
            is_ordered(route_views(ordered@), all.take(i as int)),
        decreases count - i,
    {
        let ghost before_left = left@;
        assert(route_views(left@).len() == all.len() - i);
        assert(route_views(left@)[0] == route_view(left@[0]));
        let route = left.remove(0);
        assert(route_view(route) == all[i as int]);
        assert(route_views(left@) =~= all.skip(i + 1)) by {
            assert forall|k: int| 0 <= k < left@.len() implies route_views(left@)[k] == all.skip(i + 1)[k] by {
                assert(left@[k] == before_left[k + 1]);
                assert(route_views(before_left)[k + 1] == all.skip(i as int)[k + 1]);
            }
        }
        let size = route.selector.len();
        let ghost before = route_views(ordered@);
        let mut at: usize = ordered.len();
        while at > 0 && ordered[at - 1].selector.len() < size
            invariant
                at <= ordered@.len(),
                before == route_views(ordered@),
                size == size_of_route(all[i as int]),
                forall|k: int| at <= k < before.len() ==> size_of_route(#[trigger] before[k]) < size,
            ensures
                at <= ordered@.len(),
                at > 0 ==> size_of_route(before[at - 1]) >= size,
                forall|k: int| at <= k < before.len() ==> size_of_route(#[trigger] before[k]) < size,
            decreases at,
        {
            assert(before[at - 1] == route_view(ordered@[at - 1]));
            at -= 1;
        }
        ordered.insert(at, route);
        proof {
            assert(route_views(ordered@) =~= before.insert(at as int, all[i as int]));
            placed_keeps_order(before, all.take(i as int), all[i as int], at as int);
            assert(all.take(i + 1) =~= all.take(i as int).push(all[i as int]));
        }
        i += 1;
    }
    assert(all.take(i as int) =~= all);
    ordered
}

/// Among ordered routes, the first one for a host has the longest host of all
/// that are for it.
pub proof fn longest_route_wins(routes: Seq<RouteView>, hostname: Seq<char>, at: int, other: int)
    requires
        longest_first(routes),
        0 <= at < routes.len(),
        0 <= other < routes.len(),
        forall|i: int| 0 <= i < at ==> !selects(#[trigger] routes[i], hostname),
        selects(routes[other], hostname),
    ensures
        size_of_route(routes[at]) >= size_of_route(routes[other]),
{
}

/// An ending is never a host of its own: what is in front of it may hold any
/// number of labels, but not none.
pub proof fn suffix_needs_more(route: RouteView, front: Seq<char>)
    requires
        route.is_suffix,
    ensures
        selects(route, front + route.host) <==> front.len() > 0,
{
    assert((front + route.host).subrange(front.len() as int, (front + route.host).len() as int) =~= route.host);
}

// ---------------------------------------------------------------------------
// The edge
// ---------------------------------------------------------------------------

/// The services that are proxies.
pub open spec fn proxy_names(services: Map<Seq<char>, DevServiceConfig>, names: Seq<Seq<char>>) -> Seq<Seq<char>> {
    names.filter(|name: Seq<char>| services[name].tls_proxy is Some)
}

/// What is said of a service that is not there.
pub open spec fn unknown_edge_text(edge: Seq<char>, known: Seq<Seq<char>>) -> Seq<char> {
    if known.len() == 0 {
        "unknown TLS service '"@ + edge + "'; no TLS proxy services are configured"@
    } else {
        "unknown TLS service '"@ + edge + "'; configured TLS services: "@ + joined(known, ", "@)
    }
}

fn known_proxies(config: &DevWorkspaceConfig) -> (known: Vec<String>)
    ensures
        texts(known@) == proxy_names(config.services@, config.services.keys()),
{
    let ghost names = config.services.keys();
    let ghost kept = |name: Seq<char>| config.services@[name].tls_proxy is Some;
    let mut known: Vec<String> = Vec::new();
    let count = config.services.len();
    let mut i: usize = 0;
    proof {
        reveal(Seq::filter);
        assert(texts(known@) =~= names.take(0).filter(kept));
    }
    while i < count
        invariant
            i <= count,
            count == names.len(),
            names == config.services.keys(),
            kept == |name: Seq<char>| config.services@[name].tls_proxy is Some,
            texts(known@) == names.take(i as int).filter(kept),
        decreases count - i,
    {
        let name = config.services.key_at(i);
        proof {
            reveal(Seq::filter);
            assert(names.take(i + 1).drop_last() =~= names.take(i as int));
            assert(names.take(i + 1).last() == name@);
        }
        let ghost before = texts(known@);
        if config.services.value_at(i).tls_proxy.is_some() {
            known.push(name.clone());
            assert(texts(known@) =~= before.push(name@));
        }
        i += 1;
    }
    assert(names.take(i as int) =~= names);
    known
}

/// The service that is a proxy, with its configuration.
pub fn configured_proxy<'a>(config: &'a DevWorkspaceConfig, edge: &str) -> (proxy: Result<
    (&'a DevServiceConfig, &'a DevTlsProxyConfig),
    String,
>)
    ensures
        match proxy {
            Ok((service, tls)) => config.services@.contains_key(edge@) && *service == config.services@[edge@]
                && service.tls_proxy == Some(*tls),
            Err(message) => if config.services@.contains_key(edge@) {
                config.services@[edge@].tls_proxy is None && message@ == "service '"@ + edge@ + "' is not a TLS proxy"@
            } else {
                message@ == unknown_edge_text(edge@, proxy_names(config.services@, config.services.keys()))
            },
        },
{
    match config.services.get(edge) {
        None => {
            let known = known_proxies(config);
            assert(texts(known@).len() == known@.len());
            if known.len() == 0 {
                Err(concat3("unknown TLS service '", edge, "'; no TLS proxy services are configured"))
            } else {
                Err(
                    concat4(
                        "unknown TLS service '",
                        edge,
                        "'; configured TLS services: ",
                        &join_texts(&known, ", "),
                    ),
                )
            }
        },
        Some(service) => match &service.tls_proxy {
            Some(tls) => Ok((service, tls)),
            None => Err(concat3("service '", edge, "' is not a TLS proxy")),
        },
    }
}

/// The name can be the name of a directory below another.
pub open spec fn is_edge_name(edge: Seq<char>) -> bool {
    &&& edge.len() > 0
    &&& !is_absolute(edge)
    &&& !split_on(edge, '/').contains(".."@)
}

/// Where the certificate of a proxy is kept.
pub fn certificate_directory(workspace_root: &str, edge: &str) -> (directory: Result<String, String>)
    ensures
        match directory {
            Ok(path) => is_edge_name(edge@) && path@ == path_join(
                path_join(path_join(workspace_root@, ".aster"@), "tls"@),
                edge@,
            ),
            Err(message) => !is_edge_name(edge@) && message@ == "invalid TLS service name '"@ + edge@ + "'"@,
        },
{
    let rooted = absolute(edge);
    let parts = split_text(edge, '/');
    if edge.is_empty() || rooted || contains_item(&parts, "..") {
        return Err(concat3("invalid TLS service name '", edge, "'"));
    }
    Ok(join_path(&join_path(&join_path(workspace_root, ".aster"), "tls"), edge))
}

/// The arguments with which `mkcert` makes a certificate.
pub fn certificate_arguments(tls: &DevTlsProxyConfig, cert_path: &str, key_path: &str) -> (arguments: Vec<String>)
    ensures
        texts(arguments@) == seq!["-cert-file"@, cert_path@, "-key-file"@, key_path@] + texts(
            tls.certificate_hosts@,
        ),
{
    let mut arguments: Vec<String> = Vec::new();
    arguments.push("-cert-file".to_owned());
    arguments.push(cert_path.to_owned());
    arguments.push("-key-file".to_owned());
    arguments.push(key_path.to_owned());
    let ghost head = texts(arguments@);
    assert(head =~= seq!["-cert-file"@, cert_path@, "-key-file"@, key_path@]);
    let mut i: usize = 0;
    assert(head =~= head + texts(tls.certificate_hosts@).take(0));
    while i < tls.certificate_hosts.len()
        invariant
            i <= tls.certificate_hosts@.len(),
            texts(arguments@) == head + texts(tls.certificate_hosts@).take(i as int),
        decreases tls.certificate_hosts@.len() - i,
    {
        let ghost before = texts(arguments@);
        arguments.push(tls.certificate_hosts[i].clone());
        assert(texts(arguments@) =~= before.push(tls.certificate_hosts@[i as int]@));
        assert(texts(arguments@) =~= head + texts(tls.certificate_hosts@).take(i + 1));
        i += 1;
    }
    assert(texts(tls.certificate_hosts@).take(i as int) =~= texts(tls.certificate_hosts@));
    arguments
}

/// The route of a configured one.
pub open spec fn resolved_route(route: DevTlsRouteConfig, port: u16) -> RouteView {
    match route.host {
        Some(host) => RouteView { host: lowered(host@), is_suffix: false, port },
        None => RouteView { host: lowered(route.host_suffix->0@), is_suffix: true, port },
    }
}

/// The routes, or the first that is to a port without a number.
pub open spec fn resolved_routes(routes: Seq<DevTlsRouteConfig>, ports: Map<Seq<char>, u16>) -> Result<
    Seq<RouteView>,
    Seq<char>,
>
    decreases routes.len(),
{
    if routes.len() == 0 {
        Ok(Seq::empty())
    } else {
        match resolved_routes(routes.drop_last(), ports) {
            Err(message) => Err(message),
            Ok(front) => {
                let name = routes.last().upstream_port@;
                if ports.contains_key(name) {
                    Ok(front.push(resolved_route(routes.last(), ports[name])))
                } else {
                    Err("TLS route references unknown port '"@ + name + "'"@)
                }
            },
        }
    }
}

fn resolve_routes(routes: &Vec<DevTlsRouteConfig>, ports: &TextMap<u16>) -> (resolved: Result<
    Vec<ResolvedRoute>,
    String,
>)
    requires
        are_routes(routes@),
    ensures
        match resolved {
            Ok(list) => resolved_routes(routes@, ports@) == Ok::<Seq<RouteView>, Seq<char>>(route_views(list@)),
            Err(message) => resolved_routes(routes@, ports@) == Err::<Seq<RouteView>, Seq<char>>(message@),
        },
{
    let mut list: Vec<ResolvedRoute> = Vec::new();
    let mut fault: Option<String> = None;
    let mut i: usize = 0;
    assert(routes@.take(0) =~= Seq::<DevTlsRouteConfig>::empty());
    assert(route_views(list@) =~= Seq::<RouteView>::empty());
    while i < routes.len()
        invariant
            i <= routes@.len(),
            are_routes(routes@),
            match fault {
                None => resolved_routes(routes@.take(i as int), ports@) == Ok::<Seq<RouteView>, Seq<char>>(
                    route_views(list@),
                ),
                Some(message) => resolved_routes(routes@.take(i as int), ports@) == Err::<Seq<RouteView>, Seq<char>>(
                    message@,
                ),
            },
        decreases routes@.len() - i,
    {
        proof {
            assert(routes@.take(i + 1).drop_last() =~= routes@.take(i as int));
            assert(routes@.take(i + 1).last() == routes@[i as int]);
        }
        if fault.is_none() {
            let route = &routes[i];
            match ports.get(&route.upstream_port) {
                None => {
                    fault = Some(concat3("TLS route references unknown port '", &route.upstream_port, "'"));
                },
                Some(port) => {
                    let selector = match (&route.host, &route.host_suffix) {
                        (Some(host), _) => RouteSelector::Exact(lower_text(host)),
                        (None, Some(suffix)) => RouteSelector::Suffix(lower_text(suffix)),
                        (None, None) => RouteSelector::Exact("".to_owned()),
                    };
                    let ghost before = route_views(list@);
                    list.push(ResolvedRoute { selector, port: *port });
                    assert(route_views(list@) =~= before.push(resolved_route(routes@[i as int], ports@[route.upstream_port@])));
                },
            }
        }
        i += 1;
    }
    assert(routes@.take(i as int) =~= routes@);
    match fault {
        None => Ok(list),
        Some(message) => Err(message),
    }
}

/// The port on which a proxy listens and its routes, longer hosts first.
pub fn resolve_edge(service: &DevServiceConfig, tls: &DevTlsProxyConfig, edge: &str, ports: &TextMap<u16>) -> (resolved: Result<
    (u16, Vec<ResolvedRoute>),
    String,
>)
    requires
        service.port is Some,
        are_routes(tls.routes@),
    ensures
        ({
            let name = service.port->0@;
            let routes = resolved_routes(tls.routes@, ports@);
            match resolved {
                Ok((port, list)) => {
                    &&& ports@.contains_key(name) && port == ports@[name]
                    &&& routes matches Ok(wanted) && is_ordered(route_views(list@), wanted)
                },
                Err(message) => if !ports@.contains_key(name) {
                    message@ == "TLS edge '"@ + edge@ + "' references unknown port '"@ + name + "'"@
                } else {
                    routes == Err::<Seq<RouteView>, Seq<char>>(message@)
                },
            }
        }),
{
    let name: String = match &service.port {
        Some(name) => name.clone(),
        None => "".to_owned(),
    };
    let port: u16 = match ports.get(&name) {
        Some(port) => *port,
        None => return Err(concat5("TLS edge '", edge, "' references unknown port '", &name, "'")),
    };
    match resolve_routes(&tls.routes, ports) {
        Ok(list) => Ok((port, order_routes(list))),
        Err(message) => Err(message),
    }
}

// ---------------------------------------------------------------------------
// Names that must resolve
// ---------------------------------------------------------------------------

/// The name that is looked up for a host of a certificate.
pub open spec fn probe_of(host: Seq<char>) -> Seq<char> {
    if "*."@.is_prefix_of(host) {
        "aster-dns-probe."@ + host.skip("*."@.len() as int)
    } else {
        host
    }
}

/// The name is looked up: it is the domain, the host to open, one for a host
/// of the certificate, or the host to open a route with.
pub open spec fn is_probe(tls: DevTlsProxyConfig, domain: Seq<char>, name: Seq<char>) -> bool {
    ||| name == domain
    ||| name == tls.open_host@
    ||| exists|i: int| 0 <= i < tls.certificate_hosts@.len() && name == probe_of(#[trigger] tls.certificate_hosts@[i]@)
    ||| exists|i: int|
        0 <= i < tls.routes@.len() && (#[trigger] tls.routes@[i]).open_host is Some && tls.routes@[i].open_host->0@ == name
}

/// The names that are looked up before a proxy starts.
pub fn dns_probe_hostnames(tls: &DevTlsProxyConfig, domain: &str) -> (probes: TextSet)
    ensures
        forall|name: Seq<char>| #[trigger] probes@.contains(name) <==> is_probe(*tls, domain@, name),
{
    let mut probes = TextSet::new();
    probes.insert(domain.to_owned());
    probes.insert(tls.open_host.clone());
    let mut i: usize = 0;
    while i < tls.certificate_hosts.len()
        invariant
            i <= tls.certificate_hosts@.len(),
            forall|name: Seq<char>| #[trigger]
                probes@.contains(name) <==> (name == domain@ || name == tls.open_host@ || exists|k: int|
                    0 <= k < i && name == probe_of(#[trigger] tls.certificate_hosts@[k]@)),
        decreases tls.certificate_hosts@.len() - i,
    {
        let host = &tls.certificate_hosts[i];
        let probe = match strip_prefix(host, "*.") {
            Some(rest) => concat2("aster-dns-probe.", &rest),
            None => host.clone(),
        };
        assert(probe@ == probe_of(tls.certificate_hosts@[i as int]@));
        probes.insert(probe);
        i += 1;
    }
    let mut j: usize = 0;
    while j < tls.routes.len()
        invariant
            j <= tls.routes@.len(),
            forall|name: Seq<char>| #[trigger]
                probes@.contains(name) <==> (name == domain@ || name == tls.open_host@ || (exists|k: int|
                    0 <= k < tls.certificate_hosts@.len() && name == probe_of(#[trigger] tls.certificate_hosts@[k]@))
                    || (exists|k: int|
                    0 <= k < j && (#[trigger] tls.routes@[k]).open_host is Some && tls.routes@[k].open_host->0@ == name)),
        decreases tls.routes@.len() - j,
    {
        let ghost before = probes@;
        if let Some(host) = &tls.routes[j].open_host {
            assert(tls.routes@[j as int].open_host->0@ == host@);
            probes.insert(host.clone());
        }
        j += 1;
    }
    probes
}

/// What is said of a name that does not resolve to this machine.
pub open spec fn dns_failure(probe: Seq<char>, domain: Seq<char>) -> Seq<char> {
    "TLS hostname '"@ + probe
        + "' does not resolve to loopback. Configure dnsmasq and the OS resolver, then flush Chrome's DNS cache. Fish setup:\n  brew install dnsmasq\n  set DNSMASQ_CONF (brew --prefix)/etc/dnsmasq.conf\n  grep -qxF 'address=/."@
        + domain + "/127.0.0.1' \"$DNSMASQ_CONF\"; or printf '\\naddress=/."@ + domain
        + "/127.0.0.1\\n' | sudo tee -a \"$DNSMASQ_CONF\"\n  sudo brew services restart dnsmasq\n  sudo mkdir -p /etc/resolver\n  printf 'nameserver 127.0.0.1\\nport 53\\n' | sudo tee /etc/resolver/"@
        + domain
        + "\nThen fully quit Chrome; if Secure DNS bypasses the OS resolver, disable it for local testing."@
}

/// What is said of a name that does not resolve to this machine.
pub fn dns_failure_text(probe: &str, domain: &str) -> (text: String)
    ensures
        text@ == dns_failure(probe@, domain@),
{
    let mut text = concat2("TLS hostname '", probe);
    text.append(
        "' does not resolve to loopback. Configure dnsmasq and the OS resolver, then flush Chrome's DNS cache. Fish setup:\n  brew install dnsmasq\n  set DNSMASQ_CONF (brew --prefix)/etc/dnsmasq.conf\n  grep -qxF 'address=/.",
    );
    text.append(domain);
    text.append("/127.0.0.1' \"$DNSMASQ_CONF\"; or printf '\\naddress=/.");
    text.append(domain);
    text.append(
        "/127.0.0.1\\n' | sudo tee -a \"$DNSMASQ_CONF\"\n  sudo brew services restart dnsmasq\n  sudo mkdir -p /etc/resolver\n  printf 'nameserver 127.0.0.1\\nport 53\\n' | sudo tee /etc/resolver/",
    );
    text.append(domain);
    text.append("\nThen fully quit Chrome; if Secure DNS bypasses the OS resolver, disable it for local testing.");
    text
}

/// The first name that does not resolve to this machine stops the proxy.
/// `local` tells for each name, in order, whether it does.
pub fn check_local_dns(probes: &Vec<String>, local: &Vec<bool>, domain: &str) -> (checked: Result<(), String>)
    requires
        probes@.len() == local@.len(),
    ensures
        match checked {
            Ok(_) => forall|i: int| 0 <= i < local@.len() ==> #[trigger] local@[i],
            Err(message) => exists|i: int|
                0 <= i < local@.len() && !(#[trigger] local@[i]) && message@ == dns_failure(probes@[i]@, domain@) && (
                forall|k: int| 0 <= k < i ==> #[trigger] local@[k]),
        },
{
    let mut i: usize = 0;
    while i < probes.len()
        invariant
            i <= probes@.len(),
            probes@.len() == local@.len(),
            forall|k: int| 0 <= k < i ==> #[trigger] local@[k],
        decreases probes@.len() - i,
    {
        if !local[i] {
            return Err(dns_failure_text(&probes[i], domain));
        }
        i += 1;
    }
    Ok(())
}

// ---------------------------------------------------------------------------
// Requests
// ---------------------------------------------------------------------------

/// What becomes of a request.
#[derive(Debug)]
pub enum ProxyDecision {
    /// It has no host
    MissingHost,
    /// No route is for its host
    UnknownHost,
    /// It goes to a port, for a host
    Forward { hostname: String, port: u16 },
}

/// Find out where a request goes.
pub fn route_request(host: Option<&str>, routes: &[ResolvedRoute]) -> (decision: ProxyDecision)
    ensures
        ({
            let name = match host {
                Some(host) => plain_host(host@),
                None => None,
            };
            match decision {
                ProxyDecision::MissingHost => name is None,
                ProxyDecision::UnknownHost => name is Some && forall|i: int|
                    0 <= i < routes@.len() ==> !selects(#[trigger] route_view(routes@[i]), lowered(name->0)),
                ProxyDecision::Forward { hostname, port } => name is Some && hostname@ == lowered(name->0) && exists|
                    at: int,
                |
                    0 <= at < routes@.len() && selects(#[trigger] route_view(routes@[at]), hostname@)
                        && routes@[at].port == port && (forall|i: int|
                        0 <= i < at ==> !selects(#[trigger] route_view(routes@[i]), hostname@)),
            }
        }),
{
    let name = match host {
        Some(host) => hostname_without_port(host),
        None => None,
    };
    match name {
        None => ProxyDecision::MissingHost,
        Some(name) => {
            let hostname = lower_text(&name);
            match match_route(&hostname, routes) {
                None => ProxyDecision::UnknownHost,
                Some(port) => ProxyDecision::Forward { hostname, port },
            }
        },
    }
}

/// One of the words of a `Connection` header asks for an upgrade.
pub open spec fn names_upgrade(connection: Seq<char>) -> bool {
    exists|i: int|
        0 <= i < split_on(connection, ',').len() && lowered(trimmed(#[trigger] split_on(connection, ',')[i]))
            == "upgrade"@
}

/// Whether a request asks for an upgrade of its connection.
pub fn upgrade_requested(has_upgrade: bool, connection: Option<&str>) -> (requested: bool)
    ensures
        requested == (has_upgrade && connection is Some && names_upgrade(connection->0@)),
{
    if !has_upgrade {
        return false;
    }
    match connection {
        None => false,
        Some(value) => {
            let words = split_text(value, ',');
            let ghost parts = split_on(value@, ',');
            let mut i: usize = 0;
            while i < words.len()
                invariant
                    i <= words@.len(),
                    texts(words@) == parts,
                    parts == split_on(value@, ','),
                    has_upgrade,
                    connection == Some(value),
                    forall|k: int| 0 <= k < i ==> lowered(trimmed(#[trigger] parts[k])) != "upgrade"@,
                decreases words@.len() - i,
            {
                assert(parts[i as int] == words@[i as int]@);
                if same_text(&lower_text(&trim_text(&words[i])), "upgrade") {
                    return true;
                }
                i += 1;
            }
            false
        },
    }
}

/// Where a request is sent on to.
pub fn upstream_uri(port: u16, path: Option<&str>) -> (uri: String)
    ensures
        uri@ == "http://127.0.0.1:"@ + decimal(port as nat) + (match path {
            Some(path) => path@,
            None => "/"@,
        }),
{
    let path = match path {
        Some(path) => path,
        None => "/",
    };
    concat3("http://127.0.0.1:", &decimal_text(port as u128), path)
}

/// Each route is resolved in its turn, with the number of its own upstream port;
/// a port without a number refuses them all.
pub proof fn routes_keep_their_ports(routes: Seq<DevTlsRouteConfig>, ports: Map<Seq<char>, u16>)
    ensures
        resolved_routes(routes, ports) is Err <==> exists|i: int|
            0 <= i < routes.len() && !ports.contains_key((#[trigger] routes[i]).upstream_port@),
        resolved_routes(routes, ports) matches Ok(views) ==> views.len() == routes.len() && forall|i: int|
            0 <= i < routes.len() ==> views[i] == resolved_route(
                #[trigger] routes[i],
                ports[routes[i].upstream_port@],
            ),
    decreases routes.len(),
{
    if routes.len() > 0 {
        let front = routes.drop_last();
        routes_keep_their_ports(front, ports);
        assert(routes[routes.len() - 1] == routes.last());
        assert(forall|i: int| 0 <= i < front.len() ==> #[trigger] front[i] == routes[i]);
        if resolved_routes(front, ports) is Err {
            let i = choose|i: int| 0 <= i < front.len() && !ports.contains_key((#[trigger] front[i]).upstream_port@);
            assert(!ports.contains_key(routes[i].upstream_port@));
        } else {
            assert forall|i: int| 0 <= i < front.len() implies ports.contains_key((#[trigger] routes[i]).upstream_port@) by {
                assert(front[i] == routes[i]);
            }
            if let Ok(views) = resolved_routes(routes, ports) {
                let before = resolved_routes(front, ports)->Ok_0;
                assert forall|i: int| 0 <= i < routes.len() implies views[i] == resolved_route(
                    #[trigger] routes[i],
                    ports[routes[i].upstream_port@],
                ) by {
                    if i < front.len() {
                        assert(views[i] == before[i]);
                        assert(front[i] == routes[i]);
                    }
                }
            }
        }
    }
}

/// A host is known without its port and without the white space around it.
pub proof fn hosts_lose_their_port(host: Seq<char>, port: Seq<char>)
    requires
        host.len() > 0,
        !host.contains(':'),
        !white_space(host.first()),
        !white_space(host.last()),
        port.len() > 0,
        !white_space(port.last()),
    ensures
        plain_host(host) == Some(host),
        plain_host(host + ":"@ + port) == Some(host),
{
    reveal_strlit(":");
    let at = host.len() as int;
    let all = host + ":"@ + port;
    assert(all.first() == host.first());
    assert(all.last() == port.last());
    trimming_spares_the_rest(host);
    trimming_spares_the_rest(all);
    assert forall|j: int| 0 <= j < at implies host[j] != ':' && all[j] != ':' by {
        assert(host.contains(host[j]));
    }
    split_first_none(host, ':');
    split_first_at(all, ':', at);
    assert(all.take(at) =~= host);
}

/// An upgrade is asked for by one of the words between commas, whatever the others
/// are, and in whatever case it is written.
pub proof fn one_word_asks_for_an_upgrade(one: Seq<char>, two: Seq<char>, word: Seq<char>)
    requires
        !word.contains(','),
    ensures
        names_upgrade(one + ","@ + two) <==> names_upgrade(one) || names_upgrade(two),
        names_upgrade(word) <==> lowered(trimmed(word)) == "upgrade"@,
{
    reveal_strlit(",");
    let all = one + ","@ + two;
    assert(all =~= one + seq![','] + two);
    split_in_turn(one, two, ',');
    split_of_one_part(word, ',');
    let first = split_on(one, ',');
    let second = split_on(two, ',');
    let parts = split_on(all, ',');
    assert(parts == first + second);
    if names_upgrade(one) {
        let i = choose|i: int| 0 <= i < first.len() && lowered(trimmed(#[trigger] first[i])) == "upgrade"@;
        assert(parts[i] == first[i]);
    }
    if names_upgrade(two) {
        let i = choose|i: int| 0 <= i < second.len() && lowered(trimmed(#[trigger] second[i])) == "upgrade"@;
        assert(parts[first.len() + i] == second[i]);
    }
    if names_upgrade(all) {
        let i = choose|i: int| 0 <= i < parts.len() && lowered(trimmed(#[trigger] parts[i])) == "upgrade"@;
        if i < first.len() {
            assert(first[i] == parts[i]);
        } else {
            assert(second[i - first.len()] == parts[i]);
        }
    }
    assert(split_on(word, ',')[0] == word);
}

/// The name of an edge never leads out of its directory.
pub proof fn edges_lead_nowhere_else(one: Seq<char>, two: Seq<char>)
    ensures
        !is_edge_name(Seq::empty()),
        !is_edge_name("/"@ + one),
        !is_edge_name(one + "/"@ + ".."@),
        !is_edge_name(".."@ + "/"@ + two),
        !is_edge_name(one + "/"@ + ".."@ + "/"@ + two),
{
    reveal_strlit("/");
    reveal_strlit("..");
    assert(("/"@ + one)[0] == '/');
    assert forall|i: int| 0 <= i < ".."@.len() implies ".."@[i] != '/' by {}
    split_of_one_part(".."@, '/');
    let first = one + "/"@ + ".."@;
    let second = ".."@ + "/"@ + two;
    let third = first + "/"@ + two;
    assert(first =~= one + seq!['/'] + ".."@);
    assert(second =~= ".."@ + seq!['/'] + two);
    assert(third =~= first + seq!['/'] + two);
    split_in_turn(one, ".."@, '/');
    split_in_turn(".."@, two, '/');
    split_in_turn(first, two, '/');
    let front = split_on(one, '/');
    assert(split_on(first, '/')[front.len() as int] == ".."@);
    assert(split_on(second, '/')[0] == ".."@);
    assert(split_on(third, '/')[front.len() as int] == ".."@);
}

/// Ordering keeps the routes that there are, and adds none.
pub proof fn ordering_keeps_the_routes(ordered: Seq<RouteView>, routes: Seq<RouteView>, route: RouteView)
    requires
        is_ordered(ordered, routes),
    ensures
        ordered.contains(route) <==> routes.contains(route),
{
    let size = size_of_route(route);
    let fits = |route: RouteView| size_of_route(route) == size;
    assert(of_size(ordered, size) == of_size(routes, size));
    if ordered.contains(route) {
        let i = choose|i: int| 0 <= i < ordered.len() && ordered[i] == route;
        ordered.lemma_filter_contains(fits, i);
        routes.lemma_filter_contains_rev(fits, route);
    }
    if routes.contains(route) {
        let i = choose|i: int| 0 <= i < routes.len() && routes[i] == route;
        routes.lemma_filter_contains(fits, i);
        ordered.lemma_filter_contains_rev(fits, route);
    }
}

/// A wildcard of a certificate is looked up by a name below it, any other host by
/// itself.
pub proof fn hosts_are_looked_up(host: Seq<char>)
    ensures
        probe_of("*."@ + host) == "aster-dns-probe."@ + host,
        !"*."@.is_prefix_of(host) ==> probe_of(host) == host,
{
    reveal_strlit("*.");
    assert("*."@ =~= ("*."@ + host).take(2));
    assert("*."@.is_prefix_of("*."@ + host));
    assert(("*."@ + host).skip(2) =~= host);
}

/// The proxies among services are those with one configured, in order of name.
pub proof fn proxies_are_those_configured(services: Map<Seq<char>, DevServiceConfig>, names: Seq<Seq<char>>, name: Seq<char>)
    ensures
        proxy_names(services, names).contains(name) <==> names.contains(name) && services[name].tls_proxy is Some,
{
    let fits = |name: Seq<char>| services[name].tls_proxy is Some;
    let found = proxy_names(services, names);
    assert(found == names.filter(fits));
    if found.contains(name) {
        names.lemma_filter_contains_rev(fits, name);
        let i = choose|i: int| 0 <= i < found.len() && found[i] == name;
        names.lemma_filter_pred(fits, i);
    }
    if names.contains(name) && fits(name) {
        let i = choose|i: int| 0 <= i < names.len() && names[i] == name;
        names.lemma_filter_contains(fits, i);
    }
}

/// The domain, the host to open, each host of the certificate and each host to open a
/// route with are looked up, and no other name is.
pub proof fn all_hosts_are_looked_up(tls: DevTlsProxyConfig, domain: Seq<char>, name: Seq<char>)
    ensures
        is_probe(tls, domain, domain),
        is_probe(tls, domain, tls.open_host@),
        forall|i: int|
            0 <= i < tls.certificate_hosts@.len() ==> is_probe(tls, domain, probe_of(#[trigger] tls.certificate_hosts@[i]@)),
        forall|i: int|
            0 <= i < tls.routes@.len() && (#[trigger] tls.routes@[i]).open_host is Some ==> is_probe(
                tls,
                domain,
                tls.routes@[i].open_host->0@,
            ),
        name != domain && name != tls.open_host@ && (forall|i: int|
            0 <= i < tls.certificate_hosts@.len() ==> probe_of(#[trigger] tls.certificate_hosts@[i]@) != name) && (forall|i: int|
            0 <= i < tls.routes@.len() && (#[trigger] tls.routes@[i]).open_host is Some ==> tls.routes@[i].open_host->0@
                != name) ==> !is_probe(tls, domain, name),
{
}

/// A route for a host is for that host alone.
pub proof fn exact_routes_are_for_one_host(route: RouteView, hostname: Seq<char>)
    requires
        !route.is_suffix,
    ensures
        selects(route, hostname) <==> hostname == route.host,
{
}

/// A configured route is for its host, or for the hosts with its ending, in whatever
/// case they are written, and leads to its port.
pub proof fn routes_are_for_their_host(route: DevTlsRouteConfig, port: u16)
    ensures
        resolved_route(route, port).port == port,
        route.host matches Some(host) ==> resolved_route(route, port).host == lowered(host@) && !resolved_route(
            route,
            port,
        ).is_suffix,
        route.host is None && route.host_suffix is Some ==> resolved_route(route, port).host == lowered(
            route.host_suffix->0@,
        ) && resolved_route(route, port).is_suffix,
{
}

} // verus!
