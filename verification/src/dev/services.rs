//! Which services a run starts, and where they can be opened.
use vstd::prelude::*;
use crate::collections::{set_of, TextMap, TextSet, value_texts};
use crate::config::workspace::{DevServiceConfig, DevServiceGroupConfig, DevTlsRouteConfig, DevWorkspaceConfig};
use crate::numbers::{decimal, decimal_text};
use crate::text::{concat2, concat3, concat4, concat5, contains_item, join_texts, joined, same_text, texts};

verus! {

// ---------------------------------------------------------------------------
// Validation
// ---------------------------------------------------------------------------

/// What is wrong with a service.
pub open spec fn service_fault(name: Seq<char>, service: DevServiceConfig) -> Option<Seq<char>> {
    if service.target is None && service.tls_proxy is None {
        Some("service '"@ + name + "' must set target or tls_proxy"@)
    } else if service.tls_proxy is Some && service.port is None {
        Some("service '"@ + name + "' must set port for its tls_proxy"@)
    } else if service.tls_proxy is Some && !are_routes(service.tls_proxy->0.routes@) {
        Some("service '"@ + name + "' must set either host or host_suffix for each route of its tls_proxy"@)
    } else {
        None
    }
}

/// Each route is for a host or for the hosts with an ending, not both.
pub open spec fn are_routes(routes: Seq<DevTlsRouteConfig>) -> bool {
    forall|i: int|
        0 <= i < routes.len() ==> ((#[trigger] routes[i]).host is Some <==> routes[i].host_suffix is None)
}

fn check_routes(routes: &Vec<DevTlsRouteConfig>) -> (valid: bool)
    ensures
        valid == are_routes(routes@),
{
    let mut i: usize = 0;
    while i < routes.len()
        invariant
            i <= routes@.len(),
            forall|k: int| 0 <= k < i ==> ((#[trigger] routes@[k]).host is Some <==> routes@[k].host_suffix is None),
        decreases routes@.len() - i,
    {
        if routes[i].host.is_some() != routes[i].host_suffix.is_none() {
            assert(!((routes@[i as int]).host is Some <==> routes@[i as int].host_suffix is None));
            return false;
        }
        i += 1;
    }
    true
}

/// What is wrong with the first service that something is wrong with.
pub open spec fn services_fault(services: Map<Seq<char>, DevServiceConfig>, names: Seq<Seq<char>>) -> Option<Seq<char>>
    decreases names.len(),
{
    if names.len() == 0 {
        None
    } else {
        match services_fault(services, names.drop_last()) {
            Some(fault) => Some(fault),
            None => service_fault(names.last(), services[names.last()]),
        }
    }
}

/// What is wrong with the members of a group.
pub open spec fn members_fault(
    services: Map<Seq<char>, DevServiceConfig>,
    group: Seq<char>,
    members: Seq<Seq<char>>,
) -> Option<Seq<char>>
    decreases members.len(),
{
    if members.len() == 0 {
        None
    } else {
        match members_fault(services, group, members.drop_last()) {
            Some(fault) => Some(fault),
            None => if services.contains_key(members.last()) {
                None
            } else {
                Some("service group '"@ + group + "' references unknown service '"@ + members.last() + "'"@)
            },
        }
    }
}

/// What is wrong with the first group that something is wrong with.
pub open spec fn groups_fault(
    services: Map<Seq<char>, DevServiceConfig>,
    groups: Map<Seq<char>, DevServiceGroupConfig>,
    names: Seq<Seq<char>>,
) -> Option<Seq<char>>
    decreases names.len(),
{
    if names.len() == 0 {
        None
    } else {
        match groups_fault(services, groups, names.drop_last()) {
            Some(fault) => Some(fault),
            None => members_fault(services, names.last(), texts(groups[names.last()].service_list())),
        }
    }
}

/// What is wrong with the configuration of the services.
pub open spec fn dev_fault(config: DevWorkspaceConfig) -> Option<Seq<char>> {
    match services_fault(config.services@, config.services.keys()) {
        Some(fault) => Some(fault),
        None => groups_fault(config.services@, config.service_groups@, config.service_groups.keys()),
    }
}

fn check_members(config: &DevWorkspaceConfig, group: &str, members: &Vec<String>) -> (valid: Result<(), String>)
    ensures
        match valid {
            Ok(_) => members_fault(config.services@, group@, texts(members@)) is None,
            Err(message) => members_fault(config.services@, group@, texts(members@)) == Some(message@),
        },
{
    let ghost all = texts(members@);
    let mut fault: Option<String> = None;
    let mut i: usize = 0;
    assert(all.take(0) =~= Seq::<Seq<char>>::empty());
    while i < members.len()
        invariant
            i <= members@.len(),
            all == texts(members@),
            fault is Some <==> members_fault(config.services@, group@, all.take(i as int)) is Some,
            fault matches Some(message) ==> members_fault(config.services@, group@, all.take(i as int)) == Some(
                message@,
            ),
        decreases members@.len() - i,
    {
        proof {
            assert(all.take(i + 1).drop_last() =~= all.take(i as int));
            assert(all.take(i + 1).last() == members@[i as int]@);
        }
        if fault.is_none() && !config.services.contains_key(&members[i]) {
            fault = Some(concat5("service group '", group, "' references unknown service '", &members[i], "'"));
        }
        i += 1;
    }
    assert(all.take(all.len() as int) =~= all);
    match fault {
        Some(message) => Err(message),
        None => Ok(()),
    }
}

impl DevWorkspaceConfig {
    /// Check that each service can be started and that the groups are made of
    /// services.
    pub fn validate(&self) -> (valid: Result<(), String>)
        ensures
            match valid {
                Ok(_) => dev_fault(*self) is None,
                Err(message) => dev_fault(*self) == Some(message@),
            },
    {
        let ghost names = self.services.keys();
        let count = self.services.len();
        let mut fault: Option<String> = None;
        let mut i: usize = 0;
        assert(names.take(0) =~= Seq::<Seq<char>>::empty());
        while i < count
            invariant
                i <= count,
                count == names.len(),
                names == self.services.keys(),
                fault is Some <==> services_fault(self.services@, names.take(i as int)) is Some,
                fault matches Some(message) ==> services_fault(self.services@, names.take(i as int)) == Some(message@),
            decreases count - i,
        {
            proof {
                assert(names.take(i + 1).drop_last() =~= names.take(i as int));
                assert(names.take(i + 1).last() == names[i as int]);
            }
            if fault.is_none() {
                let service = self.services.value_at(i);
                if service.target.is_none() && service.tls_proxy.is_none() {
                    fault = Some(concat3("service '", self.services.key_at(i), "' must set target or tls_proxy"));
                } else if service.tls_proxy.is_some() && service.port.is_none() {
                    fault = Some(concat3("service '", self.services.key_at(i), "' must set port for its tls_proxy"));
                } else if let Some(proxy) = &service.tls_proxy {
                    if !check_routes(&proxy.routes) {
                        fault = Some(
                            concat3(
                                "service '",
                                self.services.key_at(i),
                                "' must set either host or host_suffix for each route of its tls_proxy",
                            ),
                        );
                    }
                }
            }
            i += 1;
        }
        assert(names.take(names.len() as int) =~= names);
        if let Some(message) = fault {
            return Err(message);
        }
        let ghost groups = self.service_groups.keys();
        let total = self.service_groups.len();
        let mut wrong: Option<String> = None;
        let mut j: usize = 0;
        assert(groups.take(0) =~= Seq::<Seq<char>>::empty());
        while j < total
            invariant
                j <= total,
                total == groups.len(),
                groups == self.service_groups.keys(),
                wrong is Some <==> groups_fault(self.services@, self.service_groups@, groups.take(j as int)) is Some,
                wrong matches Some(message) ==> groups_fault(
                    self.services@,
                    self.service_groups@,
                    groups.take(j as int),
                ) == Some(message@),
            decreases total - j,
        {
            proof {
                assert(groups.take(j + 1).drop_last() =~= groups.take(j as int));
                assert(groups.take(j + 1).last() == groups[j as int]);
            }
            if wrong.is_none() {
                let group = self.service_groups.value_at(j);
                if let Err(message) = check_members(self, self.service_groups.key_at(j), group.services()) {
                    wrong = Some(message);
                }
            }
            j += 1;
        }
        assert(groups.take(groups.len() as int) =~= groups);
        match wrong {
            Some(message) => Err(message),
            None => Ok(()),
        }
    }
}

proof fn valid_services(services: Map<Seq<char>, DevServiceConfig>, names: Seq<Seq<char>>, name: Seq<char>)
    requires
        services_fault(services, names) is None,
        names.contains(name),
    ensures
        service_fault(name, services[name]) is None,
    decreases names.len(),
{
    let i = choose|i: int| 0 <= i < names.len() && names[i] == name;
    if i < names.len() - 1 {
        assert(names.drop_last()[i] == name);
        valid_services(services, names.drop_last(), name);
    }
}

proof fn valid_members(
    services: Map<Seq<char>, DevServiceConfig>,
    group: Seq<char>,
    members: Seq<Seq<char>>,
    member: Seq<char>,
)
    requires
        members_fault(services, group, members) is None,
        members.contains(member),
    ensures
        services.contains_key(member),
    decreases members.len(),
{
    let i = choose|i: int| 0 <= i < members.len() && members[i] == member;
    if i < members.len() - 1 {
        assert(members.drop_last()[i] == member);
        valid_members(services, group, members.drop_last(), member);
    }
}

proof fn valid_groups(
    services: Map<Seq<char>, DevServiceConfig>,
    groups: Map<Seq<char>, DevServiceGroupConfig>,
    names: Seq<Seq<char>>,
    name: Seq<char>,
)
    requires
        groups_fault(services, groups, names) is None,
        names.contains(name),
    ensures
        members_fault(services, name, texts(groups[name].service_list())) is None,
    decreases names.len(),
{
    let i = choose|i: int| 0 <= i < names.len() && names[i] == name;
    if i < names.len() - 1 {
        assert(names.drop_last()[i] == name);
        valid_groups(services, groups, names.drop_last(), name);
    }
}

/// In a valid configuration a service has a target or a proxy with a port and
/// routes, and the members of groups are services.
pub proof fn valid_config_facts(config: DevWorkspaceConfig, name: Seq<char>, group: Seq<char>)
    requires
        dev_fault(config) is None,
    ensures
        config.services@.contains_key(name) ==> service_fault(name, config.services@[name]) is None,
        config.service_groups@.contains_key(group) && texts(
            config.service_groups@[group].service_list(),
        ).contains(name) ==> config.services@.contains_key(name),
{
    if config.services@.contains_key(name) {
        valid_services(config.services@, config.services.keys(), name);
    }
    if config.service_groups@.contains_key(group) {
        valid_groups(config.services@, config.service_groups@, config.service_groups.keys(), group);
        if texts(config.service_groups@[group].service_list()).contains(name) {
            valid_members(config.services@, group, texts(config.service_groups@[group].service_list()), name);
        }
    }
}

// ---------------------------------------------------------------------------
// Selection
// ---------------------------------------------------------------------------

/// The members of a group.
pub open spec fn members_of(config: DevWorkspaceConfig, group: Seq<char>) -> Set<Seq<char>> {
    texts(config.service_groups@[group].service_list()).to_set()
}

/// Some group has the service.
pub open spec fn is_grouped(config: DevWorkspaceConfig, name: Seq<char>) -> bool {
    exists|group: Seq<char>| #[trigger]
        config.service_groups@.contains_key(group) && members_of(config, group).contains(name)
}

/// What is said of a group that does not exist.
pub open spec fn unknown_group_text(group: Seq<char>, known: Seq<Seq<char>>) -> Seq<char> {
    if known.len() == 0 {
        "unknown service group '"@ + group + "'; no service groups are configured"@
    } else {
        "unknown service group '"@ + group + "'; configured groups: "@ + joined(known, ", "@)
    }
}

/// The services of a run: those of the group, or without one those that no
/// group has and those of the group `main`.
pub open spec fn selected_services(config: DevWorkspaceConfig, group: Option<Seq<char>>) -> Result<
    Set<Seq<char>>,
    Seq<char>,
> {
    match dev_fault(config) {
        Some(fault) => Err(fault),
        None => match group {
            Some(name) => if config.service_groups@.contains_key(name) {
                Ok(members_of(config, name))
            } else {
                Err(unknown_group_text(name, config.service_groups.keys()))
            },
            None => Ok(
                Set::new(
                    |name: Seq<char>|
                        (config.services@.contains_key(name) && !is_grouped(config, name)) || (
                        config.service_groups@.contains_key("main"@) && members_of(config, "main"@).contains(name)),
                ),
            ),
        },
    }
}

fn grouped(config: &DevWorkspaceConfig, name: &str) -> (found: bool)
    ensures
        found == is_grouped(*config, name@),
{
    let ghost groups = config.service_groups.keys();
    let count = config.service_groups.len();
    let mut i: usize = 0;
    while i < count
        invariant
            i <= count,
            count == groups.len(),
            groups == config.service_groups.keys(),
            groups.to_set() == config.service_groups@.dom(),
            forall|k: int| 0 <= k < i ==> !members_of(*config, #[trigger] groups[k]).contains(name@),
        decreases count - i,
    {
        let members = config.service_groups.value_at(i).services();
        if contains_item(members, name) {
            proof {
                assert(groups.to_set().contains(groups[i as int]));
                assert(config.service_groups@.contains_key(groups[i as int]));
                assert(members_of(*config, groups[i as int]).contains(name@));
            }
            return true;
        }
        assert(!members_of(*config, groups[i as int]).contains(name@));
        i += 1;
    }
    proof {
        assert forall|group: Seq<char>| #[trigger] config.service_groups@.contains_key(group) implies !members_of(
            *config,
            group,
        ).contains(name@) by {
            assert(groups.to_set().contains(group));
            let k = choose|k: int| 0 <= k < groups.len() && groups[k] == group;
            assert(!members_of(*config, groups[k]).contains(name@));
        }
    }
    false
}

fn group_names(config: &DevWorkspaceConfig) -> (names: Vec<String>)
    ensures
        texts(names@) == config.service_groups.keys(),
{
    let mut names: Vec<String> = Vec::new();
    let count = config.service_groups.len();
    let mut i: usize = 0;
    while i < count
        invariant
            i <= count,
            count == config.service_groups.keys().len(),
            names@.len() == i,
            forall|k: int| 0 <= k < i ==> (#[trigger] names@[k])@ == config.service_groups.keys()[k],
        decreases count - i,
    {
        names.push(config.service_groups.key_at(i).clone());
        i += 1;
    }
    assert(texts(names@) =~= config.service_groups.keys());
    names
}

/// The services of a run: those of the group, or without one those that no
/// group has and those of the group `main`.
pub fn select_service_names(config: &DevWorkspaceConfig, group: Option<&str>) -> (selected: Result<TextSet, String>)
    ensures
        ({
            let wanted = selected_services(
                *config,
                match group {
                    Some(name) => Some(name@),
                    None => None,
                },
            );
            match selected {
                Ok(names) => wanted == Ok::<Set<Seq<char>>, Seq<char>>(names@),
                Err(message) => wanted == Err::<Set<Seq<char>>, Seq<char>>(message@),
            }
        }),
        selected matches Ok(names) ==> names@.subset_of(config.services@.dom()) && dev_fault(*config) is None,
{
    if let Err(message) = config.validate() {
        return Err(message);
    }
    if let Some(name) = group {
        return match config.service_groups.get(name) {
            Some(found) => {
                let names = set_of(found.services());
                proof {
                    assert(names@ =~= members_of(*config, name@));
                    assert forall|member: Seq<char>| names@.contains(member) implies #[trigger] config.services@.dom().contains(
                        member,
                    ) by {
                        valid_config_facts(*config, member, name@);
                    }
                }
                Ok(names)
            },
            None => {
                let known = group_names(config);
                assert(texts(known@).len() == known@.len());
                if known.len() == 0 {
                    Err(concat3("unknown service group '", name, "'; no service groups are configured"))
                } else {
                    Err(
                        concat4(
                            "unknown service group '",
                            name,
                            "'; configured groups: ",
                            &join_texts(&known, ", "),
                        ),
                    )
                }
            },
        };
    }
    let mut names = match config.service_groups.get("main") {
        Some(found) => set_of(found.services()),
        None => TextSet::new(),
    };
    let ghost first = names@;
    proof {
        assert forall|name: Seq<char>| #[trigger]
            first.contains(name) <==> config.service_groups@.contains_key("main"@) && members_of(
            *config,
            "main"@,
        ).contains(name) by {}
    }
    let ghost keys = config.services.keys();
    let count = config.services.len();
    let mut i: usize = 0;
    while i < count
        invariant
            i <= count,
            count == keys.len(),
            keys == config.services.keys(),
            keys.to_set() == config.services@.dom(),
            forall|name: Seq<char>| #[trigger]
                names@.contains(name) <==> first.contains(name) || exists|k: int|
                    0 <= k < i && #[trigger] keys[k] == name && !is_grouped(*config, name),
        decreases count - i,
    {
        let ghost before = names@;
        let key = config.services.key_at(i);
        if !grouped(config, key) {
            let _ = names.insert(key.clone());
        }
        proof {
            assert forall|name: Seq<char>| #[trigger]
                names@.contains(name) <==> first.contains(name) || exists|k: int|
                    0 <= k < i + 1 && #[trigger] keys[k] == name && !is_grouped(*config, name) by {
                assert(before.contains(name) <==> first.contains(name) || exists|k: int|
                    0 <= k < i && #[trigger] keys[k] == name && !is_grouped(*config, name));
                if name == key@ && !is_grouped(*config, name) {
                    assert(keys[i as int] == name);
                }
            }
        }
        i += 1;
    }
    proof {
        let wanted = selected_services(*config, None)->Ok_0;
        assert forall|name: Seq<char>| #[trigger] names@.contains(name) <==> wanted.contains(name) by {
            if config.services@.contains_key(name) && !is_grouped(*config, name) {
                assert(keys.to_set().contains(name));
                let k = choose|k: int| 0 <= k < keys.len() && keys[k] == name;
                assert(keys[k] == name && !is_grouped(*config, name));
            }
            if exists|k: int| 0 <= k < keys.len() && #[trigger] keys[k] == name && !is_grouped(*config, name) {
                let k = choose|k: int| 0 <= k < keys.len() && #[trigger] keys[k] == name && !is_grouped(*config, name);
                assert(keys.to_set().contains(keys[k]));
            }
        }
        assert(names@ =~= wanted);
        assert forall|name: Seq<char>| names@.contains(name) implies #[trigger] config.services@.dom().contains(name) by {
            valid_config_facts(*config, name, "main"@);
        }
    }
    Ok(names)
}

// ---------------------------------------------------------------------------
// Where services are opened
// ---------------------------------------------------------------------------

/// The part of a URL that names a host and a port, where it is not the usual one.
pub open spec fn authority(host: Seq<char>, port: u16) -> Seq<char> {
    if port == 443 {
        host
    } else {
        host + ":"@ + decimal(port as nat)
    }
}

/// The part of a URL that names a host and a port, where it is not the usual one.
pub fn authority_text(host: &str, port: u16) -> (text: String)
    ensures
        text@ == authority(host@, port),
{
    if port == 443 {
        host.to_owned()
    } else {
        concat3(host, ":", &decimal_text(port as u128))
    }
}

/// What a route publishes: its upstream port and the URL to open it with.
pub open spec fn route_url(route: DevTlsRouteConfig, port: u16) -> Option<(Seq<char>, Seq<char>)> {
    let host = if route.open_host is Some {
        route.open_host
    } else {
        route.host
    };
    match host {
        Some(name) => Some((route.upstream_port@, "https://"@ + authority(name@, port))),
        None => None,
    }
}

/// What routes publish, in order.
pub open spec fn route_urls(routes: Seq<DevTlsRouteConfig>, port: u16) -> Seq<(Seq<char>, Seq<char>)>
    decreases routes.len(),
{
    if routes.len() == 0 {
        Seq::empty()
    } else {
        let before = route_urls(routes.drop_last(), port);
        match route_url(routes.last(), port) {
            Some(entry) => before.push(entry),
            None => before,
        }
    }
}

/// What the proxies among the selected services publish, in order of name.
pub open spec fn published(
    services: Map<Seq<char>, DevServiceConfig>,
    names: Seq<Seq<char>>,
    selected: Set<Seq<char>>,
    ports: Map<Seq<char>, u16>,
) -> Seq<(Seq<char>, Seq<char>)>
    decreases names.len(),
{
    if names.len() == 0 {
        Seq::empty()
    } else {
        let before = published(services, names.drop_last(), selected, ports);
        let service = services[names.last()];
        if selected.contains(names.last()) && service.tls_proxy is Some {
            before + route_urls(service.tls_proxy->0.routes@, ports[service.port->0@])
        } else {
            before
        }
    }
}

/// One URL for each upstream port, or what is said where two differ.
pub open spec fn open_urls(entries: Seq<(Seq<char>, Seq<char>)>) -> Result<Map<Seq<char>, Seq<char>>, Seq<char>>
    decreases entries.len(),
{
    if entries.len() == 0 {
        Ok(Map::empty())
    } else {
        match open_urls(entries.drop_last()) {
            Err(message) => Err(message),
            Ok(before) => {
                let entry = entries.last();
                if before.contains_key(entry.0) && before[entry.0] != entry.1 {
                    Err(
                        "TLS routes publish multiple open hosts for upstream port '"@ + entry.0 + "': "@
                            + before[entry.0] + " and "@ + entry.1,
                    )
                } else {
                    Ok(before.insert(entry.0, entry.1))
                }
            },
        }
    }
}

/// The pairs of strings as strings of characters.
pub open spec fn pair_texts(pairs: Seq<(String, String)>) -> Seq<(Seq<char>, Seq<char>)> {
    pairs.map_values(|pair: (String, String)| (pair.0@, pair.1@))
}

fn add_route_urls(routes: &Vec<DevTlsRouteConfig>, port: u16, entries: &mut Vec<(String, String)>)
    ensures
        pair_texts(final(entries)@) == pair_texts(old(entries)@) + route_urls(routes@, port),
{
    let ghost start = pair_texts(entries@);
    let mut i: usize = 0;
    assert(routes@.take(0) =~= Seq::<DevTlsRouteConfig>::empty());
    assert(pair_texts(entries@) =~= start + route_urls(routes@.take(0), port));
    while i < routes.len()
        invariant
            i <= routes@.len(),
            pair_texts(entries@) == start + route_urls(routes@.take(i as int), port),
        decreases routes@.len() - i,
    {
        let route = &routes[i];
        let ghost before = pair_texts(entries@);
        proof {
            assert(routes@.take(i + 1).drop_last() =~= routes@.take(i as int));
            assert(routes@.take(i + 1).last() == *route);
        }
        let host = match &route.open_host {
            Some(name) => Some(name),
            None => route.host.as_ref(),
        };
        if let Some(name) = host {
            let url = concat2("https://", &authority_text(name, port));
            let ghost entry = (route.upstream_port@, url@);
            entries.push((route.upstream_port.clone(), url));
            assert(pair_texts(entries@) =~= before.push(entry));
            assert(pair_texts(entries@) =~= start + route_urls(routes@.take(i + 1), port));
        }
        i += 1;
    }
    assert(routes@.take(routes@.len() as int) =~= routes@);
}

fn publish(entries: &Vec<(String, String)>) -> (urls: Result<TextMap<String>, String>)
    ensures
        match urls {
            Ok(map) => open_urls(pair_texts(entries@)) == Ok::<Map<Seq<char>, Seq<char>>, Seq<char>>(
                value_texts(map@),
            ),
            Err(message) => open_urls(pair_texts(entries@)) == Err::<Map<Seq<char>, Seq<char>>, Seq<char>>(message@),
        },
{
    let ghost all = pair_texts(entries@);
    let mut urls: TextMap<String> = TextMap::new();
    let mut i: usize = 0;
    assert(all.take(0) =~= Seq::<(Seq<char>, Seq<char>)>::empty());
    assert(value_texts(urls@) =~= Map::<Seq<char>, Seq<char>>::empty());
    while i < entries.len()
        invariant
            i <= entries@.len(),
            all == pair_texts(entries@),
            open_urls(all.take(i as int)) == Ok::<Map<Seq<char>, Seq<char>>, Seq<char>>(
                value_texts(urls@),
            ),
        decreases entries@.len() - i,
    {
        let ghost before = value_texts(urls@);
        proof {
            assert(all.take(i + 1).drop_last() =~= all.take(i as int));
            assert(all.take(i + 1).last() == (entries@[i as int].0@, entries@[i as int].1@));
        }
        if let Some(existing) = urls.get(&entries[i].0) {
            if !same_text(existing, &entries[i].1) {
                let front = concat3(
                    "TLS routes publish multiple open hosts for upstream port '",
                    &entries[i].0,
                    "': ",
                );
                let text = concat4(&front, existing, " and ", &entries[i].1);
                proof {
                    assert(text@ =~= "TLS routes publish multiple open hosts for upstream port '"@
                        + entries@[i as int].0@ + "': "@ + existing@ + " and "@ + entries@[i as int].1@);
                    conflict_stays(all, i + 1);
                }
                return Err(text);
            }
        }
        urls.insert(entries[i].0.clone(), entries[i].1.clone());
        assert(value_texts(urls@) =~= before.insert(
            entries@[i as int].0@,
            entries@[i as int].1@,
        ));
        i += 1;
    }
    assert(all.take(all.len() as int) =~= all);
    Ok(urls)
}

proof fn conflict_stays(entries: Seq<(Seq<char>, Seq<char>)>, count: int)
    requires
        0 <= count <= entries.len(),
        open_urls(entries.take(count)) is Err,
    ensures
        open_urls(entries) == open_urls(entries.take(count)),
    decreases entries.len() - count,
{
    if count == entries.len() {
        assert(entries.take(count) =~= entries);
    } else {
        assert(entries.take(count + 1).drop_last() =~= entries.take(count));
        conflict_stays(entries, count + 1);
    }
}

/// The selected proxies have a port that has a number.
pub open spec fn proxies_have_ports(
    config: DevWorkspaceConfig,
    selected: Set<Seq<char>>,
    ports: Map<Seq<char>, u16>,
) -> bool {
    forall|name: Seq<char>| #[trigger]
        config.services@.contains_key(name) && selected.contains(name) && config.services@[name].tls_proxy is Some
            ==> config.services@[name].port is Some && ports.contains_key(config.services@[name].port->0@)
}

/// Whether the selected proxies have a port that has a number.
pub fn proxies_resolved(config: &DevWorkspaceConfig, selected: &TextSet, ports: &TextMap<u16>) -> (resolved: bool)
    ensures
        resolved == proxies_have_ports(*config, selected@, ports@),
{
    let ghost names = config.services.keys();
    let count = config.services.len();
    let mut i: usize = 0;
    while i < count
        invariant
            i <= count,
            count == names.len(),
            names == config.services.keys(),
            names.to_set() == config.services@.dom(),
            forall|k: int|
                0 <= k < i && selected@.contains(#[trigger] names[k]) && config.services@[names[k]].tls_proxy is Some
                    ==> config.services@[names[k]].port is Some && ports@.contains_key(
                    config.services@[names[k]].port->0@,
                ),
        decreases count - i,
    {
        let name = config.services.key_at(i);
        let service = config.services.value_at(i);
        if selected.contains(name) && service.tls_proxy.is_some() {
            let known = match &service.port {
                Some(port) => ports.contains_key(port),
                None => false,
            };
            if !known {
                assert(config.services@.contains_key(name@));
                return false;
            }
        }
        i += 1;
    }
    proof {
        assert forall|name: Seq<char>| #[trigger]
            config.services@.contains_key(name) && selected@.contains(name)
                && config.services@[name].tls_proxy is Some implies config.services@[name].port is Some
            && ports@.contains_key(config.services@[name].port->0@) by {
            assert(names.to_set().contains(name));
            let k = choose|k: int| 0 <= k < names.len() && names[k] == name;
            assert(selected@.contains(names[k]));
        }
    }
    true
}

/// The URLs to open upstream services with, by their ports.
pub fn resolve_tls_open_urls(config: &DevWorkspaceConfig, selected: &TextSet, ports: &TextMap<u16>) -> (urls: Result<
    TextMap<String>,
    String,
>)
    requires
        proxies_have_ports(*config, selected@, ports@),
    ensures
        ({
            let wanted = open_urls(published(config.services@, config.services.keys(), selected@, ports@));
            match urls {
                Ok(map) => wanted == Ok::<Map<Seq<char>, Seq<char>>, Seq<char>>(
                    value_texts(map@),
                ),
                Err(message) => wanted == Err::<Map<Seq<char>, Seq<char>>, Seq<char>>(message@),
            }
        }),
{
    let mut entries: Vec<(String, String)> = Vec::new();
    let ghost names = config.services.keys();
    let count = config.services.len();
    let mut i: usize = 0;
    assert(names.take(0) =~= Seq::<Seq<char>>::empty());
    assert(pair_texts(entries@) =~= Seq::<(Seq<char>, Seq<char>)>::empty());
    while i < count
        invariant
            i <= count,
            count == names.len(),
            names == config.services.keys(),
            proxies_have_ports(*config, selected@, ports@),
            pair_texts(entries@) == published(config.services@, names.take(i as int), selected@, ports@),
        decreases count - i,
    {
        let name = config.services.key_at(i);
        let service = config.services.value_at(i);
        proof {
            assert(names.take(i + 1).drop_last() =~= names.take(i as int));
            assert(names.take(i + 1).last() == name@);
            assert(config.services@.contains_key(name@));
        }
        if selected.contains(name) {
            if let Some(proxy) = &service.tls_proxy {
                if let Some(port_name) = &service.port {
                    if let Some(port) = ports.get(port_name) {
                        add_route_urls(&proxy.routes, *port, &mut entries);
                    }
                }
            }
        }
        i += 1;
    }
    assert(names.take(names.len() as int) =~= names);
    publish(&entries)
}

/// Where something is wrong with services, the first of them is told of; where
/// nothing is, nothing is.
pub proof fn the_first_service_fault_is_told(
    services: Map<Seq<char>, DevServiceConfig>,
    names: Seq<Seq<char>>,
)
    ensures
        services_fault(services, names) is None <==> forall|i: int| 0 <= i < names.len() ==> service_fault(#[trigger] names[i], services[names[i]]) is None,
        services_fault(services, names) matches Some(fault) ==> exists|i: int|
            0 <= i < names.len() && service_fault(#[trigger] names[i], services[names[i]]) == Some(fault) && forall|j: int|
                0 <= j < i ==> service_fault(#[trigger] names[j], services[names[j]]) is None,
    decreases names.len(),
{
    if names.len() > 0 {
        let front = names.drop_last();
        the_first_service_fault_is_told(services, front);
        assert(forall|i: int| 0 <= i < front.len() ==> #[trigger] front[i] == names[i]);
        assert(names[names.len() - 1] == names.last());
        match services_fault(services, front) {
            Some(fault) => {
                let i = choose|i: int|
                    0 <= i < front.len() && service_fault(#[trigger] front[i], services[front[i]]) == Some(fault) && forall|j: int|
                        0 <= j < i ==> service_fault(#[trigger] front[j], services[front[j]]) is None;
                assert(service_fault(names[i], services[names[i]]) == Some(fault));
                assert forall|j: int| 0 <= j < i implies service_fault(#[trigger] names[j], services[names[j]]) is None by {
                    assert(front[j] == names[j]);
                }
            },
            None => {
                assert forall|i: int| 0 <= i < front.len() implies service_fault(#[trigger] names[i], services[names[i]]) is None by {
                    assert(front[i] == names[i]);
                }
            },
        }
    }
}

proof fn members_are_services(services: Map<Seq<char>, DevServiceConfig>, group: Seq<char>, members: Seq<Seq<char>>)
    ensures
        members_fault(services, group, members) is None <==> forall|i: int|
            0 <= i < members.len() ==> services.contains_key(#[trigger] members[i]),
    decreases members.len(),
{
    if members.len() > 0 {
        let front = members.drop_last();
        members_are_services(services, group, front);
        assert(members[members.len() - 1] == members.last());
        assert(forall|i: int| 0 <= i < front.len() ==> #[trigger] front[i] == members[i]);
        if members_fault(services, group, front) is None {
            assert forall|i: int| 0 <= i < front.len() implies services.contains_key(#[trigger] members[i]) by {
                assert(front[i] == members[i]);
            }
        } else {
            let i = choose|i: int| 0 <= i < front.len() && !services.contains_key(#[trigger] front[i]);
            assert(!services.contains_key(members[i]));
        }
    }
}

proof fn groups_have_services(
    services: Map<Seq<char>, DevServiceConfig>,
    groups: Map<Seq<char>, DevServiceGroupConfig>,
    names: Seq<Seq<char>>,
)
    ensures
        groups_fault(services, groups, names) is None <==> forall|i: int, k: int|
            0 <= i < names.len() && 0 <= k < groups[names[i]].service_list().len() ==> services.contains_key(
                (#[trigger] groups[names[i]].service_list()[k])@,
            ),
    decreases names.len(),
{
    if names.len() > 0 {
        let front = names.drop_last();
        let last = names.last();
        let members = groups[last].service_list();
        groups_have_services(services, groups, front);
        members_are_services(services, last, texts(members));
        assert(names[names.len() - 1] == last);
        assert(forall|i: int| 0 <= i < front.len() ==> #[trigger] front[i] == names[i]);
        if groups_fault(services, groups, front) is Some {
            let (i, k) = choose|i: int, k: int|
                0 <= i < front.len() && 0 <= k < groups[front[i]].service_list().len() && !services.contains_key(
                    (#[trigger] groups[front[i]].service_list()[k])@,
                );
            assert(!services.contains_key(groups[names[i]].service_list()[k]@));
        } else {
            if members_fault(services, last, texts(members)) is Some {
                let k = choose|k: int| 0 <= k < texts(members).len() && !services.contains_key(#[trigger] texts(members)[k]);
                assert(!services.contains_key(groups[names[names.len() - 1]].service_list()[k]@));
            } else {
                assert forall|i: int, k: int|
                    0 <= i < names.len() && 0 <= k < groups[names[i]].service_list().len() implies services.contains_key(
                    (#[trigger] groups[names[i]].service_list()[k])@,
                ) by {
                    if i < front.len() {
                        assert(front[i] == names[i]);
                        assert(services.contains_key(groups[front[i]].service_list()[k]@));
                    } else {
                        assert(services.contains_key(texts(members)[k]));
                    }
                }
            }
        }
    }
}

/// A configuration is valid where each service has a target or a proxy, each
/// proxy has a port, each of its routes a host or the ending of one but not both,
/// and each member of a group is a service; and only there.
pub proof fn valid_configurations(config: DevWorkspaceConfig)
    ensures
        dev_fault(config) is None <==> {
            &&& forall|i: int|
                0 <= i < config.services.keys().len() ==> {
                    let service = config.services@[#[trigger] config.services.keys()[i]];
                    &&& service.target is Some || service.tls_proxy is Some
                    &&& service.tls_proxy is Some ==> service.port is Some && forall|r: int|
                        0 <= r < service.tls_proxy->0.routes@.len() ==> ((#[trigger] service.tls_proxy->0.routes@[r]).host is Some)
                            != (service.tls_proxy->0.routes@[r].host_suffix is Some)
                }
            &&& forall|i: int, k: int|
                0 <= i < config.service_groups.keys().len() && 0 <= k
                    < config.service_groups@[config.service_groups.keys()[i]].service_list().len()
                    ==> config.services@.contains_key(
                    (#[trigger] config.service_groups@[config.service_groups.keys()[i]].service_list()[k])@,
                )
        },
{
    let names = config.services.keys();
    the_first_service_fault_is_told(config.services@, names);
    groups_have_services(config.services@, config.service_groups@, config.service_groups.keys());
    if services_fault(config.services@, names) is Some {
        let fault = services_fault(config.services@, names)->0;
        let i = choose|i: int|
            0 <= i < names.len() && service_fault(#[trigger] names[i], config.services@[names[i]]) == Some(fault)
                && forall|j: int| 0 <= j < i ==> service_fault(#[trigger] names[j], config.services@[names[j]]) is None;
        let service = config.services@[config.services.keys()[i]];
        if service.tls_proxy is Some && service.port is Some {
            let routes = service.tls_proxy->0.routes@;
            assert(!are_routes(routes));
            let r = choose|r: int|
                0 <= r < routes.len() && ((#[trigger] routes[r]).host is Some) == (routes[r].host_suffix is Some);
            assert(service.tls_proxy->0.routes@[r] == routes[r]);
        }
    } else {
        assert forall|i: int| 0 <= i < names.len() implies {
            let service = config.services@[#[trigger] config.services.keys()[i]];
            &&& service.target is Some || service.tls_proxy is Some
            &&& service.tls_proxy is Some ==> service.port is Some && forall|r: int|
                0 <= r < service.tls_proxy->0.routes@.len() ==> ((#[trigger] service.tls_proxy->0.routes@[r]).host is Some)
                    != (service.tls_proxy->0.routes@[r].host_suffix is Some)
        } by {
            assert(service_fault(names[i], config.services@[names[i]]) is None);
        }
    }
}

proof fn routes_publish(routes: Seq<DevTlsRouteConfig>, port: u16, entry: (Seq<char>, Seq<char>))
    ensures
        route_urls(routes, port).contains(entry) <==> exists|r: int|
            0 <= r < routes.len() && route_url(#[trigger] routes[r], port) == Some(entry),
    decreases routes.len(),
{
    if routes.len() > 0 {
        let front = routes.drop_last();
        let before = route_urls(front, port);
        let all = route_urls(routes, port);
        routes_publish(front, port, entry);
        assert(routes[routes.len() - 1] == routes.last());
        if before.contains(entry) {
            let k = choose|k: int| 0 <= k < before.len() && before[k] == entry;
            assert(all[k] == entry);
            let r = choose|r: int| 0 <= r < front.len() && route_url(#[trigger] front[r], port) == Some(entry);
            assert(routes[r] == front[r]);
        }
        if all.contains(entry) {
            let k = choose|k: int| 0 <= k < all.len() && all[k] == entry;
            if k < before.len() {
                assert(before.contains(before[k]));
            }
        }
        if exists|r: int| 0 <= r < routes.len() && route_url(#[trigger] routes[r], port) == Some(entry) {
            let r = choose|r: int| 0 <= r < routes.len() && route_url(#[trigger] routes[r], port) == Some(entry);
            if r < front.len() {
                assert(front[r] == routes[r]);
            } else {
                assert(all[before.len() as int] == entry);
            }
        }
    }
}

/// What is published is what the routes of the selected proxies publish, each with
/// the number of its proxy's port, and no more.
pub proof fn selected_proxies_publish(
    services: Map<Seq<char>, DevServiceConfig>,
    names: Seq<Seq<char>>,
    selected: Set<Seq<char>>,
    ports: Map<Seq<char>, u16>,
    entry: (Seq<char>, Seq<char>),
)
    ensures
        published(services, names, selected, ports).contains(entry) <==> exists|i: int, r: int|
            0 <= i < names.len() && selected.contains(names[i]) && services[names[i]].tls_proxy is Some && 0 <= r
                < services[names[i]].tls_proxy->0.routes@.len() && route_url(
                #[trigger] services[names[i]].tls_proxy->0.routes@[r],
                ports[services[names[i]].port->0@],
            ) == Some(entry),
    decreases names.len(),
{
    if names.len() > 0 {
        let front = names.drop_last();
        let last = names.last();
        let service = services[last];
        let before = published(services, front, selected, ports);
        let all = published(services, names, selected, ports);
        selected_proxies_publish(services, front, selected, ports, entry);
        assert(names[names.len() - 1] == last);
        assert(forall|i: int| 0 <= i < front.len() ==> #[trigger] front[i] == names[i]);
        let adds = selected.contains(last) && service.tls_proxy is Some;
        let port = ports[service.port->0@];
        if adds {
            routes_publish(service.tls_proxy->0.routes@, port, entry);
        }
        if before.contains(entry) {
            let k = choose|k: int| 0 <= k < before.len() && before[k] == entry;
            assert(all[k] == entry);
            let (i, r) = choose|i: int, r: int|
                0 <= i < front.len() && selected.contains(front[i]) && services[front[i]].tls_proxy is Some && 0 <= r
                    < services[front[i]].tls_proxy->0.routes@.len() && route_url(
                    #[trigger] services[front[i]].tls_proxy->0.routes@[r],
                    ports[services[front[i]].port->0@],
                ) == Some(entry);
            assert(names[i] == front[i]);
            assert(route_url(services[names[i]].tls_proxy->0.routes@[r], ports[services[names[i]].port->0@]) == Some(entry));
        }
        if all.contains(entry) {
            let k = choose|k: int| 0 <= k < all.len() && all[k] == entry;
            if k < before.len() {
                assert(before.contains(before[k]));
            } else {
                let own = route_urls(service.tls_proxy->0.routes@, port);
                assert(own.contains(own[k - before.len()]));
                let r = choose|r: int|
                    0 <= r < service.tls_proxy->0.routes@.len() && route_url(
                        #[trigger] service.tls_proxy->0.routes@[r],
                        port,
                    ) == Some(entry);
                assert(route_url(services[names[names.len() - 1]].tls_proxy->0.routes@[r], port) == Some(entry));
            }
        }
        if exists|i: int, r: int|
            0 <= i < names.len() && selected.contains(names[i]) && services[names[i]].tls_proxy is Some && 0 <= r
                < services[names[i]].tls_proxy->0.routes@.len() && route_url(
                #[trigger] services[names[i]].tls_proxy->0.routes@[r],
                ports[services[names[i]].port->0@],
            ) == Some(entry) {
            let (i, r) = choose|i: int, r: int|
                0 <= i < names.len() && selected.contains(names[i]) && services[names[i]].tls_proxy is Some && 0 <= r
                    < services[names[i]].tls_proxy->0.routes@.len() && route_url(
                    #[trigger] services[names[i]].tls_proxy->0.routes@[r],
                    ports[services[names[i]].port->0@],
                ) == Some(entry);
            if i < front.len() {
                assert(front[i] == names[i]);
                assert(route_url(services[front[i]].tls_proxy->0.routes@[r], ports[services[front[i]].port->0@])
                    == Some(entry));
            } else {
                let own = route_urls(service.tls_proxy->0.routes@, port);
                assert(route_url(service.tls_proxy->0.routes@[r], port) == Some(entry));
                assert(own.contains(entry));
                let k = choose|k: int| 0 <= k < own.len() && own[k] == entry;
                assert(all[before.len() + k] == entry);
            }
        }
    }
}

/// Each upstream port is opened where its entry says; two entries that differ are
/// refused, and nothing else is.
pub proof fn one_url_for_each_port(entries: Seq<(Seq<char>, Seq<char>)>)
    ensures
        open_urls(entries) is Err <==> exists|i: int, j: int|
            0 <= i < j < entries.len() && (#[trigger] entries[i]).0 == (#[trigger] entries[j]).0 && entries[i].1
                != entries[j].1,
        open_urls(entries) matches Ok(urls) ==> {
            &&& forall|i: int|
                0 <= i < entries.len() ==> urls.contains_key((#[trigger] entries[i]).0) && urls[entries[i].0] == entries[i].1
            &&& forall|port: Seq<char>| #[trigger]
                urls.contains_key(port) ==> exists|i: int| 0 <= i < entries.len() && (#[trigger] entries[i]).0 == port
        },
    decreases entries.len(),
{
    if entries.len() > 0 {
        let front = entries.drop_last();
        let end = entries.len() - 1;
        one_url_for_each_port(front);
        assert(entries[end] == entries.last());
        assert(forall|i: int| 0 <= i < front.len() ==> #[trigger] front[i] == entries[i]);
        match open_urls(front) {
            Err(_) => {
                let (i, j) = choose|i: int, j: int|
                    0 <= i < j < front.len() && (#[trigger] front[i]).0 == (#[trigger] front[j]).0 && front[i].1 != front[j].1;
                assert(entries[i].0 == entries[j].0 && entries[i].1 != entries[j].1);
            },
            Ok(before) => {
                let entry = entries.last();
                if open_urls(entries) is Err {
                    let i = choose|i: int| 0 <= i < front.len() && (#[trigger] front[i]).0 == entry.0;
                    assert(before[front[i].0] == front[i].1);
                    assert(entries[i].0 == entries[end].0 && entries[i].1 != entries[end].1);
                } else {
                    let urls = open_urls(entries)->Ok_0;
                    assert forall|i: int| 0 <= i < entries.len() implies urls.contains_key((#[trigger] entries[i]).0)
                        && urls[entries[i].0] == entries[i].1 by {
                        if i < end {
                            assert(front[i] == entries[i]);
                        }
                    }
                    assert forall|port: Seq<char>| #[trigger] urls.contains_key(port) implies exists|i: int|
                        0 <= i < entries.len() && (#[trigger] entries[i]).0 == port by {
                        if port == entry.0 {
                            assert(entries[end].0 == port);
                        } else {
                            assert(before.contains_key(port));
                            let i = choose|i: int| 0 <= i < front.len() && (#[trigger] front[i]).0 == port;
                            assert(entries[i].0 == port);
                        }
                    }
                    assert forall|i: int, j: int|
                        0 <= i < j < entries.len() && (#[trigger] entries[i]).0 == (#[trigger] entries[j]).0 implies entries[i].1
                        == entries[j].1 by {
                        assert(urls[entries[i].0] == entries[i].1);
                        assert(urls[entries[j].0] == entries[j].1);
                    }
                }
            },
        }
    }
}

/// A run without a group leaves out what belongs to groups, but for the group
/// `main`; one of a group has the members of that group and no others.
pub proof fn groups_are_run_apart(config: DevWorkspaceConfig, group: Option<Seq<char>>, name: Seq<char>)
    requires
        selected_services(config, group) is Ok,
    ensures
        ({
            let selected = selected_services(config, group)->Ok_0;
            match group {
                Some(wanted) => selected.contains(name) <==> texts(
                    config.service_groups@[wanted].service_list(),
                ).contains(name),
                None => selected.contains(name) <==> {
                    ||| config.service_groups@.contains_key("main"@) && texts(
                        config.service_groups@["main"@].service_list(),
                    ).contains(name)
                    ||| config.services@.contains_key(name) && forall|other: Seq<char>| #[trigger]
                        config.service_groups@.contains_key(other) ==> !texts(
                            config.service_groups@[other].service_list(),
                        ).contains(name)
                },
            }
        }),
{
}

/// The usual port of a secure page is left out of its address, any other is named.
pub proof fn the_usual_port_is_left_out(host: Seq<char>, port: u16)
    ensures
        authority(host, 443) == host,
        port != 443 ==> authority(host, port) == host + ":"@ + decimal(port as nat),
{
}

/// A route is published under the host to open it with, else under its own; one that
/// has neither is not published.
pub proof fn routes_are_published_under_their_host(route: DevTlsRouteConfig, port: u16)
    ensures
        route.open_host is Some ==> route_url(route, port) == Some(
            (route.upstream_port@, "https://"@ + authority(route.open_host->0@, port)),
        ),
        route.open_host is None && route.host is Some ==> route_url(route, port) == Some(
            (route.upstream_port@, "https://"@ + authority(route.host->0@, port)),
        ),
        route.open_host is None && route.host is None ==> route_url(route, port) is None,
{
}

} // verus!
