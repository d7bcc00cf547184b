//! Which ports a run needs, and the search for ones that are free.
use vstd::prelude::*;
use crate::collections::{TextMap, TextSet};
use crate::config::workspace::{DevPortConfig, DevServiceConfig, DevWorkspaceConfig, DynamicDevPortConfig};
use crate::dev::ports::{
    chains_end, fewer_left, offset_fault, parent_of, port_value, ports_fault, resolution_fault, resolve_ports,
    resolves, PortSources,
};
use crate::text::{concat3, texts};

verus! {

// ---------------------------------------------------------------------------
// Dynamic roots
// ---------------------------------------------------------------------------

/// The dynamic port that a port moves with, where there is one.
pub open spec fn root_of(
    configs: Map<Seq<char>, DevPortConfig>,
    name: Seq<char>,
    seen: Set<Seq<char>>,
) -> Result<Option<Seq<char>>, Seq<char>>
    decreases configs.dom().difference(seen).len(),
{
    if !configs.contains_key(name) {
        Err("unknown service port '"@ + name + "'"@)
    } else if configs[name] is Dynamic {
        Ok(Some(name))
    } else {
        match parent_of(configs, name) {
            None => Ok(None),
            Some(parent) => if seen.contains(name) || !configs.dom().finite() {
                Ok(None)
            } else {
                proof {
                    fewer_left(configs.dom(), seen, name);
                }
                root_of(configs, parent, seen.insert(name))
            },
        }
    }
}

/// The port itself, or those behind it in the chain, end in a root that exists.
proof fn root_is_known(configs: Map<Seq<char>, DevPortConfig>, name: Seq<char>, seen: Set<Seq<char>>)
    requires
        configs.contains_key(name),
        offset_fault(configs, name, seen) is None,
    ensures
        root_of(configs, name, seen) is Ok,
        root_of(configs, name, seen)->Ok_0 matches Some(root) ==> configs.contains_key(root) && configs[root] is Dynamic,
    decreases configs.dom().difference(seen).len(),
{
    if !(configs[name] is Dynamic) {
        if let Some(parent) = parent_of(configs, name) {
            fewer_left(configs.dom(), seen, name);
            root_is_known(configs, parent, seen.insert(name));
        }
    }
}

/// The dynamic port that a port moves with, where there is one.
pub fn dynamic_root(name: &str, configs: &TextMap<DevPortConfig>) -> (root: Result<Option<String>, String>)
    requires
        ports_fault(*configs) is None,
    ensures
        match root {
            Ok(found) => root_of(configs@, name@, Set::empty()) == Ok::<Option<Seq<char>>, Seq<char>>(
                crate::text::text_option(found),
            ),
            Err(message) => root_of(configs@, name@, Set::empty()) == Err::<Option<Seq<char>>, Seq<char>>(message@),
        },
        root is Ok <==> configs@.contains_key(name@),
        root matches Ok(Some(found)) ==> configs@.contains_key(found@) && configs@[found@] is Dynamic,
{
    if !configs.contains_key(name) {
        return Err(concat3("unknown service port '", name, "'"));
    }
    let mut current = name.to_owned();
    let ghost mut seen = Set::<Seq<char>>::empty();
    let _ = configs.len();
    proof {
        chains_end(*configs, name@);
        root_is_known(configs@, name@, Set::empty());
    }
    loop
        invariant
            configs@.dom().finite(),
            configs@.contains_key(name@),
            configs@.contains_key(current@),
            offset_fault(configs@, current@, seen) is None,
            root_of(configs@, name@, Set::empty()) == root_of(configs@, current@, seen),
            root_of(configs@, name@, Set::empty()) is Ok,
            root_of(configs@, name@, Set::empty())->Ok_0 matches Some(root) ==> configs@.contains_key(root)
                && configs@[root] is Dynamic,
        decreases configs@.dom().difference(seen).len(),
    {
        let parent = match configs.get(&current) {
            Some(DevPortConfig::Dynamic(_)) => return Ok(Some(current)),
            Some(DevPortConfig::Resolved(config)) => match &config.offset_from {
                Some(parent) => parent.clone(),
                None => return Ok(None),
            },
            _ => return Ok(None),
        };
        proof {
            assert(parent_of(configs@, current@) == Some(parent@));
            fewer_left(configs@.dom(), seen, current@);
            seen = seen.insert(current@);
        }
        current = parent;
    }
}

// ---------------------------------------------------------------------------
// Resolution without an allocation
// ---------------------------------------------------------------------------

/// The value that a dynamic port is shown with where it is not allocated.
pub open spec fn shown_value(config: DynamicDevPortConfig) -> u16 {
    match config.preferred {
        Some(preferred) => preferred,
        None => config.range[0],
    }
}

/// The values that the dynamic ports are shown with.
pub open spec fn shown_values(configs: Map<Seq<char>, DevPortConfig>) -> Map<Seq<char>, u16> {
    Map::new(
        |name: Seq<char>| configs.contains_key(name) && configs[name] is Dynamic,
        |name: Seq<char>| shown_value(configs[name]->Dynamic_0),
    )
}

/// The values that the dynamic ports are shown with.
pub fn default_dynamic_values(configs: &TextMap<DevPortConfig>) -> (values: TextMap<u16>)
    ensures
        values@ == shown_values(configs@),
{
    let ghost names = configs.keys();
    let count = configs.len();
    let mut values: TextMap<u16> = TextMap::new();
    let mut i: usize = 0;
    while i < count
        invariant
            i <= count,
            count == names.len(),
            names == configs.keys(),
            names.to_set() == configs@.dom(),
            forall|name: Seq<char>| #[trigger]
                values@.contains_key(name) <==> names.take(i as int).contains(name) && configs@[name] is Dynamic,
            forall|name: Seq<char>| #[trigger]
                values@.contains_key(name) ==> values@[name] == shown_value(configs@[name]->Dynamic_0),
        decreases count - i,
    {
        let ghost before = values@;
        let name = configs.key_at(i);
        if let DevPortConfig::Dynamic(config) = configs.value_at(i) {
            let value: u16 = match config.preferred {
                Some(preferred) => preferred,
                None => config.range[0],
            };
            values.insert(name.clone(), value);
        }
        proof {
            let front = names.take(i as int);
            assert(names.take(i + 1) =~= front.push(name@));
            assert forall|other: Seq<char>| #[trigger]
                values@.contains_key(other) <==> names.take(i + 1).contains(other) && configs@[other] is Dynamic by {
                assert(before.contains_key(other) <==> front.contains(other) && configs@[other] is Dynamic);
                if front.contains(other) {
                    let k = choose|k: int| 0 <= k < front.len() && front[k] == other;
                    assert(names.take(i + 1)[k] == other);
                }
                assert(names.take(i + 1)[i as int] == name@);
            }
        }
        i += 1;
    }
    proof {
        assert(names.take(names.len() as int) =~= names);
        assert forall|name: Seq<char>| names.contains(name) == #[trigger] configs@.contains_key(name) by {
            assert(names.to_set().contains(name) == configs@.dom().contains(name));
        }
        assert(values@ =~= shown_values(configs@));
    }
    values
}

/// Resolve the named development ports without requiring service targets.
///
/// Maintenance commands can use this even when a service target is temporarily
/// broken.
pub fn resolve_dev_ports(config: &DevWorkspaceConfig, sources: &PortSources) -> (ports: Result<TextMap<u16>, String>)
    ensures
        match ports {
            Ok(map) => resolution_fault(config.ports, *sources, shown_values(config.ports@)) is None && resolves(
                config.ports@,
                *sources,
                shown_values(config.ports@),
                map@,
            ),
            Err(message) => resolution_fault(config.ports, *sources, shown_values(config.ports@)) == Some(message@),
        },
{
    let values = default_dynamic_values(&config.ports);
    resolve_ports(&config.ports, sources, &values)
}

/// The port moves with no dynamic one.
pub open spec fn is_static(configs: Map<Seq<char>, DevPortConfig>, name: Seq<char>) -> bool {
    root_of(configs, name, Set::empty()) == Ok::<Option<Seq<char>>, Seq<char>>(None)
}

/// Resolve only ports whose value does not depend on a dynamic allocation.
/// Maintenance commands must not guess a dynamic run's current value.
pub fn resolve_static_dev_ports(config: &DevWorkspaceConfig, sources: &PortSources) -> (ports: Result<
    TextMap<u16>,
    String,
>)
    ensures
        match ports {
            Ok(map) => {
                &&& resolution_fault(config.ports, *sources, shown_values(config.ports@)) is None
                &&& forall|name: Seq<char>| #[trigger]
                    map@.contains_key(name) <==> config.ports@.contains_key(name) && is_static(config.ports@, name)
                &&& forall|name: Seq<char>| #[trigger]
                    map@.contains_key(name) ==> port_value(
                        config.ports@,
                        *sources,
                        shown_values(config.ports@),
                        name,
                        Set::empty(),
                    ) == Ok::<int, Seq<char>>(map@[name] as int)
            },
            Err(message) => resolution_fault(config.ports, *sources, shown_values(config.ports@)) == Some(message@),
        },
{
    let resolved = match resolve_dev_ports(config, sources) {
        Ok(ports) => ports,
        Err(message) => return Err(message),
    };
    let ghost names = resolved.keys();
    let count = resolved.len();
    let mut ports: TextMap<u16> = TextMap::new();
    let mut i: usize = 0;
    while i < count
        invariant
            i <= count,
            count == names.len(),
            names == resolved.keys(),
            names.to_set() == resolved@.dom(),
            resolved@.dom() == config.ports@.dom(),
            ports_fault(config.ports) is None,
            resolution_fault(config.ports, *sources, shown_values(config.ports@)) is None,
            resolves(config.ports@, *sources, shown_values(config.ports@), resolved@),
            forall|name: Seq<char>| #[trigger]
                ports@.contains_key(name) <==> names.take(i as int).contains(name) && is_static(config.ports@, name),
            forall|name: Seq<char>| #[trigger]
                ports@.contains_key(name) ==> resolved@.contains_key(name) && ports@[name] == resolved@[name],
        decreases count - i,
    {
        let ghost before = ports@;
        let name = resolved.key_at(i);
        match dynamic_root(name, &config.ports) {
            Ok(None) => {
                ports.insert(name.clone(), *resolved.value_at(i));
            },
            Ok(Some(_)) => {},
            Err(message) => return Err(message),
        }
        proof {
            let front = names.take(i as int);
            assert(names.take(i + 1) =~= front.push(name@));
            assert forall|other: Seq<char>| #[trigger]
                ports@.contains_key(other) <==> names.take(i + 1).contains(other) && is_static(
                config.ports@,
                other,
            ) by {
                assert(before.contains_key(other) <==> front.contains(other) && is_static(config.ports@, other));
                if front.contains(other) {
                    let k = choose|k: int| 0 <= k < front.len() && front[k] == other;
                    assert(names.take(i + 1)[k] == other);
                }
                assert(names.take(i + 1)[i as int] == name@);
            }
        }
        i += 1;
    }
    proof {
        assert(names.take(names.len() as int) =~= names);
        assert forall|name: Seq<char>| #[trigger]
            ports@.contains_key(name) <==> config.ports@.contains_key(name) && is_static(config.ports@, name) by {
            assert(names.to_set().contains(name) == resolved@.dom().contains(name));
        }
    }
    Ok(ports)
}

// ---------------------------------------------------------------------------
// What a run needs
// ---------------------------------------------------------------------------

/// A service has the port as its own or in its environment.
pub open spec fn uses_port(service: DevServiceConfig, name: Seq<char>) -> bool {
    (service.port is Some && service.port->0@ == name) || exists|key: Seq<char>|
        #![trigger service.port_env@.contains_key(key)]
        service.port_env@.contains_key(key) && service.port_env@[key]@ == name
}

/// A port that a run needs by itself: its control port, or one that a selected
/// service uses.
pub open spec fn is_needed(
    services: Map<Seq<char>, DevServiceConfig>,
    selected: Set<Seq<char>>,
    control_port: Option<Seq<char>>,
    name: Seq<char>,
) -> bool {
    control_port == Some(name) || exists|service: Seq<char>| #[trigger]
        selected.contains(service) && uses_port(services[service], name)
}

/// Each name of the chain is the one that the name before it is offset from.
pub open spec fn is_offset_step(configs: Map<Seq<char>, DevPortConfig>, chain: Seq<Seq<char>>, i: int) -> bool {
    parent_of(configs, chain[i - 1]) == Some(chain[i])
}

/// A chain of ports, each offset from the next.
pub open spec fn is_offset_chain(configs: Map<Seq<char>, DevPortConfig>, chain: Seq<Seq<char>>) -> bool {
    chain.len() >= 1 && forall|i: int| 0 < i < chain.len() ==> #[trigger] is_offset_step(configs, chain, i)
}

/// A port that a run needs, by itself or because one that it needs is offset
/// from it.
pub open spec fn is_active(config: DevWorkspaceConfig, needed: Set<Seq<char>>, name: Seq<char>) -> bool {
    exists|chain: Seq<Seq<char>>| #[trigger]
        is_offset_chain(config.ports@, chain) && needed.contains(chain.first()) && chain.last() == name
}

/// The ports that a run needs by itself.
pub open spec fn needed_ports(
    config: DevWorkspaceConfig,
    selected: Set<Seq<char>>,
    control_port: Option<Seq<char>>,
) -> Set<Seq<char>> {
    Set::new(|name: Seq<char>| is_needed(config.services@, selected, control_port, name))
}

/// What the ports of a run are offset from is part of the run.
pub proof fn active_ports_are_closed(config: DevWorkspaceConfig, needed: Set<Seq<char>>, name: Seq<char>, parent: Seq<char>)
    requires
        is_active(config, needed, name),
        parent_of(config.ports@, name) == Some(parent),
    ensures
        is_active(config, needed, parent),
{
    let chain = choose|chain: Seq<Seq<char>>| #[trigger]
        is_offset_chain(config.ports@, chain) && needed.contains(chain.first()) && chain.last() == name;
    let longer = chain.push(parent);
    assert forall|i: int| 0 < i < longer.len() implies #[trigger] is_offset_step(config.ports@, longer, i) by {
        if i < chain.len() {
            assert(is_offset_step(config.ports@, chain, i));
        } else {
            assert(longer[i - 1] == chain.last());
        }
    }
    assert(is_offset_chain(config.ports@, longer));
    assert(longer.first() == chain.first() && longer.last() == parent);
}

proof fn chain_stays(config: DevWorkspaceConfig, chain: Seq<Seq<char>>, all: Set<Seq<char>>, i: int)
    requires
        is_offset_chain(config.ports@, chain),
        all.contains(chain.first()),
        forall|a: Seq<char>, b: Seq<char>|
            all.contains(a) && #[trigger] parent_of(config.ports@, a) == Some(b) ==> #[trigger] all.contains(b),
        0 <= i < chain.len(),
    ensures
        all.contains(chain[i]),
    decreases i,
{
    if i > 0 {
        chain_stays(config, chain, all, i - 1);
        assert(is_offset_step(config.ports@, chain, i));
    }
}

fn add_service_ports(service: &DevServiceConfig, active: &mut TextSet)
    ensures
        forall|name: Seq<char>| #[trigger]
            final(active)@.contains(name) <==> old(active)@.contains(name) || uses_port(*service, name),
{
    let ghost start = active@;
    if let Some(port) = &service.port {
        let _ = active.insert(port.clone());
    }
    let ghost own = active@;
    let ghost keys = service.port_env.keys();
    let count = service.port_env.len();
    let mut i: usize = 0;
    while i < count
        invariant
            i <= count,
            count == keys.len(),
            keys == service.port_env.keys(),
            keys.to_set() == service.port_env@.dom(),
            forall|name: Seq<char>| #[trigger]
                active@.contains(name) <==> own.contains(name) || exists|k: int|
                    0 <= k < i && service.port_env@[#[trigger] keys[k]]@ == name,
        decreases count - i,
    {
        let ghost before = active@;
        let value = service.port_env.value_at(i).clone();
        let ghost added = value@;
        let _ = active.insert(value);
        proof {
            assert forall|name: Seq<char>| #[trigger]
                active@.contains(name) <==> own.contains(name) || exists|k: int|
                    0 <= k < i + 1 && service.port_env@[#[trigger] keys[k]]@ == name by {
                assert(before.contains(name) <==> own.contains(name) || exists|k: int|
                    0 <= k < i && service.port_env@[#[trigger] keys[k]]@ == name);
                if name == added {
                    assert(service.port_env@[keys[i as int]]@ == name);
                }
            }
        }
        i += 1;
    }
    proof {
        assert forall|name: Seq<char>| #[trigger]
            active@.contains(name) <==> start.contains(name) || uses_port(*service, name) by {
            if exists|key: Seq<char>|
                #![trigger service.port_env@.contains_key(key)]
                service.port_env@.contains_key(key) && service.port_env@[key]@ == name {
                let key = choose|key: Seq<char>|
                    #![trigger service.port_env@.contains_key(key)]
                    service.port_env@.contains_key(key) && service.port_env@[key]@ == name;
                assert(keys.to_set().contains(key));
                let k = choose|k: int| 0 <= k < keys.len() && keys[k] == key;
                assert(service.port_env@[keys[k]]@ == name);
            }
            if exists|k: int| 0 <= k < keys.len() && service.port_env@[#[trigger] keys[k]]@ == name {
                let k = choose|k: int| 0 <= k < keys.len() && service.port_env@[#[trigger] keys[k]]@ == name;
                assert(keys.to_set().contains(keys[k]));
                assert(service.port_env@.contains_key(keys[k]));
            }
        }
    }
}

/// The ports that a run of some services needs.
///
/// TLS routes consume upstream ports but do not own their listeners: they may
/// point at services outside the run. What a port is offset from is part of
/// the run even when only the derived port is used.
pub fn collect_active_ports(
    config: &DevWorkspaceConfig,
    selected: &TextSet,
    control_port: Option<&String>,
) -> (active: TextSet)
    requires
        selected@.subset_of(config.services@.dom()),
    ensures
        active@ == Set::new(
            |name: Seq<char>|
                is_active(
                    *config,
                    needed_ports(
                        *config,
                        selected@,
                        match control_port {
                            Some(port) => Some(port@),
                            None => None,
                        },
                    ),
                    name,
                ),
        ),
{
    let ghost control = match control_port {
        Some(port) => Some(port@),
        None => None,
    };
    let ghost needed = needed_ports(*config, selected@, control);
    let mut active = TextSet::new();
    if let Some(port) = control_port {
        let _ = active.insert(port.clone());
    }
    let ghost items = selected.items();
    let count = selected.len();
    let mut i: usize = 0;
    while i < count
        invariant
            i <= count,
            count == items.len(),
            items == selected.items(),
            selected@ == items.to_set(),
            selected@.subset_of(config.services@.dom()),
            forall|name: Seq<char>| #[trigger]
                active@.contains(name) <==> control == Some(name) || exists|k: int|
                    0 <= k < i && uses_port(config.services@[#[trigger] items[k]], name),
        decreases count - i,
    {
        let ghost before = active@;
        let service_name = selected.item_at(i);
        assert(items.to_set().contains(items[i as int]));
        if let Some(service) = config.services.get(service_name) {
            add_service_ports(service, &mut active);
        }
        proof {
            assert forall|name: Seq<char>| #[trigger]
                active@.contains(name) <==> control == Some(name) || exists|k: int|
                    0 <= k < i + 1 && uses_port(config.services@[#[trigger] items[k]], name) by {
                assert(before.contains(name) <==> control == Some(name) || exists|k: int|
                    0 <= k < i && uses_port(config.services@[#[trigger] items[k]], name));
                if uses_port(config.services@[items[i as int]], name) {
                    assert(active@.contains(name));
                }
            }
        }
        i += 1;
    }
    proof {
        assert forall|name: Seq<char>| #[trigger] active@.contains(name) <==> needed.contains(name) by {
            if exists|k: int| 0 <= k < items.len() && uses_port(config.services@[#[trigger] items[k]], name) {
                let k = choose|k: int|
                    0 <= k < items.len() && uses_port(config.services@[#[trigger] items[k]], name);
                assert(items.to_set().contains(items[k]));
                assert(selected@.contains(items[k]));
            }
            if exists|service: Seq<char>| #[trigger]
                selected@.contains(service) && uses_port(config.services@[service], name) {
                let service = choose|service: Seq<char>| #[trigger]
                    selected@.contains(service) && uses_port(config.services@[service], name);
                assert(items.to_set().contains(service));
                let k = choose|k: int| 0 <= k < items.len() && items[k] == service;
                assert(uses_port(config.services@[items[k]], name));
            }
        }
        assert(active@ =~= needed);
        assert forall|name: Seq<char>| #[trigger] active@.contains(name) implies is_active(*config, needed, name) by {
            let chain = seq![name];
            assert(is_offset_chain(config.ports@, chain));
            assert(chain.first() == name && chain.last() == name);
        }
    }
    close_over_offsets(config, active, Ghost(needed))
}

fn close_over_offsets(config: &DevWorkspaceConfig, start: TextSet, Ghost(needed): Ghost<Set<Seq<char>>>) -> (active: TextSet)
    requires
        start@ == needed,
        forall|name: Seq<char>| #[trigger] start@.contains(name) ==> is_active(*config, needed, name),
    ensures
        active@ == Set::new(|name: Seq<char>| is_active(*config, needed, name)),
{
    let mut pending = start.to_vec();
    let mut active = start;
    let ghost universe = config.ports@.dom();
    let _ = config.ports.len();
    proof {
        assert forall|name: Seq<char>| #[trigger] active@.contains(name) implies texts(pending@).contains(name) by {}
        assert forall|k: int| 0 <= k < pending@.len() implies active@.contains((#[trigger] pending@[k])@) by {
            assert(texts(pending@)[k] == pending@[k]@);
            assert(texts(pending@).to_set().contains(pending@[k]@));
        }
    }
    let ghost mut done = Set::<Seq<char>>::empty();
    while pending.len() > 0
        invariant
            universe == config.ports@.dom(),
            universe.finite(),
            needed.subset_of(active@),
            forall|name: Seq<char>| #[trigger] active@.contains(name) ==> is_active(*config, needed, name),
            forall|k: int| 0 <= k < pending@.len() ==> active@.contains((#[trigger] pending@[k])@),
            forall|a: Seq<char>, b: Seq<char>|
                active@.contains(a) && !texts(pending@).contains(a) && #[trigger] parent_of(config.ports@, a) == Some(b)
                    ==> #[trigger] active@.contains(b),
            done.subset_of(active@),
            forall|name: Seq<char>| #[trigger] done.contains(name) ==> config.ports@.contains_key(name),
            no_repeats(pending@, done),
        decreases universe.difference(done).len(), pending@.len(),
    {
        let ghost before = texts(pending@);
        let ghost waiting = pending@;
        let ghost known = active@;
        let name = pending.pop().unwrap();
        proof {
            assert(texts(pending@) =~= before.drop_last());
            assert(before.last() == name@);
            assert(active@.contains(name@));
            assert(no_repeats(pending@, done));
        }
        let parent: Option<String> = match config.ports.get(&name) {
            Some(DevPortConfig::Resolved(port)) => match &port.offset_from {
                Some(parent) => Some(parent.clone()),
                None => None,
            },
            _ => None,
        };
        assert(crate::text::text_option(parent) == parent_of(config.ports@, name@));
        if let Some(parent) = parent {
            let ghost added = parent@;
            proof {
                active_ports_are_closed(*config, needed, name@, added);
            }
            if active.insert(parent.clone()) {
                pending.push(parent);
                proof {
                    assert(texts(pending@) =~= before.drop_last().push(added));
                    assert forall|k: int| 0 <= k < pending@.len() implies active@.contains((#[trigger] pending@[k])@) by {
                        if k < pending@.len() - 1 {
                            assert(texts(pending@)[k] == before[k]);
                        }
                    }
                }
            }
        }
        proof {
            let now = texts(pending@);
            assert forall|k: int| 0 <= k < pending@.len() implies !done.contains((#[trigger] pending@[k])@) && pending@[k]@
                != name@ by {
                assert(now[k] == pending@[k]@);
                if k < before.len() - 1 {
                    assert(now[k] == before[k]);
                    assert(before[k] != before[before.len() - 1]);
                    assert(waiting[k]@ == before[k]);
                    assert(!done.contains(waiting[k]@));
                } else {
                    assert(!known.contains(now[k]));
                }
            }
            assert forall|i: int, j: int| 0 <= i < now.len() && 0 <= j < now.len() && i != j implies now[i] != now[j] by {
                if i < before.len() - 1 && j < before.len() - 1 {
                    assert(now[i] == before[i] && now[j] == before[j]);
                } else if i < before.len() - 1 {
                    assert(now[i] == before[i]);
                    assert(known.contains(waiting[i]@));
                    assert(!known.contains(now[j]));
                } else {
                    assert(now[j] == before[j]);
                    assert(known.contains(waiting[j]@));
                    assert(!known.contains(now[i]));
                }
            }
            if config.ports@.contains_key(name@) {
                fewer_left(universe, done, name@);
                done = done.insert(name@);
            }
            assert forall|a: Seq<char>, b: Seq<char>|
                active@.contains(a) && !now.contains(a) && #[trigger] parent_of(config.ports@, a) == Some(
                    b,
                ) implies #[trigger] active@.contains(b) by {
                if a != name@ {
                    if before.contains(a) {
                        let k = choose|k: int| 0 <= k < before.len() && before[k] == a;
                        assert(now[k] == a);
                    }
                    if !known.contains(a) {
                        assert(now[now.len() - 1] == a);
                    }
                }
            }
        }
    }
    proof {
        assert(texts(pending@).len() == 0);
        assert forall|name: Seq<char>| is_active(*config, needed, name) implies #[trigger] active@.contains(name) by {
            let chain = choose|chain: Seq<Seq<char>>| #[trigger]
                is_offset_chain(config.ports@, chain) && needed.contains(chain.first()) && chain.last() == name;
            chain_stays(*config, chain, active@, chain.len() - 1);
        }
        assert(active@ =~= Set::new(|name: Seq<char>| is_active(*config, needed, name)));
    }
    active
}

/// The names are all different, and none of them was looked at.
spec fn no_repeats(pending: Seq<String>, done: Set<Seq<char>>) -> bool {
    &&& texts(pending).no_duplicates()
    &&& forall|k: int| 0 <= k < pending.len() ==> !done.contains((#[trigger] pending[k])@)
}

/// A port that is offset from another moves with the same dynamic port, a dynamic
/// port moves with itself, and a port that is neither moves with none.
pub proof fn derived_ports_move_together(configs: Map<Seq<char>, DevPortConfig>, name: Seq<char>)
    requires
        configs.dom().finite(),
        configs.contains_key(name),
        offset_fault(configs, name, Set::empty()) is None,
    ensures
        configs[name] is Dynamic ==> root_of(configs, name, Set::empty()) == Ok::<Option<Seq<char>>, Seq<char>>(
            Some(name),
        ),
        !(configs[name] is Dynamic) && parent_of(configs, name) is None ==> root_of(configs, name, Set::empty()) == Ok::<
            Option<Seq<char>>,
            Seq<char>,
        >(None),
        parent_of(configs, name) matches Some(parent) ==> root_of(configs, name, Set::empty()) == root_of(
            configs,
            parent,
            Set::empty(),
        ),
        root_of(configs, name, Set::empty()) matches Ok(Some(root)) ==> configs.contains_key(root) && configs[root] is Dynamic,
{
    if let Some(parent) = parent_of(configs, name) {
        let seen = Set::<Seq<char>>::empty().insert(name);
        seen_ports_change_no_root(configs, parent, seen, Set::empty());
    }
    roots_are_dynamic(configs, name, Set::empty());
}

proof fn seen_ports_change_no_root(
    configs: Map<Seq<char>, DevPortConfig>,
    name: Seq<char>,
    seen: Set<Seq<char>>,
    fewer: Set<Seq<char>>,
)
    requires
        configs.dom().finite(),
        fewer.subset_of(seen),
        offset_fault(configs, name, seen) is None,
    ensures
        root_of(configs, name, fewer) == root_of(configs, name, seen),
    decreases configs.dom().difference(seen).len(),
{
    if let Some(parent) = parent_of(configs, name) {
        fewer_left(configs.dom(), seen, name);
        seen_ports_change_no_root(configs, parent, seen.insert(name), fewer.insert(name));
    }
}

proof fn roots_are_dynamic(configs: Map<Seq<char>, DevPortConfig>, name: Seq<char>, seen: Set<Seq<char>>)
    ensures
        root_of(configs, name, seen) matches Ok(Some(root)) ==> configs.contains_key(root) && configs[root] is Dynamic,
    decreases configs.dom().difference(seen).len(),
{
    if configs.contains_key(name) && !(configs[name] is Dynamic) {
        if let Some(parent) = parent_of(configs, name) {
            if !seen.contains(name) && configs.dom().finite() {
                fewer_left(configs.dom(), seen, name);
                roots_are_dynamic(configs, parent, seen.insert(name));
            }
        }
    }
}

/// A run needs its control port and whatever a selected service has as its own port
/// or in its environment, and nothing else by itself.
pub proof fn runs_need_what_their_services_use(
    config: DevWorkspaceConfig,
    selected: Set<Seq<char>>,
    control_port: Option<Seq<char>>,
    service: Seq<char>,
    key: Seq<char>,
    name: Seq<char>,
)
    ensures
        control_port == Some(name) ==> needed_ports(config, selected, control_port).contains(name),
        selected.contains(service) && config.services@[service].port is Some && config.services@[service].port->0@ == name
            ==> needed_ports(config, selected, control_port).contains(name),
        selected.contains(service) && config.services@[service].port_env@.contains_key(key)
            && config.services@[service].port_env@[key]@ == name ==> needed_ports(config, selected, control_port).contains(
            name,
        ),
        needed_ports(config, selected, control_port).contains(name) && control_port != Some(name) ==> exists|other: Seq<
            char,
        >| #[trigger]
            selected.contains(other) && ((config.services@[other].port is Some && config.services@[other].port->0@ == name)
                || exists|variable: Seq<char>| #[trigger]
                config.services@[other].port_env@.contains_key(variable) && config.services@[other].port_env@[variable]@
                    == name),
{
    if selected.contains(service) && config.services@[service].port_env@.contains_key(key)
        && config.services@[service].port_env@[key]@ == name {
        assert(uses_port(config.services@[service], name));
    }
    if selected.contains(service) && config.services@[service].port is Some && config.services@[service].port->0@ == name {
        assert(uses_port(config.services@[service], name));
    }
    if needed_ports(config, selected, control_port).contains(name) && control_port != Some(name) {
        let other = choose|other: Seq<char>| #[trigger]
            selected.contains(other) && uses_port(config.services@[other], name);
        assert(selected.contains(other));
    }
}

/// A run allocates no more ports than it has to: those that it needs and what these
/// are offset from.
pub proof fn active_ports_are_needed(config: DevWorkspaceConfig, needed: Set<Seq<char>>, all: Set<Seq<char>>, name: Seq<char>)
    requires
        needed.subset_of(all),
        forall|one: Seq<char>, two: Seq<char>|
            all.contains(one) && #[trigger] parent_of(config.ports@, one) == Some(two) ==> #[trigger] all.contains(two),
        is_active(config, needed, name),
    ensures
        all.contains(name),
{
    let chain = choose|chain: Seq<Seq<char>>| #[trigger]
        is_offset_chain(config.ports@, chain) && needed.contains(chain.first()) && chain.last() == name;
    chain_is_inside(config, chain, all, chain.len() - 1);
}

proof fn chain_is_inside(config: DevWorkspaceConfig, chain: Seq<Seq<char>>, all: Set<Seq<char>>, at: int)
    requires
        is_offset_chain(config.ports@, chain),
        all.contains(chain.first()),
        forall|one: Seq<char>, two: Seq<char>|
            all.contains(one) && #[trigger] parent_of(config.ports@, one) == Some(two) ==> #[trigger] all.contains(two),
        0 <= at < chain.len(),
    ensures
        all.contains(chain[at]),
    decreases at,
{
    if at > 0 {
        chain_is_inside(config, chain, all, at - 1);
        assert(is_offset_step(config.ports@, chain, at));
        assert(parent_of(config.ports@, chain[at - 1]) == Some(chain[at]));
    }
}

/// A dynamic port that is not allocated is shown with its preferred number, or with
/// the first of its range; no other port is shown so.
pub proof fn unallocated_ports_are_shown(configs: Map<Seq<char>, DevPortConfig>, name: Seq<char>)
    ensures
        shown_values(configs).contains_key(name) <==> configs.contains_key(name) && configs[name] is Dynamic,
        configs.contains_key(name) && configs[name] is Dynamic && configs[name]->Dynamic_0.preferred is Some
            ==> shown_values(configs)[name] == configs[name]->Dynamic_0.preferred->0,
        configs.contains_key(name) && configs[name] is Dynamic && configs[name]->Dynamic_0.preferred is None
            ==> shown_values(configs)[name] == configs[name]->Dynamic_0.range[0],
{
}

} // verus!
