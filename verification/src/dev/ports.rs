//! The numbers of named ports.
use vstd::prelude::*;
use crate::collections::{TextMap, TextSet};
use crate::config::workspace::{DevPortConfig, ResolvedDevPortConfig};
use crate::numbers::{decimal, decimal_text, parse_u16, parsed_number};
use crate::text::{concat2, concat3, concat4, concat5, texts};

verus! {

/// The port that a port is offset from.
pub open spec fn parent_of(configs: Map<Seq<char>, DevPortConfig>, name: Seq<char>) -> Option<Seq<char>> {
    if !configs.contains_key(name) {
        None
    } else {
        match configs[name] {
            DevPortConfig::Resolved(config) => match config.offset_from {
                Some(parent) => Some(parent@),
                None => None,
            },
            _ => None,
        }
    }
}

// ---------------------------------------------------------------------------
// Validation
// ---------------------------------------------------------------------------

/// What is wrong with the ports that a port is offset from, one behind the
/// other, where some were seen already.
pub open spec fn offset_fault(
    configs: Map<Seq<char>, DevPortConfig>,
    name: Seq<char>,
    seen: Set<Seq<char>>,
) -> Option<Seq<char>>
    decreases configs.dom().difference(seen).len(),
{
    match parent_of(configs, name) {
        None => None,
        Some(parent) => if seen.contains(name) || !configs.dom().finite() {
            Some("service port offset_from cycle includes '"@ + name + "'"@)
        } else if !configs.contains_key(parent) {
            Some("port '"@ + name + "' offset_from references unknown port '"@ + parent + "'"@)
        } else {
            proof {
                fewer_left(configs.dom(), seen, name);
            }
            offset_fault(configs, parent, seen.insert(name))
        },
    }
}

/// With one more name seen, fewer are left.
pub proof fn fewer_left(all: Set<Seq<char>>, seen: Set<Seq<char>>, name: Seq<char>)
    requires
        all.finite(),
        all.contains(name),
        !seen.contains(name),
    ensures
        all.difference(seen.insert(name)).len() < all.difference(seen).len(),
{
    assert(all.difference(seen.insert(name)) =~= all.difference(seen).remove(name));
    assert(all.difference(seen).contains(name));
}

/// What is wrong with the configuration of a port.
pub open spec fn port_fault(configs: Map<Seq<char>, DevPortConfig>, name: Seq<char>) -> Option<Seq<char>> {
    match configs[name] {
        DevPortConfig::Fixed(_) => None,
        DevPortConfig::Dynamic(config) => {
            let start = config.range[0];
            let end = config.range[1];
            if start == 0 || start > end {
                Some("dynamic port '"@ + name + "' range must contain valid ports in ascending order"@)
            } else if config.preferred is Some && (config.preferred->0 < start || config.preferred->0 > end) {
                Some(
                    "dynamic port '"@ + name + "' preferred value "@ + decimal(config.preferred->0 as nat)
                        + " is outside range "@ + decimal(start as nat) + "-"@ + decimal(end as nat),
                )
            } else {
                None
            }
        },
        DevPortConfig::Resolved(config) => if config.offset_from is Some && config.offset_base is None {
            Some("port '"@ + name + "' sets offset_from but is missing offset_base"@)
        } else if config.offset_from is None && config.offset_base is Some {
            Some("port '"@ + name + "' sets offset_base but is missing offset_from"@)
        } else {
            offset_fault(configs, name, Set::empty())
        },
    }
}

/// What is wrong with the first of some ports that something is wrong with.
pub open spec fn first_port_fault(configs: Map<Seq<char>, DevPortConfig>, names: Seq<Seq<char>>) -> Option<Seq<char>>
    decreases names.len(),
{
    if names.len() == 0 {
        None
    } else {
        match first_port_fault(configs, names.drop_last()) {
            Some(fault) => Some(fault),
            None => port_fault(configs, names.last()),
        }
    }
}

/// What is wrong with the configuration of the ports.
pub open spec fn ports_fault(configs: TextMap<DevPortConfig>) -> Option<Seq<char>> {
    first_port_fault(configs@, configs.keys())
}

proof fn no_fault(configs: Map<Seq<char>, DevPortConfig>, names: Seq<Seq<char>>, name: Seq<char>)
    requires
        first_port_fault(configs, names) is None,
        names.contains(name),
    ensures
        port_fault(configs, name) is None,
    decreases names.len(),
{
    let i = choose|i: int| 0 <= i < names.len() && names[i] == name;
    if i < names.len() - 1 {
        assert(names.drop_last()[i] == name);
        no_fault(configs, names.drop_last(), name);
    }
}

/// Where nothing is wrong with the ports, nothing is wrong with the chain of
/// any of them.
pub proof fn chains_end(configs: TextMap<DevPortConfig>, name: Seq<char>)
    requires
        ports_fault(configs) is None,
        configs@.contains_key(name),
    ensures
        port_fault(configs@, name) is None,
        offset_fault(configs@, name, Set::empty()) is None,
{
    no_fault(configs@, configs.keys(), name);
}

fn check_offsets(configs: &TextMap<DevPortConfig>, name: &str) -> (valid: Result<(), String>)
    requires
        configs@.contains_key(name@),
    ensures
        match valid {
            Ok(_) => offset_fault(configs@, name@, Set::empty()) is None,
            Err(message) => offset_fault(configs@, name@, Set::empty()) == Some(message@),
        },
{
    let mut current = name.to_owned();
    let mut seen = TextSet::new();
    let _ = configs.len();
    loop
        invariant
            configs@.dom().finite(),
            configs@.contains_key(current@),
            offset_fault(configs@, name@, Set::empty()) == offset_fault(configs@, current@, seen@),
        decreases configs@.dom().difference(seen@).len(),
    {
        let next = match configs.get(&current) {
            Some(DevPortConfig::Resolved(config)) => match &config.offset_from {
                Some(parent) => parent.clone(),
                None => return Ok(()),
            },
            _ => return Ok(()),
        };
        assert(parent_of(configs@, current@) == Some(next@));
        if seen.contains(&current) {
            return Err(concat3("service port offset_from cycle includes '", &current, "'"));
        }
        if !configs.contains_key(&next) {
            return Err(
                concat5("port '", &current, "' offset_from references unknown port '", &next, "'"),
            );
        }
        proof {
            fewer_left(configs@.dom(), seen@, current@);
        }
        let _ = seen.insert(current);
        current = next;
    }
}

fn check_port(configs: &TextMap<DevPortConfig>, name: &str) -> (valid: Result<(), String>)
    requires
        configs@.contains_key(name@),
    ensures
        match valid {
            Ok(_) => port_fault(configs@, name@) is None,
            Err(message) => port_fault(configs@, name@) == Some(message@),
        },
{
    match configs.get(name) {
        Some(DevPortConfig::Dynamic(config)) => {
            let start: u16 = config.range[0];
            let end: u16 = config.range[1];
            if start == 0 || start > end {
                return Err(
                    concat3("dynamic port '", name, "' range must contain valid ports in ascending order"),
                );
            }
            if let Some(preferred) = config.preferred {
                if preferred < start || preferred > end {
                    let front = concat4(
                        "dynamic port '",
                        name,
                        "' preferred value ",
                        &decimal_text(preferred as u128),
                    );
                    let range = concat3(&decimal_text(start as u128), "-", &decimal_text(end as u128));
                    let text = concat3(&front, " is outside range ", &range);
                    assert(text@ =~= "dynamic port '"@ + name@ + "' preferred value "@ + decimal(preferred as nat)
                        + " is outside range "@ + decimal(start as nat) + "-"@ + decimal(end as nat));
                    return Err(text);
                }
            }
            Ok(())
        },
        Some(DevPortConfig::Resolved(config)) => {
            if config.offset_from.is_some() && config.offset_base.is_none() {
                return Err(concat3("port '", name, "' sets offset_from but is missing offset_base"));
            }
            if config.offset_from.is_none() && config.offset_base.is_some() {
                return Err(concat3("port '", name, "' sets offset_base but is missing offset_from"));
            }
            check_offsets(configs, name)
        },
        _ => Ok(()),
    }
}

/// Check the ranges of dynamic ports and the offsets of derived ones.
pub fn validate_port_offsets(configs: &TextMap<DevPortConfig>) -> (valid: Result<(), String>)
    ensures
        match valid {
            Ok(_) => ports_fault(*configs) is None,
            Err(message) => ports_fault(*configs) == Some(message@),
        },
{
    let ghost names = configs.keys();
    let count = configs.len();
    let mut fault: Option<String> = None;
    let mut i: usize = 0;
    assert(names.take(0) =~= Seq::<Seq<char>>::empty());
    while i < count
        invariant
            i <= count,
            count == names.len(),
            names == configs.keys(),
            fault is Some <==> first_port_fault(configs@, names.take(i as int)) is Some,
            fault matches Some(message) ==> first_port_fault(configs@, names.take(i as int)) == Some(message@),
        decreases count - i,
    {
        proof {
            assert(names.take(i + 1).drop_last() =~= names.take(i as int));
            assert(names.take(i + 1).last() == names[i as int]);
        }
        if fault.is_none() {
            if let Err(message) = check_port(configs, configs.key_at(i)) {
                fault = Some(message);
            }
        }
        i += 1;
    }
    assert(names.take(names.len() as int) =~= names);
    match fault {
        Some(message) => Err(message),
        None => Ok(()),
    }
}

// ---------------------------------------------------------------------------
// Values
// ---------------------------------------------------------------------------

/// Where ports are read from.
#[derive(Debug)]
pub struct PortSources {
    /// The environment of this process
    pub environment: TextMap<String>,
    /// What the port environment files set
    pub file_env: TextMap<String>,
}

/// The first of the keys that has a value, with its value.
pub open spec fn first_set(keys: Seq<Seq<char>>, values: Map<Seq<char>, String>) -> Option<(Seq<char>, Seq<char>)>
    decreases keys.len(),
{
    if keys.len() == 0 {
        None
    } else {
        match first_set(keys.drop_last(), values) {
            Some(entry) => Some(entry),
            None => if values.contains_key(keys.last()) {
                Some((keys.last(), values[keys.last()]@))
            } else {
                None
            },
        }
    }
}

/// The variable that sets a port: of the process first, then of the files.
pub open spec fn explicit_value(config: ResolvedDevPortConfig, sources: PortSources) -> Option<(Seq<char>, Seq<char>)> {
    match first_set(texts(config.env@), sources.environment@) {
        Some(entry) => Some(entry),
        None => first_set(
            texts(
                match config.file_env {
                    Some(names) => names@,
                    None => config.env@,
                },
            ),
            sources.file_env@,
        ),
    }
}

/// A port is no zero.
pub open spec fn usable(name: Seq<char>, value: int) -> Result<int, Seq<char>> {
    if value == 0 {
        Err("port '"@ + name + "' must be between 1 and 65535"@)
    } else {
        Ok(value)
    }
}

/// A derived port: the default, moved as far as its source is from the baseline.
pub open spec fn offset_value(
    name: Seq<char>,
    config: ResolvedDevPortConfig,
    parent: Seq<char>,
    value: int,
) -> Result<int, Seq<char>> {
    match config.offset_base {
        None => Err("port '"@ + name + "' sets offset_from but is missing offset_base"@),
        Some(base) => if value < base && !config.saturating_offset {
            Err(
                "port '"@ + name + "' offset source '"@ + parent + "' ("@ + decimal(value as nat)
                    + ") is below offset_base ("@ + decimal(base as nat) + ")"@,
            )
        } else {
            let delta = if value < base {
                0
            } else {
                value - base
            };
            if config.default + delta > 65535 {
                Err(
                    "port '"@ + name + "' overflows: default "@ + decimal(config.default as nat) + " + offset "@
                        + decimal(delta as nat) + " exceeds 65535"@,
                )
            } else {
                usable(name, config.default + delta)
            }
        },
    }
}

/// The number of a port, or why it has none. The seen ports are those derived
/// from it on the way.
pub open spec fn port_value(
    configs: Map<Seq<char>, DevPortConfig>,
    sources: PortSources,
    dynamic: Map<Seq<char>, u16>,
    name: Seq<char>,
    seen: Set<Seq<char>>,
) -> Result<int, Seq<char>>
    decreases configs.dom().difference(seen).len(),
{
    if !configs.contains_key(name) {
        Err("unknown service port '"@ + name + "'"@)
    } else {
        match configs[name] {
            DevPortConfig::Fixed(value) => usable(name, value as int),
            DevPortConfig::Dynamic(_) => if dynamic.contains_key(name) {
                usable(name, dynamic[name] as int)
            } else {
                Err("dynamic port '"@ + name + "' has not been allocated"@)
            },
            DevPortConfig::Resolved(config) => match explicit_value(config, sources) {
                Some((key, raw)) => match parsed_number(raw, false, 0xffff) {
                    Some(value) => usable(name, value as int),
                    None => Err("port '"@ + name + "' environment variable "@ + key + " is not a valid port"@),
                },
                None => match config.offset_from {
                    None => usable(name, config.default as int),
                    Some(parent) => if seen.contains(name) || !configs.dom().finite() {
                        Err("service port offset_from cycle includes '"@ + name + "'"@)
                    } else {
                        proof {
                            fewer_left(configs.dom(), seen, name);
                        }
                        match port_value(configs, sources, dynamic, parent@, seen.insert(name)) {
                            Err(message) => Err(message),
                            Ok(value) => offset_value(name, config, parent@, value),
                        }
                    },
                },
            },
        }
    }
}

/// Why the first of some ports that has no number has none.
pub open spec fn first_value_fault(
    configs: Map<Seq<char>, DevPortConfig>,
    sources: PortSources,
    dynamic: Map<Seq<char>, u16>,
    names: Seq<Seq<char>>,
) -> Option<Seq<char>>
    decreases names.len(),
{
    if names.len() == 0 {
        None
    } else {
        match first_value_fault(configs, sources, dynamic, names.drop_last()) {
            Some(fault) => Some(fault),
            None => match port_value(configs, sources, dynamic, names.last(), Set::empty()) {
                Err(message) => Some(message),
                Ok(_) => None,
            },
        }
    }
}

/// Why the ports cannot all be resolved.
pub open spec fn resolution_fault(
    configs: TextMap<DevPortConfig>,
    sources: PortSources,
    dynamic: Map<Seq<char>, u16>,
) -> Option<Seq<char>> {
    match ports_fault(configs) {
        Some(fault) => Some(fault),
        None => first_value_fault(configs@, sources, dynamic, configs.keys()),
    }
}

/// The numbers are those of the configured ports, and of no others.
pub open spec fn resolves(
    configs: Map<Seq<char>, DevPortConfig>,
    sources: PortSources,
    dynamic: Map<Seq<char>, u16>,
    ports: Map<Seq<char>, u16>,
) -> bool {
    &&& ports.dom() == configs.dom()
    &&& forall|name: Seq<char>| #[trigger]
        ports.contains_key(name) ==> port_value(configs, sources, dynamic, name, Set::empty()) == Ok::<
            int,
            Seq<char>,
        >(ports[name] as int)
}

fn find_set(keys: &Vec<String>, values: &TextMap<String>) -> (entry: Option<(String, String)>)
    ensures
        entry is Some <==> first_set(texts(keys@), values@) is Some,
        entry matches Some((key, value)) ==> first_set(texts(keys@), values@) == Some((key@, value@)),
{
    let ghost all = texts(keys@);
    let mut entry: Option<(String, String)> = None;
    let mut i: usize = 0;
    assert(all.take(0) =~= Seq::<Seq<char>>::empty());
    while i < keys.len()
        invariant
            i <= keys@.len(),
            all == texts(keys@),
            entry is Some <==> first_set(all.take(i as int), values@) is Some,
            entry matches Some((key, value)) ==> first_set(all.take(i as int), values@) == Some((key@, value@)),
        decreases keys@.len() - i,
    {
        proof {
            assert(all.take(i + 1).drop_last() =~= all.take(i as int));
            assert(all.take(i + 1).last() == keys@[i as int]@);
        }
        if entry.is_none() {
            if let Some(value) = values.get(&keys[i]) {
                entry = Some((keys[i].clone(), value.clone()));
            }
        }
        i += 1;
    }
    assert(all.take(all.len() as int) =~= all);
    entry
}

fn find_explicit(config: &ResolvedDevPortConfig, sources: &PortSources) -> (entry: Option<(String, String)>)
    ensures
        entry is Some <==> explicit_value(*config, *sources) is Some,
        entry matches Some((key, value)) ==> explicit_value(*config, *sources) == Some((key@, value@)),
{
    match find_set(&config.env, &sources.environment) {
        Some(entry) => Some(entry),
        None => match &config.file_env {
            Some(names) => find_set(names, &sources.file_env),
            None => find_set(&config.env, &sources.file_env),
        },
    }
}

fn check_usable(name: &str, value: u16) -> (port: Result<u16, String>)
    ensures
        match port {
            Ok(number) => usable(name@, value as int) == Ok::<int, Seq<char>>(number as int),
            Err(message) => usable(name@, value as int) == Err::<int, Seq<char>>(message@),
        },
{
    if value == 0 {
        Err(concat3("port '", name, "' must be between 1 and 65535"))
    } else {
        Ok(value)
    }
}

fn derive_port(name: &str, config: &ResolvedDevPortConfig, parent: &str, value: u16) -> (port: Result<u16, String>)
    ensures
        match port {
            Ok(number) => offset_value(name@, *config, parent@, value as int) == Ok::<int, Seq<char>>(number as int),
            Err(message) => offset_value(name@, *config, parent@, value as int) == Err::<int, Seq<char>>(message@),
        },
{
    let base: u16 = match config.offset_base {
        None => return Err(concat3("port '", name, "' sets offset_from but is missing offset_base")),
        Some(base) => base,
    };
    if value < base && !config.saturating_offset {
        let front = concat5("port '", name, "' offset source '", parent, "' (");
        let back = concat4(&decimal_text(value as u128), ") is below offset_base (", &decimal_text(base as u128), ")");
        let text = concat2(&front, &back);
        assert(text@ =~= "port '"@ + name@ + "' offset source '"@ + parent@ + "' ("@ + decimal(value as nat)
            + ") is below offset_base ("@ + decimal(base as nat) + ")"@);
        return Err(text);
    }
    let delta: u16 = if value < base {
        0
    } else {
        value - base
    };
    match config.default.checked_add(delta) {
        None => {
            let front = concat4("port '", name, "' overflows: default ", &decimal_text(config.default as u128));
            let text = concat4(&front, " + offset ", &decimal_text(delta as u128), " exceeds 65535");
            assert(text@ =~= "port '"@ + name@ + "' overflows: default "@ + decimal(config.default as nat)
                + " + offset "@ + decimal(delta as nat) + " exceeds 65535"@);
            Err(text)
        },
        Some(sum) => check_usable(name, sum),
    }
}

fn resolve_port(
    configs: &TextMap<DevPortConfig>,
    sources: &PortSources,
    dynamic: &TextMap<u16>,
    name: &str,
    seen: TextSet,
) -> (port: Result<u16, String>)
    requires
        configs@.contains_key(name@),
        configs@.dom().finite(),
        offset_fault(configs@, name@, seen@) is None,
    ensures
        match port {
            Ok(number) => port_value(configs@, *sources, dynamic@, name@, seen@) == Ok::<int, Seq<char>>(number as int),
            Err(message) => port_value(configs@, *sources, dynamic@, name@, seen@) == Err::<int, Seq<char>>(message@),
        },
    decreases configs@.dom().difference(seen@).len(),
{
    let config = match configs.get(name) {
        Some(config) => config,
        None => return Err(concat3("unknown service port '", name, "'")),
    };
    match config {
        DevPortConfig::Fixed(value) => check_usable(name, *value),
        DevPortConfig::Dynamic(_) => match dynamic.get(name) {
            Some(value) => check_usable(name, *value),
            None => Err(concat3("dynamic port '", name, "' has not been allocated")),
        },
        DevPortConfig::Resolved(config) => {
            if let Some((key, raw)) = find_explicit(config, sources) {
                return match parse_u16(&raw) {
                    Some(value) => check_usable(name, value),
                    None => Err(concat5("port '", name, "' environment variable ", &key, " is not a valid port")),
                };
            }
            match &config.offset_from {
                None => check_usable(name, config.default),
                Some(parent) => {
                    proof {
                        assert(parent_of(configs@, name@) == Some(parent@));
                        fewer_left(configs@.dom(), seen@, name@);
                    }
                    let mut more = seen;
                    let _ = more.insert(name.to_owned());
                    match resolve_port(configs, sources, dynamic, parent, more) {
                        Err(message) => Err(message),
                        Ok(value) => derive_port(name, config, parent, value),
                    }
                },
            }
        },
    }
}

/// The numbers of all configured ports.
///
/// A port is fixed, or it was allocated, or it is read from the environment;
/// else it is a default, moved with the port that it is offset from.
pub fn resolve_ports(configs: &TextMap<DevPortConfig>, sources: &PortSources, dynamic: &TextMap<u16>) -> (ports: Result<
    TextMap<u16>,
    String,
>)
    ensures
        match ports {
            Ok(map) => resolution_fault(*configs, *sources, dynamic@) is None && resolves(
                configs@,
                *sources,
                dynamic@,
                map@,
            ),
            Err(message) => resolution_fault(*configs, *sources, dynamic@) == Some(message@),
        },
{
    if let Err(message) = validate_port_offsets(configs) {
        return Err(message);
    }
    let ghost names = configs.keys();
    let count = configs.len();
    let mut ports: TextMap<u16> = TextMap::new();
    let mut i: usize = 0;
    assert(names.take(0) =~= Seq::<Seq<char>>::empty());
    assert(ports@.dom() =~= names.take(0).to_set());
    while i < count
        invariant
            i <= count,
            count == names.len(),
            names == configs.keys(),
            configs@.dom().finite(),
            ports_fault(*configs) is None,
            first_value_fault(configs@, *sources, dynamic@, names.take(i as int)) is None,
            ports@.dom() == names.take(i as int).to_set(),
            forall|name: Seq<char>| #[trigger]
                ports@.contains_key(name) ==> port_value(configs@, *sources, dynamic@, name, Set::empty()) == Ok::<
                    int,
                    Seq<char>,
                >(ports@[name] as int),
        decreases count - i,
    {
        let name = configs.key_at(i);
        proof {
            assert(names.take(i + 1).drop_last() =~= names.take(i as int));
            assert(names.take(i + 1).last() == names[i as int]);
            assert(names.take(i + 1) =~= names.take(i as int).push(name@));
            names.take(i as int).lemma_push_to_set_commute(name@);
            chains_end(*configs, name@);
        }
        match resolve_port(configs, sources, dynamic, name, TextSet::new()) {
            Err(message) => {
                proof {
                    value_fault_stays(configs@, *sources, dynamic@, names, i + 1);
                }
                return Err(message);
            },
            Ok(value) => {
                ports.insert(name.clone(), value);
                assert(ports@.dom() =~= names.take(i + 1).to_set());
            },
        }
        i += 1;
    }
    proof {
        assert(names.take(names.len() as int) =~= names);
        assert(ports@.dom() =~= configs@.dom());
    }
    Ok(ports)
}

proof fn value_fault_stays(
    configs: Map<Seq<char>, DevPortConfig>,
    sources: PortSources,
    dynamic: Map<Seq<char>, u16>,
    names: Seq<Seq<char>>,
    count: int,
)
    requires
        0 <= count <= names.len(),
        first_value_fault(configs, sources, dynamic, names.take(count)) is Some,
    ensures
        first_value_fault(configs, sources, dynamic, names) == first_value_fault(
            configs,
            sources,
            dynamic,
            names.take(count),
        ),
    decreases names.len() - count,
{
    if count == names.len() {
        assert(names.take(count) =~= names);
    } else {
        assert(names.take(count + 1).drop_last() =~= names.take(count));
        value_fault_stays(configs, sources, dynamic, names, count + 1);
    }
}

/// Every resolved port is a number from 1 to 65535.
pub proof fn ports_are_usable(
    configs: Map<Seq<char>, DevPortConfig>,
    sources: PortSources,
    dynamic: Map<Seq<char>, u16>,
    name: Seq<char>,
    seen: Set<Seq<char>>,
)
    ensures
        port_value(configs, sources, dynamic, name, seen) matches Ok(value) ==> 1 <= value <= 65535,
    decreases configs.dom().difference(seen).len(),
{
    if configs.contains_key(name) {
        if let DevPortConfig::Resolved(config) = configs[name] {
            if explicit_value(config, sources) is None && config.offset_from is Some && !seen.contains(name)
                && configs.dom().finite() {
                fewer_left(configs.dom(), seen, name);
                ports_are_usable(configs, sources, dynamic, config.offset_from->0@, seen.insert(name));
            }
        }
    }
}

/// Where something is wrong with ports, the first of them is told of; where
/// nothing is, nothing is.
pub proof fn the_first_port_fault_is_told(
    configs: Map<Seq<char>, DevPortConfig>,
    names: Seq<Seq<char>>,
)
    ensures
        first_port_fault(configs, names) is None <==> forall|i: int| 0 <= i < names.len() ==> port_fault(configs, #[trigger] names[i]) is None,
        first_port_fault(configs, names) matches Some(fault) ==> exists|i: int|
            0 <= i < names.len() && port_fault(configs, #[trigger] names[i]) == Some(fault) && forall|j: int|
                0 <= j < i ==> port_fault(configs, #[trigger] names[j]) is None,
    decreases names.len(),
{
    if names.len() > 0 {
        let front = names.drop_last();
        the_first_port_fault_is_told(configs, front);
        assert(forall|i: int| 0 <= i < front.len() ==> #[trigger] front[i] == names[i]);
        assert(names[names.len() - 1] == names.last());
        match first_port_fault(configs, front) {
            Some(fault) => {
                let i = choose|i: int|
                    0 <= i < front.len() && port_fault(configs, #[trigger] front[i]) == Some(fault) && forall|j: int|
                        0 <= j < i ==> port_fault(configs, #[trigger] front[j]) is None;
                assert(port_fault(configs, names[i]) == Some(fault));
                assert forall|j: int| 0 <= j < i implies port_fault(configs, #[trigger] names[j]) is None by {
                    assert(front[j] == names[j]);
                }
            },
            None => {
                assert forall|i: int| 0 <= i < front.len() implies port_fault(configs, #[trigger] names[i]) is None by {
                    assert(front[i] == names[i]);
                }
            },
        }
    }
}

/// Where a port has no number, the first such port is told of; where each has
/// one, nothing is.
pub proof fn the_first_missing_number_is_told(
    configs: Map<Seq<char>, DevPortConfig>,
    sources: PortSources,
    dynamic: Map<Seq<char>, u16>,
    names: Seq<Seq<char>>,
)
    ensures
        first_value_fault(configs, sources, dynamic, names) is None <==> forall|i: int|
            0 <= i < names.len() ==> port_value(configs, sources, dynamic, #[trigger] names[i], Set::empty()) is Ok,
        first_value_fault(configs, sources, dynamic, names) matches Some(fault) ==> exists|i: int|
            0 <= i < names.len() && port_value(configs, sources, dynamic, #[trigger] names[i], Set::empty()) == Err::<
                int,
                Seq<char>,
            >(fault) && forall|j: int|
                0 <= j < i ==> port_value(configs, sources, dynamic, #[trigger] names[j], Set::empty()) is Ok,
    decreases names.len(),
{
    if names.len() > 0 {
        let front = names.drop_last();
        the_first_missing_number_is_told(configs, sources, dynamic, front);
        assert(forall|i: int| 0 <= i < front.len() ==> #[trigger] front[i] == names[i]);
        assert(names[names.len() - 1] == names.last());
        match first_value_fault(configs, sources, dynamic, front) {
            Some(fault) => {
                let i = choose|i: int|
                    0 <= i < front.len() && port_value(configs, sources, dynamic, #[trigger] front[i], Set::empty())
                        == Err::<int, Seq<char>>(fault) && forall|j: int|
                        0 <= j < i ==> port_value(configs, sources, dynamic, #[trigger] front[j], Set::empty()) is Ok;
                assert(names[i] == front[i]);
                assert forall|j: int| 0 <= j < i implies port_value(
                    configs,
                    sources,
                    dynamic,
                    #[trigger] names[j],
                    Set::empty(),
                ) is Ok by {
                    assert(front[j] == names[j]);
                }
            },
            None => {
                assert forall|i: int| 0 <= i < front.len() implies port_value(
                    configs,
                    sources,
                    dynamic,
                    #[trigger] names[i],
                    Set::empty(),
                ) is Ok by {
                    assert(front[i] == names[i]);
                }
            },
        }
    }
}

/// The first name that is set gives the value, and none does where none is set.
pub proof fn the_first_set_name_gives_the_value(keys: Seq<Seq<char>>, values: Map<Seq<char>, String>)
    ensures
        first_set(keys, values) is None <==> forall|i: int| 0 <= i < keys.len() ==> !values.contains_key(#[trigger] keys[i]),
        first_set(keys, values) matches Some((key, value)) ==> exists|i: int|
            0 <= i < keys.len() && (#[trigger] keys[i]) == key && values.contains_key(key) && values[key]@ == value && forall|
                j: int,
            |
                0 <= j < i ==> !values.contains_key(#[trigger] keys[j]),
    decreases keys.len(),
{
    if keys.len() > 0 {
        let front = keys.drop_last();
        the_first_set_name_gives_the_value(front, values);
        assert(forall|i: int| 0 <= i < front.len() ==> #[trigger] front[i] == keys[i]);
        assert(keys[keys.len() - 1] == keys.last());
        match first_set(front, values) {
            Some((key, value)) => {
                let i = choose|i: int|
                    0 <= i < front.len() && (#[trigger] front[i]) == key && values.contains_key(key) && values[key]@
                        == value && forall|j: int| 0 <= j < i ==> !values.contains_key(#[trigger] front[j]);
                assert(keys[i] == key);
                assert forall|j: int| 0 <= j < i implies !values.contains_key(#[trigger] keys[j]) by {
                    assert(front[j] == keys[j]);
                }
            },
            None => {
                assert forall|i: int| 0 <= i < front.len() implies !values.contains_key(#[trigger] keys[i]) by {
                    assert(front[i] == keys[i]);
                }
            },
        }
    }
}

/// A variable of this process decides a port, whatever the files, the offset and
/// the default say.
pub proof fn the_environment_decides_a_port(
    configs: Map<Seq<char>, DevPortConfig>,
    sources: PortSources,
    dynamic: Map<Seq<char>, u16>,
    name: Seq<char>,
    seen: Set<Seq<char>>,
    config: ResolvedDevPortConfig,
    at: int,
)
    requires
        configs.contains_key(name),
        configs[name] == DevPortConfig::Resolved(config),
        0 <= at < config.env@.len(),
        sources.environment@.contains_key(config.env@[at]@),
        forall|i: int| 0 <= i < at ==> !sources.environment@.contains_key((#[trigger] config.env@[i])@),
    ensures
        ({
            let raw = sources.environment@[config.env@[at]@]@;
            port_value(configs, sources, dynamic, name, seen) == (match parsed_number(raw, false, 0xffff) {
                Some(value) => if value == 0 {
                    Err("port '"@ + name + "' must be between 1 and 65535"@)
                } else {
                    Ok(value as int)
                },
                None => Err("port '"@ + name + "' environment variable "@ + config.env@[at]@ + " is not a valid port"@),
            })
        }),
{
    let keys = texts(config.env@);
    the_first_set_name_gives_the_value(keys, sources.environment@);
    assert(keys[at] == config.env@[at]@);
    let (key, value) = first_set(keys, sources.environment@)->0;
    let i = choose|i: int|
        0 <= i < keys.len() && (#[trigger] keys[i]) == key && sources.environment@.contains_key(key)
            && sources.environment@[key]@ == value && forall|j: int|
            0 <= j < i ==> !sources.environment@.contains_key(#[trigger] keys[j]);
    assert(keys[i] == config.env@[i]@);
    if at < i {
        assert(!sources.environment@.contains_key(keys[at]));
    }
    assert(i == at);
}

/// Without a variable, a port that is not derived has its default.
pub proof fn unset_ports_have_their_default(
    configs: Map<Seq<char>, DevPortConfig>,
    sources: PortSources,
    dynamic: Map<Seq<char>, u16>,
    name: Seq<char>,
    seen: Set<Seq<char>>,
    config: ResolvedDevPortConfig,
)
    requires
        configs.contains_key(name),
        configs[name] == DevPortConfig::Resolved(config),
        config.offset_from is None,
        config.default > 0,
        forall|i: int| 0 <= i < config.env@.len() ==> !sources.environment@.contains_key((#[trigger] config.env@[i])@),
        config.file_env matches Some(names) ==> forall|i: int|
            0 <= i < names@.len() ==> !sources.file_env@.contains_key((#[trigger] names@[i])@),
        config.file_env is None ==> forall|i: int|
            0 <= i < config.env@.len() ==> !sources.file_env@.contains_key((#[trigger] config.env@[i])@),
    ensures
        port_value(configs, sources, dynamic, name, seen) == Ok::<int, Seq<char>>(config.default as int),
{
    let keys = texts(config.env@);
    the_first_set_name_gives_the_value(keys, sources.environment@);
    assert forall|i: int| 0 <= i < keys.len() implies !sources.environment@.contains_key(#[trigger] keys[i]) by {
        assert(keys[i] == config.env@[i]@);
    }
    let names = match config.file_env {
        Some(names) => names@,
        None => config.env@,
    };
    let files = texts(names);
    the_first_set_name_gives_the_value(files, sources.file_env@);
    assert forall|i: int| 0 <= i < files.len() implies !sources.file_env@.contains_key(#[trigger] files[i]) by {
        assert(files[i] == names[i]@);
    }
}

/// What was seen on the way to a port can only refuse it, not change its number.
pub proof fn seen_ports_change_no_number(
    configs: Map<Seq<char>, DevPortConfig>,
    sources: PortSources,
    dynamic: Map<Seq<char>, u16>,
    name: Seq<char>,
    seen: Set<Seq<char>>,
    fewer: Set<Seq<char>>,
)
    requires
        fewer.subset_of(seen),
        port_value(configs, sources, dynamic, name, seen) is Ok,
    ensures
        port_value(configs, sources, dynamic, name, fewer) == port_value(configs, sources, dynamic, name, seen),
    decreases configs.dom().difference(seen).len(),
{
    if let DevPortConfig::Resolved(config) = configs[name] {
        if explicit_value(config, sources) is None {
            if let Some(parent) = config.offset_from {
                fewer_left(configs.dom(), seen, name);
                seen_ports_change_no_number(
                    configs,
                    sources,
                    dynamic,
                    parent@,
                    seen.insert(name),
                    fewer.insert(name),
                );
            }
        }
    }
}

/// A derived port is as far from its default as its source is from the baseline,
/// and never below its default.
pub proof fn derived_ports_keep_their_distance(
    configs: Map<Seq<char>, DevPortConfig>,
    sources: PortSources,
    dynamic: Map<Seq<char>, u16>,
    name: Seq<char>,
    config: ResolvedDevPortConfig,
)
    requires
        configs.contains_key(name),
        configs[name] == DevPortConfig::Resolved(config),
        config.offset_from is Some,
        explicit_value(config, sources) is None,
        port_value(configs, sources, dynamic, name, Set::empty()) is Ok,
    ensures
        ({
            let value = port_value(configs, sources, dynamic, name, Set::empty())->Ok_0;
            let source = port_value(configs, sources, dynamic, config.offset_from->0@, Set::empty());
            &&& source is Ok
            &&& config.offset_base is Some
            &&& source->Ok_0 >= config.offset_base->0 ==> value - config.default == source->Ok_0 - config.offset_base->0
            &&& source->Ok_0 < config.offset_base->0 ==> config.saturating_offset && value == config.default
        }),
{
    let parent = config.offset_from->0@;
    let seen = Set::<Seq<char>>::empty().insert(name);
    seen_ports_change_no_number(configs, sources, dynamic, parent, seen, Set::empty());
}

/// One port behind another is what the first is offset from.
pub open spec fn is_parent_chain(configs: Map<Seq<char>, DevPortConfig>, chain: Seq<Seq<char>>) -> bool {
    &&& chain.len() > 0
    &&& forall|i: int|
        0 < i < chain.len() ==> configs.contains_key(#[trigger] chain[i]) && parent_of(configs, chain[i - 1]) == Some(chain[i])
}

proof fn ending_chain_of(configs: Map<Seq<char>, DevPortConfig>, name: Seq<char>, seen: Set<Seq<char>>) -> (chain: Seq<Seq<char>>)
    requires
        offset_fault(configs, name, seen) is None,
    ensures
        is_parent_chain(configs, chain),
        chain[0] == name,
        parent_of(configs, chain.last()) is None,
    decreases configs.dom().difference(seen).len(),
{
    match parent_of(configs, name) {
        None => seq![name],
        Some(parent) => {
            fewer_left(configs.dom(), seen, name);
            let rest = ending_chain_of(configs, parent, seen.insert(name));
            let chain = seq![name] + rest;
            assert forall|i: int| 0 < i < chain.len() implies configs.contains_key(#[trigger] chain[i]) && parent_of(
                configs,
                chain[i - 1],
            ) == Some(chain[i]) by {
                assert(chain[i] == rest[i - 1]);
                if i > 1 {
                    assert(chain[i - 1] == rest[i - 2]);
                }
            }
            assert(chain.last() == rest.last());
            chain
        },
    }
}

proof fn chains_go_the_same_way(configs: Map<Seq<char>, DevPortConfig>, chain: Seq<Seq<char>>, i: int, j: int, steps: int)
    requires
        is_parent_chain(configs, chain),
        0 <= i < j,
        0 <= steps,
        j + steps < chain.len(),
        chain[i] == chain[j],
    ensures
        chain[i + steps] == chain[j + steps],
    decreases steps,
{
    if steps > 0 {
        chains_go_the_same_way(configs, chain, i, j, steps - 1);
        assert(parent_of(configs, chain[i + steps - 1]) == Some(chain[i + steps]));
        assert(parent_of(configs, chain[j + steps - 1]) == Some(chain[j + steps]));
    }
}

proof fn an_ending_chain_is_sound(configs: Map<Seq<char>, DevPortConfig>, chain: Seq<Seq<char>>, at: int)
    requires
        configs.dom().finite(),
        is_parent_chain(configs, chain),
        parent_of(configs, chain.last()) is None,
        0 <= at < chain.len(),
    ensures
        offset_fault(configs, chain[at], chain.take(at).to_set()) is None,
    decreases chain.len() - at,
{
    let last = chain.len() - 1;
    if at < last {
        an_ending_chain_is_sound(configs, chain, at + 1);
        assert(chain[at + 1] == chain[at + 1]);
        assert(parent_of(configs, chain[at]) == Some(chain[at + 1]));
        let seen = chain.take(at).to_set();
        if seen.contains(chain[at]) {
            let i = choose|i: int| 0 <= i < at && chain.take(at)[i] == chain[at];
            assert(chain[i] == chain[at]);
            chains_go_the_same_way(configs, chain, i, at, last - at);
            assert(parent_of(configs, chain[i + last - at]) == Some(chain[i + last - at + 1]));
        }
        assert(chain.take(at + 1).to_set() =~= seen.insert(chain[at])) by {
            assert(chain.take(at + 1) =~= chain.take(at).push(chain[at]));
            chain.take(at).lemma_push_to_set_commute(chain[at]);
        }
    } else {
        assert(chain[at] == chain.last());
    }
}

/// Nothing is wrong with what a port is offset from where the ports one behind the
/// other come to an end, and only there: each is configured, and none leads back.
pub proof fn sound_offsets_end(configs: Map<Seq<char>, DevPortConfig>, name: Seq<char>)
    requires
        configs.dom().finite(),
    ensures
        offset_fault(configs, name, Set::empty()) is None <==> exists|chain: Seq<Seq<char>>| #[trigger]
            is_parent_chain(configs, chain) && chain[0] == name && parent_of(configs, chain.last()) is None,
{
    if offset_fault(configs, name, Set::empty()) is None {
        let chain = ending_chain_of(configs, name, Set::empty());
        assert(is_parent_chain(configs, chain));
    }
    if exists|chain: Seq<Seq<char>>| #[trigger]
        is_parent_chain(configs, chain) && chain[0] == name && parent_of(configs, chain.last()) is None {
        let chain = choose|chain: Seq<Seq<char>>| #[trigger]
            is_parent_chain(configs, chain) && chain[0] == name && parent_of(configs, chain.last()) is None;
        an_ending_chain_is_sound(configs, chain, 0);
        assert(chain.take(0).to_set() =~= Set::<Seq<char>>::empty());
    }
}

/// A fixed port has its configured number, a dynamic one the number it was given; zero
/// is no port, and neither is one that was not given a number or is not configured.
pub proof fn ports_have_their_number(
    configs: Map<Seq<char>, DevPortConfig>,
    sources: PortSources,
    dynamic: Map<Seq<char>, u16>,
    name: Seq<char>,
    seen: Set<Seq<char>>,
)
    ensures
        !configs.contains_key(name) ==> port_value(configs, sources, dynamic, name, seen) is Err,
        configs.contains_key(name) && configs[name] is Fixed && configs[name]->Fixed_0 != 0 ==> port_value(
            configs,
            sources,
            dynamic,
            name,
            seen,
        ) == Ok::<int, Seq<char>>(configs[name]->Fixed_0 as int),
        configs.contains_key(name) && configs[name] is Fixed && configs[name]->Fixed_0 == 0 ==> port_value(
            configs,
            sources,
            dynamic,
            name,
            seen,
        ) is Err,
        configs.contains_key(name) && configs[name] is Dynamic && dynamic.contains_key(name) && dynamic[name] != 0
            ==> port_value(configs, sources, dynamic, name, seen) == Ok::<int, Seq<char>>(dynamic[name] as int),
        configs.contains_key(name) && configs[name] is Dynamic && !dynamic.contains_key(name) ==> port_value(
            configs,
            sources,
            dynamic,
            name,
            seen,
        ) is Err,
{
}

/// A variable of the files decides a port where this process sets none of its
/// variables, whatever the offset and the default say.
pub proof fn the_files_decide_a_port(
    configs: Map<Seq<char>, DevPortConfig>,
    sources: PortSources,
    dynamic: Map<Seq<char>, u16>,
    name: Seq<char>,
    seen: Set<Seq<char>>,
    config: ResolvedDevPortConfig,
    names: Seq<String>,
    at: int,
)
    requires
        configs.contains_key(name),
        configs[name] == DevPortConfig::Resolved(config),
        forall|i: int| 0 <= i < config.env@.len() ==> !sources.environment@.contains_key((#[trigger] config.env@[i])@),
        config.file_env is Some ==> names == config.file_env->0@,
        config.file_env is None ==> names == config.env@,
        0 <= at < names.len(),
        sources.file_env@.contains_key(names[at]@),
        forall|i: int| 0 <= i < at ==> !sources.file_env@.contains_key((#[trigger] names[i])@),
    ensures
        ({
            let raw = sources.file_env@[names[at]@]@;
            port_value(configs, sources, dynamic, name, seen) == (match parsed_number(raw, false, 0xffff) {
                Some(value) => if value == 0 {
                    Err("port '"@ + name + "' must be between 1 and 65535"@)
                } else {
                    Ok(value as int)
                },
                None => Err("port '"@ + name + "' environment variable "@ + names[at]@ + " is not a valid port"@),
            })
        }),
{
    let own = texts(config.env@);
    the_first_set_name_gives_the_value(own, sources.environment@);
    assert forall|i: int| 0 <= i < own.len() implies !sources.environment@.contains_key(#[trigger] own[i]) by {
        assert(own[i] == config.env@[i]@);
    }
    let keys = texts(names);
    the_first_set_name_gives_the_value(keys, sources.file_env@);
    assert(keys[at] == names[at]@);
    let (key, value) = first_set(keys, sources.file_env@)->0;
    let i = choose|i: int|
        0 <= i < keys.len() && (#[trigger] keys[i]) == key && sources.file_env@.contains_key(key)
            && sources.file_env@[key]@ == value && forall|j: int|
            0 <= j < i ==> !sources.file_env@.contains_key(#[trigger] keys[j]);
    assert(keys[i] == names[i]@);
    if at < i {
        assert(!sources.file_env@.contains_key(keys[at]));
    }
    assert(i == at);
}

} // verus!
