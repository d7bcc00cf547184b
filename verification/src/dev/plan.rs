//! From the configuration of services to what is started.
use vstd::prelude::*;
use crate::collections::{ascending_is_listed, listed, TextMap, TextSet, value_texts};
use crate::config::project::CacheConfig;
use crate::config::workspace::{DevServiceConfig, DevWorkspaceConfig};
use crate::dev::allocation::{collect_active_ports, is_active, is_offset_chain, needed_ports, uses_port};
use crate::dev::ports::{resolves, PortSources};
use crate::dev::environment::{bad_key_text, environment_fault, files_values, is_bad_key, load_env_files, validate_environment, validate_environment_key};
use crate::dev::search::{dynamic_names, group_views, port_groups, search_fault, none_is_unknown, start_search, PortSearch};
use crate::dev::services::{authority, authority_text, dev_fault, open_urls, proxies_have_ports, published, resolve_tls_open_urls, select_service_names, selected_services, service_fault, valid_config_facts};
use crate::dev::template::{expand_template, expanded};
use crate::discovery::scanner::{project_address, DiscoveredProject};
use crate::executor::command::{quote_word, shell_quote};
use crate::graph::addressed::last_position;
use crate::graph::builder::project_addresses;
use crate::graph::targets::TargetGraph;
use crate::numbers::{decimal, decimal_text};
use crate::plugins::Target;
use crate::text::{concat2, concat3, concat4, concat5, same_text, split_first, split_once, starts_with, text_option, texts};

verus! {

/// Fully resolved plan for one invocation of `aster services up`.
#[derive(Debug)]
pub struct DevPlan {
    pub services: Vec<ServicePlan>,
    pub ports: TextMap<u16>,
    pub control_port: Option<u16>,
}

/// One configured long-running service.
#[derive(Debug)]
pub struct ServicePlan {
    pub name: String,
    pub target_address: String,
    pub target: Target,
    pub project_root: String,
    pub port: Option<u16>,
    pub open_url: Option<String>,
    pub env: TextMap<String>,
    /// The targets whose inputs restart the service
    pub watch: Vec<String>,
}

/// What services are planned with.
pub struct PlanContext<'a> {
    pub workspace_root: &'a str,
    pub config: &'a DevWorkspaceConfig,
    pub projects: &'a Vec<DiscoveredProject>,
    pub graph: &'a TargetGraph,
    /// The numbers of the named ports
    pub ports: &'a TextMap<u16>,
    /// The contents of the environment files, by service
    pub env_files: &'a TextMap<Vec<String>>,
    /// The environment of this process
    pub environment: &'a TextMap<String>,
    /// Where this program is, if that is known
    pub executable: Option<&'a str>,
}

// ---------------------------------------------------------------------------
// The environment of a service
// ---------------------------------------------------------------------------

/// The error of `serde_json`.
#[verifier::external_type_specification]
#[verifier::external_body]
pub struct ExJsonError(serde_json::Error);

/// Named ports as a JSON object.
pub uninterp spec fn ports_json(ports: Map<Seq<char>, u16>) -> Seq<char>;

/// `serde_json::to_string` of a sorted map from strings to numbers. It fails
/// only where a value cannot be serialised or a key is no string, so it does
/// not fail here.
#[verifier::external_body]
fn encode_ports(ports: &TextMap<u16>) -> (text: Result<String, serde_json::Error>)
    ensures
        text is Ok,
        text->Ok_0@ == ports_json(ports@),
{
    let entries: std::collections::BTreeMap<&str, u16> = (0..ports.len())
        .map(|at| (ports.key_at(at).as_str(), *ports.value_at(at)))
        .collect();
    serde_json::to_string(&entries)
}

/// The number of a service's own port.
pub open spec fn own_port(name: Seq<char>, service: DevServiceConfig, ports: Map<Seq<char>, u16>) -> Result<
    Option<u16>,
    Seq<char>,
> {
    match service.port {
        None => Ok(None),
        Some(port) => if ports.contains_key(port@) {
            Ok(Some(ports[port@]))
        } else {
            Err("service '"@ + name + "' references unknown port '"@ + port@ + "'"@)
        },
    }
}

/// The environment with variables of this process.
pub open spec fn inherited(
    name: Seq<char>,
    keys: Seq<Seq<char>>,
    environment: Map<Seq<char>, String>,
    base: Map<Seq<char>, Seq<char>>,
) -> Result<Map<Seq<char>, Seq<char>>, Seq<char>>
    decreases keys.len(),
{
    if keys.len() == 0 {
        Ok(base)
    } else {
        match inherited(name, keys.drop_last(), environment, base) {
            Err(message) => Err(message),
            Ok(before) => if is_bad_key(keys.last()) {
                Err(bad_key_text(name, keys.last()))
            } else if environment.contains_key(keys.last()) {
                Ok(before.insert(keys.last(), environment[keys.last()]@))
            } else {
                Ok(before)
            },
        }
    }
}

/// The environment with the values that are configured.
pub open spec fn overridden(
    name: Seq<char>,
    keys: Seq<Seq<char>>,
    values: Map<Seq<char>, String>,
    port: Option<u16>,
    ports: TextMap<u16>,
    base: Map<Seq<char>, Seq<char>>,
) -> Result<Map<Seq<char>, Seq<char>>, Seq<char>>
    decreases keys.len(),
{
    if keys.len() == 0 {
        Ok(base)
    } else {
        match overridden(name, keys.drop_last(), values, port, ports, base) {
            Err(message) => Err(message),
            Ok(before) => match expanded(values[keys.last()]@, port, ports) {
                Err(cause) => Err(
                    "invalid env value for service '"@ + name + "' key '"@ + keys.last() + "': "@ + cause,
                ),
                Ok(value) => Ok(before.insert(keys.last(), value)),
            },
        }
    }
}

/// The environment with the numbers of named ports.
pub open spec fn with_port_numbers(
    name: Seq<char>,
    keys: Seq<Seq<char>>,
    names: Map<Seq<char>, String>,
    ports: Map<Seq<char>, u16>,
    base: Map<Seq<char>, Seq<char>>,
) -> Result<Map<Seq<char>, Seq<char>>, Seq<char>>
    decreases keys.len(),
{
    if keys.len() == 0 {
        Ok(base)
    } else {
        match with_port_numbers(name, keys.drop_last(), names, ports, base) {
            Err(message) => Err(message),
            Ok(before) => if ports.contains_key(names[keys.last()]@) {
                Ok(before.insert(keys.last(), decimal(ports[names[keys.last()]@] as nat)))
            } else {
                Err(
                    "service '"@ + name + "' port_env key '"@ + keys.last() + "' references unknown port '"@
                        + names[keys.last()]@ + "'"@,
                )
            },
        }
    }
}

/// The environment with what Aster itself says.
pub open spec fn with_own_variables(
    name: Seq<char>,
    service: DevServiceConfig,
    port: Option<u16>,
    ports: Map<Seq<char>, u16>,
    base: Map<Seq<char>, Seq<char>>,
) -> Map<Seq<char>, Seq<char>> {
    let named = base.insert("ASTER_SERVICE_NAME"@, name);
    let numbered = match port {
        Some(number) => named.insert("ASTER_SERVICE_PORT"@, decimal(number as nat)),
        None => named,
    };
    if service.tls_proxy is Some {
        numbered.insert("ASTER_RESOLVED_PORTS"@, ports_json(ports))
    } else {
        numbered
    }
}

/// The contents of a service's environment files.
pub open spec fn service_files(files: Map<Seq<char>, Vec<String>>, name: Seq<char>) -> Seq<Seq<char>> {
    if files.contains_key(name) {
        texts(files[name]@)
    } else {
        Seq::empty()
    }
}

/// The environment of a service: what its files set, what it inherits, what is
/// configured, the ports it asks for, and what Aster itself says. Later wins.
pub open spec fn service_environment(
    context: PlanContext,
    name: Seq<char>,
    service: DevServiceConfig,
    port: Option<u16>,
) -> Result<Map<Seq<char>, Seq<char>>, Seq<char>> {
    let files = files_values(service_files(context.env_files@, name));
    match inherited(name, texts(service.inherit_env@), context.environment@, files) {
        Err(message) => Err(message),
        Ok(first) => match overridden(name, service.env.keys(), service.env@, port, *context.ports, first) {
            Err(message) => Err(message),
            Ok(second) => match with_port_numbers(
                name,
                service.port_env.keys(),
                service.port_env@,
                context.ports@,
                second,
            ) {
                Err(message) => Err(message),
                Ok(third) => {
                    let all = with_own_variables(name, service, port, context.ports@, third);
                    match environment_fault(name, listed(all.dom()), all) {
                        Some(fault) => Err(fault),
                        None => Ok(all),
                    }
                },
            },
        },
    }
}

fn resolve_own_port(name: &str, service: &DevServiceConfig, ports: &TextMap<u16>) -> (port: Result<Option<u16>, String>)
    ensures
        match port {
            Ok(number) => own_port(name@, *service, ports@) == Ok::<Option<u16>, Seq<char>>(number),
            Err(message) => own_port(name@, *service, ports@) == Err::<Option<u16>, Seq<char>>(message@),
        },
{
    match &service.port {
        None => Ok(None),
        Some(port) => match ports.get(port) {
            Some(number) => Ok(Some(*number)),
            None => Err(concat5("service '", name, "' references unknown port '", port, "'")),
        },
    }
}

fn inherit_variables(
    name: &str,
    keys: &Vec<String>,
    environment: &TextMap<String>,
    values: &mut TextMap<String>,
) -> (done: Result<(), String>)
    ensures
        ({
            let wanted = inherited(name@, texts(keys@), environment@, value_texts(old(values)@));
            match done {
                Ok(_) => wanted == Ok::<Map<Seq<char>, Seq<char>>, Seq<char>>(value_texts(final(values)@)),
                Err(message) => wanted == Err::<Map<Seq<char>, Seq<char>>, Seq<char>>(message@),
            }
        }),
{
    let ghost base = value_texts(values@);
    let ghost all = texts(keys@);
    let mut fault: Option<String> = None;
    let mut i: usize = 0;
    assert(all.take(0) =~= Seq::<Seq<char>>::empty());
    while i < keys.len()
        invariant
            i <= keys@.len(),
            all == texts(keys@),
            match fault {
                Some(message) => inherited(name@, all.take(i as int), environment@, base) == Err::<
                    Map<Seq<char>, Seq<char>>,
                    Seq<char>,
                >(message@),
                None => inherited(name@, all.take(i as int), environment@, base) == Ok::<
                    Map<Seq<char>, Seq<char>>,
                    Seq<char>,
                >(value_texts(values@)),
            },
        decreases keys@.len() - i,
    {
        proof {
            assert(all.take(i + 1).drop_last() =~= all.take(i as int));
            assert(all.take(i + 1).last() == keys@[i as int]@);
        }
        if fault.is_none() {
            let ghost before = value_texts(values@);
            match validate_environment_key(name, &keys[i]) {
                Err(message) => {
                    fault = Some(message);
                },
                Ok(_) => {
                    if let Some(value) = environment.get(&keys[i]) {
                        values.insert(keys[i].clone(), value.clone());
                        assert(value_texts(values@) =~= before.insert(keys@[i as int]@, value@));
                    }
                },
            }
        }
        i += 1;
    }
    assert(all.take(all.len() as int) =~= all);
    match fault {
        Some(message) => Err(message),
        None => Ok(()),
    }
}

fn override_variables(
    name: &str,
    service: &DevServiceConfig,
    port: Option<u16>,
    ports: &TextMap<u16>,
    values: &mut TextMap<String>,
) -> (done: Result<(), String>)
    ensures
        ({
            let wanted = overridden(
                name@,
                service.env.keys(),
                service.env@,
                port,
                *ports,
                value_texts(old(values)@),
            );
            match done {
                Ok(_) => wanted == Ok::<Map<Seq<char>, Seq<char>>, Seq<char>>(value_texts(final(values)@)),
                Err(message) => wanted == Err::<Map<Seq<char>, Seq<char>>, Seq<char>>(message@),
            }
        }),
{
    let ghost base = value_texts(values@);
    let ghost keys = service.env.keys();
    let count = service.env.len();
    let mut fault: Option<String> = None;
    let mut i: usize = 0;
    assert(keys.take(0) =~= Seq::<Seq<char>>::empty());
    while i < count
        invariant
            i <= count,
            count == keys.len(),
            keys == service.env.keys(),
            match fault {
                Some(message) => overridden(name@, keys.take(i as int), service.env@, port, *ports, base) == Err::<
                    Map<Seq<char>, Seq<char>>,
                    Seq<char>,
                >(message@),
                None => overridden(name@, keys.take(i as int), service.env@, port, *ports, base) == Ok::<
                    Map<Seq<char>, Seq<char>>,
                    Seq<char>,
                >(value_texts(values@)),
            },
        decreases count - i,
    {
        let key = service.env.key_at(i);
        proof {
            assert(keys.take(i + 1).drop_last() =~= keys.take(i as int));
            assert(keys.take(i + 1).last() == key@);
        }
        if fault.is_none() {
            let ghost before = value_texts(values@);
            match expand_template(service.env.value_at(i), port, ports) {
                Err(cause) => {
                    let front = concat5("invalid env value for service '", name, "' key '", key, "': ");
                    fault = Some(concat2(&front, &cause));
                },
                Ok(value) => {
                    let ghost filled = value@;
                    values.insert(key.clone(), value);
                    assert(value_texts(values@) =~= before.insert(key@, filled));
                },
            }
        }
        i += 1;
    }
    assert(keys.take(keys.len() as int) =~= keys);
    match fault {
        Some(message) => Err(message),
        None => Ok(()),
    }
}

fn add_port_numbers(
    name: &str,
    service: &DevServiceConfig,
    ports: &TextMap<u16>,
    values: &mut TextMap<String>,
) -> (done: Result<(), String>)
    ensures
        ({
            let wanted = with_port_numbers(
                name@,
                service.port_env.keys(),
                service.port_env@,
                ports@,
                value_texts(old(values)@),
            );
            match done {
                Ok(_) => wanted == Ok::<Map<Seq<char>, Seq<char>>, Seq<char>>(value_texts(final(values)@)),
                Err(message) => wanted == Err::<Map<Seq<char>, Seq<char>>, Seq<char>>(message@),
            }
        }),
{
    let ghost base = value_texts(values@);
    let ghost keys = service.port_env.keys();
    let count = service.port_env.len();
    let mut fault: Option<String> = None;
    let mut i: usize = 0;
    assert(keys.take(0) =~= Seq::<Seq<char>>::empty());
    while i < count
        invariant
            i <= count,
            count == keys.len(),
            keys == service.port_env.keys(),
            match fault {
                Some(message) => with_port_numbers(name@, keys.take(i as int), service.port_env@, ports@, base) == Err::<
                    Map<Seq<char>, Seq<char>>,
                    Seq<char>,
                >(message@),
                None => with_port_numbers(name@, keys.take(i as int), service.port_env@, ports@, base) == Ok::<
                    Map<Seq<char>, Seq<char>>,
                    Seq<char>,
                >(value_texts(values@)),
            },
        decreases count - i,
    {
        let key = service.port_env.key_at(i);
        let port_name = service.port_env.value_at(i);
        proof {
            assert(keys.take(i + 1).drop_last() =~= keys.take(i as int));
            assert(keys.take(i + 1).last() == key@);
        }
        if fault.is_none() {
            let ghost before = value_texts(values@);
            match ports.get(port_name) {
                None => {
                    let front = concat5("service '", name, "' port_env key '", key, "' references unknown port '");
                    fault = Some(concat3(&front, port_name, "'"));
                },
                Some(number) => {
                    let value = decimal_text(*number as u128);
                    let ghost written = value@;
                    values.insert(key.clone(), value);
                    assert(value_texts(values@) =~= before.insert(key@, written));
                },
            }
        }
        i += 1;
    }
    assert(keys.take(keys.len() as int) =~= keys);
    match fault {
        Some(message) => Err(message),
        None => Ok(()),
    }
}

fn resolve_environment(
    context: &PlanContext,
    name: &str,
    service: &DevServiceConfig,
    port: Option<u16>,
) -> (values: Result<TextMap<String>, String>)
    ensures
        match values {
            Ok(map) => service_environment(*context, name@, *service, port) == Ok::<
                Map<Seq<char>, Seq<char>>,
                Seq<char>,
            >(value_texts(map@)),
            Err(message) => service_environment(*context, name@, *service, port) == Err::<
                Map<Seq<char>, Seq<char>>,
                Seq<char>,
            >(message@),
        },
{
    let mut values = match context.env_files.get(name) {
        Some(contents) => load_env_files(contents),
        None => {
            let none: Vec<String> = Vec::new();
            assert(texts(none@) =~= Seq::<Seq<char>>::empty());
            load_env_files(&none)
        },
    };
    if let Err(message) = inherit_variables(name, &service.inherit_env, context.environment, &mut values) {
        return Err(message);
    }
    if let Err(message) = override_variables(name, service, port, context.ports, &mut values) {
        return Err(message);
    }
    if let Err(message) = add_port_numbers(name, service, context.ports, &mut values) {
        return Err(message);
    }
    let ghost third = value_texts(values@);
    values.insert("ASTER_SERVICE_NAME".to_owned(), name.to_owned());
    let ghost named = third.insert("ASTER_SERVICE_NAME"@, name@);
    assert(value_texts(values@) =~= named);
    if let Some(number) = port {
        values.insert("ASTER_SERVICE_PORT".to_owned(), decimal_text(number as u128));
        assert(value_texts(values@) =~= named.insert("ASTER_SERVICE_PORT"@, decimal(number as nat)));
    }
    if service.tls_proxy.is_some() {
        let ghost numbered = value_texts(values@);
        match encode_ports(context.ports) {
            Ok(text) => {
                let ghost encoded = text@;
                values.insert("ASTER_RESOLVED_PORTS".to_owned(), text);
                assert(value_texts(values@) =~= numbered.insert("ASTER_RESOLVED_PORTS"@, encoded));
            },
            Err(_) => return Err("failed to encode resolved TLS ports".to_owned()),
        }
    }
    assert(value_texts(values@) == with_own_variables(name@, *service, port, context.ports@, third));
    assert(value_texts(values@).dom() =~= values@.dom());
    match validate_environment(name, &values) {
        Ok(_) => Ok(values),
        Err(message) => Err(message),
    }
}

// ---------------------------------------------------------------------------
// The target of a service
// ---------------------------------------------------------------------------

/// What a service runs.
pub struct ChosenTarget {
    pub address: Seq<char>,
    /// The command before its ports are filled in
    pub command: Seq<char>,
    pub root: Seq<char>,
    pub open_url: Option<Seq<char>>,
    pub watch: Seq<Seq<char>>,
    /// The project, by its place, and the target's name; none for a proxy
    pub source: Option<(int, Seq<char>)>,
}

/// The path of a service's page, with a slash in front where there is one.
pub open spec fn page_path(open_path: Option<String>) -> Seq<char> {
    match open_path {
        None => Seq::empty(),
        Some(path) => if path@.len() == 0 || path@[0] == '/' {
            path@
        } else {
            "/"@ + path@
        },
    }
}

/// Where a service with a target is opened: behind the proxy that publishes
/// its port, else on this machine.
pub open spec fn target_url(service: DevServiceConfig, port: Option<u16>, urls: Map<Seq<char>, Seq<char>>) -> Option<
    Seq<char>,
> {
    match service.port {
        None => None,
        Some(port_name) => if urls.contains_key(port_name@) {
            Some(urls[port_name@] + page_path(service.open_path))
        } else {
            match port {
                Some(number) => Some(
                    "http://localhost:"@ + decimal(number as nat) + page_path(service.open_path),
                ),
                None => None,
            }
        },
    }
}

/// Where a proxy is opened.
pub open spec fn proxy_url(service: DevServiceConfig, port: Option<u16>) -> Option<Seq<char>> {
    match port {
        Some(number) => Some(
            "https://"@ + authority(service.tls_proxy->0.open_host@, number) + page_path(service.open_path),
        ),
        None => None,
    }
}

/// The target that a service names, or why there is none to run.
pub open spec fn named_target(
    context: PlanContext,
    name: Seq<char>,
    service: DevServiceConfig,
    port: Option<u16>,
    urls: Map<Seq<char>, Seq<char>>,
) -> Result<ChosenTarget, Seq<char>> {
    let address = service.target->0@;
    match split_first(address, ':') {
        None => Err("service '"@ + name + "' target must use //project:target syntax: "@ + address),
        Some((project_address, _)) => match last_position(project_addresses(context.projects@), project_address) {
            None => Err("service '"@ + name + "' references unknown project "@ + project_address),
            Some(at) => match context.graph.node_at(address) {
                None => Err("service '"@ + name + "' references unknown target "@ + address),
                Some(node) => {
                    let target_name = context.graph.nodes@[node].target_name@;
                    let targets = context.projects@[at].targets@;
                    if !targets.contains_key(target_name) {
                        Err("target definition missing for "@ + address)
                    } else if !targets[target_name].stream {
                        Err("service '"@ + name + "' target "@ + address + " must set stream = true"@)
                    } else {
                        Ok(
                            ChosenTarget {
                                address,
                                command: targets[target_name].command@,
                                root: context.projects@[at].root@,
                                open_url: target_url(service, port, urls),
                                watch: seq![address],
                                source: Some((at, target_name)),
                            },
                        )
                    }
                },
            },
        },
    }
}

/// What a service runs: its target, or the proxy that Aster serves itself.
pub open spec fn chosen_target(
    context: PlanContext,
    name: Seq<char>,
    service: DevServiceConfig,
    port: Option<u16>,
    urls: Map<Seq<char>, Seq<char>>,
) -> Result<ChosenTarget, Seq<char>> {
    if service.target is Some {
        named_target(context, name, service, port, urls)
    } else {
        match context.executable {
            None => Err("failed to locate the Aster executable for TLS proxy service"@),
            Some(executable) => Ok(
                ChosenTarget {
                    address: "builtin:tls-proxy:"@ + name,
                    command: shell_quote(executable@) + " services tls serve "@ + shell_quote(name),
                    root: context.workspace_root@,
                    open_url: proxy_url(service, port),
                    watch: Seq::empty(),
                    source: None,
                },
            ),
        }
    }
}

/// The settings of a cache agree.
pub open spec fn same_cache(one: Option<CacheConfig>, other: Option<CacheConfig>) -> bool {
    match (one, other) {
        (None, None) => true,
        (Some(a), Some(b)) => {
            &&& a.enabled == b.enabled
            &&& texts(a.include_globs@) == texts(b.include_globs@)
            &&& texts(a.exclude_globs@) == texts(b.exclude_globs@)
            &&& texts(a.env@) == texts(b.env@)
            &&& texts(a.outputs@) == texts(b.outputs@)
        },
        _ => false,
    }
}

/// The target with another command.
pub open spec fn with_command(result: Target, target: Target, command: Seq<char>) -> bool {
    &&& result.command@ == command
    &&& texts(result.depends_on@) == texts(target.depends_on@)
    &&& result.capabilities@ == target.capabilities@
    &&& text_option(result.files_glob) == text_option(target.files_glob)
    &&& result.stream == target.stream
    &&& same_cache(result.cache, target.cache)
    &&& result.invalidates_cache == target.invalidates_cache
    &&& text_option(result.working_dir) == text_option(target.working_dir)
    &&& texts(result.exclusive_resources@) == texts(target.exclusive_resources@)
}

/// A target that streams a command and has no other settings.
pub open spec fn only_command(result: Target, command: Seq<char>) -> bool {
    &&& result.command@ == command
    &&& result.depends_on@.len() == 0
    &&& result.capabilities@ == Set::<Seq<char>>::empty()
    &&& result.files_glob is None
    &&& result.stream
    &&& result.cache is None
    &&& !result.invalidates_cache
    &&& result.working_dir is None
    &&& result.exclusive_resources@.len() == 0
}

fn copy_option(text: &Option<String>) -> (copy: Option<String>)
    ensures
        text_option(copy) == text_option(*text),
{
    match text {
        Some(value) => Some(value.clone()),
        None => None,
    }
}

fn replace_command(target: &Target, command: String) -> (result: Target)
    ensures
        with_command(result, *target, command@),
{
    let cache = match &target.cache {
        Some(config) => Some(
            CacheConfig {
                enabled: config.enabled,
                include_globs: config.include_globs.clone(),
                exclude_globs: config.exclude_globs.clone(),
                env: config.env.clone(),
                outputs: config.outputs.clone(),
            },
        ),
        None => None,
    };
    Target {
        command,
        depends_on: target.depends_on.clone(),
        capabilities: target.capabilities.clone(),
        files_glob: copy_option(&target.files_glob),
        stream: target.stream,
        cache,
        invalidates_cache: target.invalidates_cache,
        working_dir: copy_option(&target.working_dir),
        exclusive_resources: target.exclusive_resources.clone(),
    }
}

fn find_project(projects: &Vec<DiscoveredProject>, address: &str) -> (found: Option<usize>)
    ensures
        found is Some <==> last_position(project_addresses(projects@), address@) is Some,
        found matches Some(at) ==> last_position(project_addresses(projects@), address@) == Some(at as int) && at
            < projects@.len(),
{
    let ghost all = project_addresses(projects@);
    let mut i: usize = projects.len();
    assert(all.take(all.len() as int) =~= all);
    while i > 0
        invariant
            i <= projects@.len(),
            all == project_addresses(projects@),
            last_position(all, address@) == last_position(all.take(i as int), address@),
        decreases i,
    {
        assert(all.take(i as int).drop_last() =~= all.take(i - 1));
        i -= 1;
        if same_text(&project_address(&projects[i].relative_path), address) {
            return Some(i);
        }
    }
    None
}

fn page_path_text(open_path: &Option<String>) -> (path: String)
    ensures
        path@ == page_path(*open_path),
{
    match open_path {
        None => {
            let empty = String::new();
            assert(empty@ =~= Seq::<char>::empty());
            empty
        },
        Some(path) => {
            proof {
                reveal_strlit("/");
                assert("/"@.is_prefix_of(path@) <==> path@.len() > 0 && path@[0] == '/') by {
                    if path@.len() > 0 {
                        assert(path@.subrange(0, 1) =~= seq![path@[0]]);
                        assert("/"@ =~= seq!['/']);
                        assert(seq![path@[0]][0] == path@[0]);
                    }
                }
            }
            if path.as_str().is_empty() || starts_with(path, "/") {
                path.clone()
            } else {
                concat2("/", path)
            }
        },
    }
}

// ---------------------------------------------------------------------------
// The plan of a service
// ---------------------------------------------------------------------------

/// Why a service cannot be planned.
pub open spec fn plan_fault(context: PlanContext, name: Seq<char>, urls: Map<Seq<char>, Seq<char>>) -> Option<Seq<char>> {
    let service = context.config.services@[name];
    match own_port(name, service, context.ports@) {
        Err(message) => Some(message),
        Ok(port) => match service_environment(context, name, service, port) {
            Err(message) => Some(message),
            Ok(_) => match chosen_target(context, name, service, port, urls) {
                Err(message) => Some(message),
                Ok(chosen) => match expanded(chosen.command, port, *context.ports) {
                    Err(cause) => Some("invalid command for service '"@ + name + "': "@ + cause),
                    Ok(_) => None,
                },
            },
        },
    }
}

/// The plan is the one of the service.
pub open spec fn is_plan(
    context: PlanContext,
    name: Seq<char>,
    urls: Map<Seq<char>, Seq<char>>,
    plan: ServicePlan,
) -> bool {
    let service = context.config.services@[name];
    let port = own_port(name, service, context.ports@)->Ok_0;
    let chosen = chosen_target(context, name, service, port, urls)->Ok_0;
    let command = expanded(chosen.command, port, *context.ports)->Ok_0;
    &&& plan_fault(context, name, urls) is None
    &&& plan.name@ == name
    &&& plan.target_address@ == chosen.address
    &&& plan.project_root@ == chosen.root
    &&& plan.port == port
    &&& text_option(plan.open_url) == chosen.open_url
    &&& value_texts(plan.env@) == service_environment(context, name, service, port)->Ok_0
    &&& texts(plan.watch@) == chosen.watch
    &&& match chosen.source {
        Some((at, target)) => with_command(plan.target, context.projects@[at].targets@[target], command),
        None => only_command(plan.target, command),
    }
}

fn plan_named_target(
    context: &PlanContext,
    name: &str,
    service: &DevServiceConfig,
    address: &String,
    port: Option<u16>,
    urls: &TextMap<String>,
) -> (found: Result<(usize, String, Option<String>), String>)
    requires
        context.graph.well_formed(),
        service.target is Some,
        service.target->0@ == address@,
    ensures
        ({
            let wanted = named_target(*context, name@, *service, port, value_texts(urls@));
            match found {
                Ok((at, target_name, open_url)) => {
                    &&& wanted is Ok
                    &&& at < context.projects@.len()
                    &&& wanted->Ok_0.source == Some((at as int, target_name@))
                    &&& wanted->Ok_0.open_url == text_option(open_url)
                    &&& context.projects@[at as int].targets@.contains_key(target_name@)
                },
                Err(message) => wanted == Err::<ChosenTarget, Seq<char>>(message@),
            }
        }),
{
    let project_name = match split_once(address, ':') {
        None => return Err(concat4("service '", name, "' target must use //project:target syntax: ", address)),
        Some((front, _)) => front,
    };
    let at = match find_project(context.projects, &project_name) {
        None => return Err(concat4("service '", name, "' references unknown project ", &project_name)),
        Some(at) => at,
    };
    let node = match context.graph.get(address) {
        None => return Err(concat4("service '", name, "' references unknown target ", address)),
        Some(node) => node,
    };
    let target = match context.projects[at].targets.get(&node.target_name) {
        None => return Err(concat2("target definition missing for ", address)),
        Some(target) => target,
    };
    if !target.stream {
        return Err(concat5("service '", name, "' target ", address, " must set stream = true"));
    }
    let path = page_path_text(&service.open_path);
    let open_url = match &service.port {
        None => None,
        Some(port_name) => match urls.get(port_name) {
            Some(base) => {
                assert(value_texts(urls@).contains_key(port_name@));
                Some(concat2(base, &path))
            },
            None => match port {
                Some(number) => Some(concat3("http://localhost:", &decimal_text(number as u128), &path)),
                None => None,
            },
        },
    };
    Ok((at, node.target_name.clone(), open_url))
}

fn plan_service(context: &PlanContext, name: &String, urls: &TextMap<String>) -> (plan: Result<ServicePlan, String>)
    requires
        context.graph.well_formed(),
        context.config.services@.contains_key(name@),
        service_fault(name@, context.config.services@[name@]) is None,
    ensures
        match plan {
            Ok(planned) => is_plan(*context, name@, value_texts(urls@), planned),
            Err(message) => plan_fault(*context, name@, value_texts(urls@)) == Some(message@),
        },
{
    let service = match context.config.services.get(name) {
        Some(service) => service,
        None => return Err(String::new()),
    };
    let port = match resolve_own_port(name, service, context.ports) {
        Ok(port) => port,
        Err(message) => return Err(message),
    };
    let env = match resolve_environment(context, name, service, port) {
        Ok(env) => env,
        Err(message) => return Err(message),
    };
    let ghost wanted = chosen_target(*context, name@, *service, port, value_texts(urls@));
    if let Some(address) = &service.target {
        let (at, target_name, open_url) = match plan_named_target(context, name, service, address, port, urls) {
            Ok(found) => found,
            Err(message) => return Err(message),
        };
        let target = match context.projects[at].targets.get(&target_name) {
            Some(target) => target,
            None => return Err(String::new()),
        };
        let command = match expand_template(&target.command, port, context.ports) {
            Ok(command) => command,
            Err(cause) => return Err(concat4("invalid command for service '", name, "': ", &cause)),
        };
        let mut watch: Vec<String> = Vec::new();
        watch.push(address.clone());
        assert(texts(watch@) =~= seq![address@]);
        return Ok(
            ServicePlan {
                name: name.clone(),
                target_address: address.clone(),
                target: replace_command(target, command),
                project_root: context.projects[at].root.clone(),
                port,
                open_url,
                env,
                watch,
            },
        );
    }
    let executable = match context.executable {
        None => return Err("failed to locate the Aster executable for TLS proxy service".to_owned()),
        Some(path) => path,
    };
    let template = concat3(&quote_word(executable), " services tls serve ", &quote_word(name));
    let command = match expand_template(&template, port, context.ports) {
        Ok(command) => command,
        Err(cause) => return Err(concat4("invalid command for service '", name, "': ", &cause)),
    };
    let open_url = match (&service.tls_proxy, port) {
        (Some(proxy), Some(number)) => {
            let path = page_path_text(&service.open_path);
            Some(concat3("https://", &authority_text(&proxy.open_host, number), &path))
        },
        _ => None,
    };
    let watch: Vec<String> = Vec::new();
    assert(texts(watch@) =~= Seq::<Seq<char>>::empty());
    Ok(
        ServicePlan {
            name: name.clone(),
            target_address: concat2("builtin:tls-proxy:", name),
            target: Target {
                command,
                depends_on: Vec::new(),
                capabilities: TextSet::new(),
                files_glob: None,
                stream: true,
                cache: None,
                invalidates_cache: false,
                working_dir: None,
                exclusive_resources: Vec::new(),
            },
            project_root: context.workspace_root.to_owned(),
            port,
            open_url,
            env,
            watch,
        },
    )
}

// ---------------------------------------------------------------------------
// The plan of a run
// ---------------------------------------------------------------------------

/// A list in startup order with one more service, behind those of the same
/// order.
pub open spec fn placed(
    services: Map<Seq<char>, DevServiceConfig>,
    list: Seq<Seq<char>>,
    name: Seq<char>,
) -> Seq<Seq<char>>
    decreases list.len(),
{
    if list.len() == 0 || !(services[name].order < services[list.last()].order) {
        list.push(name)
    } else {
        placed(services, list.drop_last(), name).push(list.last())
    }
}

/// The selected services in startup order. Ties keep the order of the names.
pub open spec fn startup_order(
    services: Map<Seq<char>, DevServiceConfig>,
    names: Seq<Seq<char>>,
    selected: Set<Seq<char>>,
) -> Seq<Seq<char>>
    decreases names.len(),
{
    if names.len() == 0 {
        Seq::empty()
    } else {
        let before = startup_order(services, names.drop_last(), selected);
        if selected.contains(names.last()) {
            placed(services, before, names.last())
        } else {
            before
        }
    }
}

/// Why the first service that cannot be planned cannot be.
pub open spec fn first_plan_fault(
    context: PlanContext,
    names: Seq<Seq<char>>,
    urls: Map<Seq<char>, Seq<char>>,
) -> Option<Seq<char>>
    decreases names.len(),
{
    if names.len() == 0 {
        None
    } else {
        match first_plan_fault(context, names.drop_last(), urls) {
            Some(fault) => Some(fault),
            None => plan_fault(context, names.last(), urls),
        }
    }
}

proof fn placed_at(services: Map<Seq<char>, DevServiceConfig>, list: Seq<Seq<char>>, name: Seq<char>, at: int)
    requires
        0 <= at <= list.len(),
        forall|k: int| at <= k < list.len() ==> services[name].order < services[#[trigger] list[k]].order,
        at > 0 ==> !(services[name].order < services[list[at - 1]].order),
    ensures
        placed(services, list, name) == list.insert(at, name),
    decreases list.len(),
{
    if at == list.len() {
        assert(list.insert(at, name) =~= list.push(name));
    } else {
        assert(services[name].order < services[list[list.len() - 1]].order);
        let fewer = list.drop_last();
        assert forall|k: int| at <= k < fewer.len() implies services[name].order < services[#[trigger] fewer[k]].order by {
            assert(fewer[k] == list[k]);
        }
        placed_at(services, fewer, name, at);
        assert(list.insert(at, name) =~= fewer.insert(at, name).push(list.last()));
    }
}

fn order_services(config: &DevWorkspaceConfig, selected: &TextSet) -> (list: Vec<String>)
    ensures
        texts(list@) == startup_order(config.services@, config.services.keys(), selected@),
        forall|k: int| 0 <= k < list@.len() ==> config.services@.contains_key((#[trigger] list@[k])@),
{
    let ghost names = config.services.keys();
    let count = config.services.len();
    let mut list: Vec<String> = Vec::new();
    let mut i: usize = 0;
    assert(names.take(0) =~= Seq::<Seq<char>>::empty());
    assert(texts(list@) =~= Seq::<Seq<char>>::empty());
    while i < count
        invariant
            i <= count,
            count == names.len(),
            names == config.services.keys(),
            texts(list@) == startup_order(config.services@, names.take(i as int), selected@),
            forall|k: int| 0 <= k < list@.len() ==> config.services@.contains_key((#[trigger] list@[k])@),
        decreases count - i,
    {
        let name = config.services.key_at(i);
        let order: i32 = config.services.value_at(i).order;
        proof {
            assert(names.take(i + 1).drop_last() =~= names.take(i as int));
            assert(names.take(i + 1).last() == name@);
        }
        if selected.contains(name) {
            let ghost before = texts(list@);
            let ghost old_list = list@;
            let mut at: usize = list.len();
            let mut later = true;
            while at > 0 && later
                invariant
                    at <= list@.len(),
                    list@ == old_list,
                    before == texts(list@),
                    config.services@.contains_key(name@),
                    order == config.services@[name@].order,
                    forall|k: int| 0 <= k < list@.len() ==> config.services@.contains_key((#[trigger] list@[k])@),
                    forall|k: int| at <= k < before.len() ==> order < config.services@[#[trigger] before[k]].order,
                    !later ==> at > 0 && !(order < config.services@[before[at - 1]].order),
                decreases at, (if later { 1int } else { 0int }),
            {
                assert(before[at - 1] == list@[at - 1]@);
                later = match config.services.get(&list[at - 1]) {
                    Some(service) => order < service.order,
                    None => false,
                };
                if later {
                    at -= 1;
                }
            }
            list.insert(at, name.clone());
            proof {
                assert(texts(list@) =~= before.insert(at as int, name@));
                placed_at(config.services@, before, name@, at as int);
                assert forall|k: int| 0 <= k < list@.len() implies config.services@.contains_key(
                    (#[trigger] list@[k])@,
                ) by {
                    if k < at {
                        assert(list@[k] == old_list[k]);
                    } else if k > at {
                        assert(list@[k] == old_list[k - 1]);
                    }
                }
            }
        }
        i += 1;
    }
    assert(names.take(names.len() as int) =~= names);
    list
}

/// The port that a run is controlled through: that of its group, or of the
/// group `main` without one, else that of the workspace.
pub open spec fn control_port_of(config: DevWorkspaceConfig, group: Option<Seq<char>>) -> Option<Seq<char>> {
    let name = match group {
        Some(name) => name,
        None => "main"@,
    };
    if config.service_groups@.contains_key(name) && config.service_groups@[name].own_control_port() is Some {
        Some(config.service_groups@[name].own_control_port()->0@)
    } else {
        text_option(config.control_port)
    }
}

/// The port that a run is controlled through.
pub fn select_control_port<'a>(config: &'a DevWorkspaceConfig, group: Option<&str>) -> (port: Option<&'a String>)
    ensures
        (match port {
            Some(name) => Some(name@),
            None => None,
        }) == control_port_of(
            *config,
            match group {
                Some(name) => Some(name@),
                None => None,
            },
        ),
{
    let name = match group {
        Some(name) => name,
        None => "main",
    };
    if let Some(found) = config.service_groups.get(name) {
        if let Some(port) = found.control_port() {
            return Some(port);
        }
    }
    config.control_port.as_ref()
}

/// What a run begins with.
pub struct PlanStart {
    pub selected: TextSet,
    pub control_port: Option<String>,
    pub search: PortSearch,
}

/// What is said where no service is configured.
pub open spec fn no_services() -> Seq<char> {
    "no services configured; add [dev.services.<name>] to aster.toml"@
}

/// The names of the ports that a run needs, in ascending order.
pub open spec fn active_names(
    config: DevWorkspaceConfig,
    selected: Set<Seq<char>>,
    control_port: Option<Seq<char>>,
) -> Seq<Seq<char>> {
    listed(Set::new(|name: Seq<char>| is_active(config, needed_ports(config, selected, control_port), name)))
}

/// Why a run cannot begin.
pub open spec fn start_fault(config: DevWorkspaceConfig, group: Option<Seq<char>>) -> Option<Seq<char>> {
    if config.services.keys().len() == 0 {
        Some(no_services())
    } else {
        match selected_services(config, group) {
            Err(message) => Some(message),
            Ok(selected) => search_fault(
                config.ports,
                active_names(config, selected, control_port_of(config, group)),
            ),
        }
    }
}

/// The ports of the selected services are configured.
pub open spec fn used_ports_known(config: DevWorkspaceConfig, selected: Set<Seq<char>>) -> bool {
    forall|name: Seq<char>| #[trigger]
        selected.contains(name) && config.services@[name].port is Some ==> config.ports@.contains_key(
            config.services@[name].port->0@,
        )
}

/// Once a run has started, every number that the search can end with serves
/// its services: none of them lacks the number of its port.
pub proof fn searched_ports_serve_the_services(
    config: DevWorkspaceConfig,
    selected: Set<Seq<char>>,
    sources: PortSources,
    dynamic: Map<Seq<char>, u16>,
    ports: Map<Seq<char>, u16>,
    name: Seq<char>,
)
    requires
        dev_fault(config) is None,
        used_ports_known(config, selected),
        resolves(config.ports@, sources, dynamic, ports),
        selected.contains(name),
    ensures
        own_port(name, config.services@[name], ports) is Ok,
        proxies_have_ports(config, selected, ports),
{
    assert forall|other: Seq<char>| #[trigger]
        config.services@.contains_key(other) && selected.contains(other) && config.services@[other].tls_proxy is Some implies config.services@[other].port is Some
        && ports.contains_key(config.services@[other].port->0@) by {
        valid_config_facts(config, other, other);
    }
}

/// Begin to plan a run: select its services and its control port, and begin
/// the search for its ports.
pub fn start_dev_plan(config: &DevWorkspaceConfig, group: Option<&str>) -> (start: Result<PlanStart, String>)
    ensures
        ({
            let name = match group {
                Some(name) => Some(name@),
                None => None,
            };
            match start {
                Ok(started) => {
                    &&& start_fault(*config, name) is None
                    &&& dev_fault(*config) is None
                    &&& used_ports_known(*config, started.selected@)
                    &&& selected_services(*config, name) == Ok::<Set<Seq<char>>, Seq<char>>(started.selected@)
                    &&& text_option(started.control_port) == control_port_of(*config, name)
                    &&& started.search.well_formed(config.ports)
                    &&& started.search.at == 0
                    &&& started.search.refused == 0
                    &&& group_views(started.search.groups@) == port_groups(
                        config.ports@,
                        active_names(*config, started.selected@, control_port_of(*config, name)),
                        dynamic_names(config.ports),
                    )
                },
                Err(message) => start_fault(*config, name) == Some(message@),
            }
        }),
{
    if config.services.is_empty() {
        return Err("no services configured; add [dev.services.<name>] to aster.toml".to_owned());
    }
    let selected = match select_service_names(config, group) {
        Ok(selected) => selected,
        Err(message) => return Err(message),
    };
    let port = select_control_port(config, group);
    let active = collect_active_ports(config, &selected, port);
    let _ = active.len();
    proof {
        ascending_is_listed(active.items());
        let control = match port {
            Some(name) => Some(name@),
            None => None,
        };
        assert(active@ =~= Set::new(
            |name: Seq<char>| is_active(*config, needed_ports(*config, selected@, control), name),
        ));
        assert(active.items() == active_names(*config, selected@, control));
    }
    match start_search(&config.ports, &active) {
        Ok(search) => {
            proof {
                let control = match port {
                    Some(name) => Some(name@),
                    None => None,
                };
                let needed = needed_ports(*config, selected@, control);
                assert forall|name: Seq<char>| #[trigger]
                    selected@.contains(name) && config.services@[name].port is Some implies config.ports@.contains_key(
                    config.services@[name].port->0@,
                ) by {
                    let used = config.services@[name].port->0@;
                    assert(uses_port(config.services@[name], used));
                    assert(needed.contains(used));
                    assert(is_offset_chain(config.ports@, seq![used]));
                    assert(is_active(*config, needed, used));
                    assert(active@.contains(used));
                    let at = choose|at: int| 0 <= at < active.items().len() && active.items()[at] == used;
                    none_is_unknown(config.ports@, active.items(), at);
                }
            }
            let control_port = match port {
                Some(name) => Some(name.clone()),
                None => None,
            };
            Ok(PlanStart { selected, control_port, search })
        },
        Err(message) => Err(message),
    }
}

/// Why a run cannot be planned once its ports have numbers.
pub open spec fn run_fault(
    context: PlanContext,
    group: Option<Seq<char>>,
    selected: Set<Seq<char>>,
    control_port: Option<Seq<char>>,
) -> Option<Seq<char>> {
    let names = startup_order(context.config.services@, context.config.services.keys(), selected);
    if control_port is Some && !context.ports@.contains_key(control_port->0) {
        Some("control_port references unknown service port '"@ + control_port->0 + "'"@)
    } else {
        match open_urls(published(context.config.services@, context.config.services.keys(), selected, context.ports@)) {
            Err(message) => Some(message),
            Ok(urls) => match first_plan_fault(context, names, urls) {
                Some(fault) => Some(fault),
                None => if names.len() > 0 {
                    None
                } else {
                    match group {
                        Some(name) => Some("service group '"@ + name + "' has no services"@),
                        None => Some("no services configured for the default run"@),
                    }
                },
            },
        }
    }
}

proof fn plan_fault_stays(
    context: PlanContext,
    names: Seq<Seq<char>>,
    urls: Map<Seq<char>, Seq<char>>,
    count: int,
)
    requires
        0 <= count <= names.len(),
        first_plan_fault(context, names.take(count), urls) is Some,
    ensures
        first_plan_fault(context, names, urls) == first_plan_fault(context, names.take(count), urls),
    decreases names.len() - count,
{
    if count == names.len() {
        assert(names.take(count) =~= names);
    } else {
        assert(names.take(count + 1).drop_last() =~= names.take(count));
        plan_fault_stays(context, names, urls, count + 1);
    }
}

/// Plan a run whose ports have numbers: what each of its services runs, with
/// which environment, and where it can be opened.
pub fn resolve_dev_plan(
    context: &PlanContext,
    group: Option<&str>,
    selected: &TextSet,
    control_port: &Option<String>,
) -> (plan: Result<(Vec<ServicePlan>, Option<u16>), String>)
    requires
        context.graph.well_formed(),
        dev_fault(*context.config) is None,
        proxies_have_ports(*context.config, selected@, context.ports@),
    ensures
        ({
            let config = *context.config;
            let fault = run_fault(
                *context,
                match group {
                    Some(name) => Some(name@),
                    None => None,
                },
                selected@,
                text_option(*control_port),
            );
            let names = startup_order(config.services@, config.services.keys(), selected@);
            let urls = open_urls(published(config.services@, config.services.keys(), selected@, context.ports@));
            match plan {
                Ok((services, control)) => {
                    &&& fault is None
                    &&& services@.len() == names.len()
                    &&& forall|i: int|
                        0 <= i < names.len() ==> is_plan(*context, names[i], urls->Ok_0, #[trigger] services@[i])
                    &&& control == (match control_port {
                        Some(name) => Some(context.ports@[name@]),
                        None => None,
                    })
                },
                Err(message) => fault == Some(message@),
            }
        }),
{
    let control: Option<u16> = match control_port {
        None => None,
        Some(name) => match context.ports.get(name) {
            Some(number) => Some(*number),
            None => return Err(concat3("control_port references unknown service port '", name, "'")),
        },
    };
    let urls = match resolve_tls_open_urls(context.config, selected, context.ports) {
        Ok(urls) => urls,
        Err(message) => return Err(message),
    };
    let names = order_services(context.config, selected);
    let ghost all = texts(names@);
    let ghost links = value_texts(urls@);
    let mut services: Vec<ServicePlan> = Vec::new();
    let mut i: usize = 0;
    assert(all.take(0) =~= Seq::<Seq<char>>::empty());
    while i < names.len()
        invariant
            i <= names@.len(),
            all == texts(names@),
            links == value_texts(urls@),
            context.graph.well_formed(),
            dev_fault(*context.config) is None,
            control_port is Some ==> context.ports@.contains_key(control_port->0@),
            all == startup_order(context.config.services@, context.config.services.keys(), selected@),
            open_urls(
                published(context.config.services@, context.config.services.keys(), selected@, context.ports@),
            ) == Ok::<Map<Seq<char>, Seq<char>>, Seq<char>>(links),
            forall|k: int| 0 <= k < names@.len() ==> context.config.services@.contains_key((#[trigger] names@[k])@),
            first_plan_fault(*context, all.take(i as int), links) is None,
            services@.len() == i,
            forall|k: int| 0 <= k < i ==> is_plan(*context, all[k], links, #[trigger] services@[k]),
        decreases names@.len() - i,
    {
        proof {
            assert(all.take(i + 1).drop_last() =~= all.take(i as int));
            assert(all.take(i + 1).last() == names@[i as int]@);
            valid_config_facts(*context.config, names@[i as int]@, Seq::empty());
        }
        match plan_service(context, &names[i], &urls) {
            Ok(plan) => {
                services.push(plan);
            },
            Err(message) => {
                proof {
                    plan_fault_stays(*context, all, links, i + 1);
                }
                return Err(message);
            },
        }
        i += 1;
    }
    assert(all.take(all.len() as int) =~= all);
    assert(all.len() == names@.len());
    if services.len() == 0 {
        return match group {
            Some(name) => Err(concat3("service group '", name, "' has no services")),
            None => Err("no services configured for the default run".to_owned()),
        };
    }
    Ok((services, control))
}

/// Services start in ascending order.
pub proof fn services_start_in_order(
    services: Map<Seq<char>, DevServiceConfig>,
    names: Seq<Seq<char>>,
    selected: Set<Seq<char>>,
)
    ensures
        forall|i: int, j: int|
            0 <= i < j < startup_order(services, names, selected).len() ==> services[#[trigger] startup_order(
                services,
                names,
                selected,
            )[i]].order <= services[#[trigger] startup_order(services, names, selected)[j]].order,
    decreases names.len(),
{
    if names.len() > 0 {
        services_start_in_order(services, names.drop_last(), selected);
        if selected.contains(names.last()) {
            placing_keeps_order(services, startup_order(services, names.drop_last(), selected), names.last());
        }
    }
}

proof fn placing_keeps_order(services: Map<Seq<char>, DevServiceConfig>, list: Seq<Seq<char>>, name: Seq<char>)
    requires
        forall|i: int, j: int|
            0 <= i < j < list.len() ==> services[#[trigger] list[i]].order <= services[#[trigger] list[j]].order,
    ensures
        forall|i: int, j: int|
            0 <= i < j < placed(services, list, name).len() ==> services[#[trigger] placed(services, list, name)[i]].order
                <= services[#[trigger] placed(services, list, name)[j]].order,
        placed(services, list, name).len() == list.len() + 1,
        forall|i: int|
            0 <= i <= list.len() ==> #[trigger] placed(services, list, name)[i] == name || list.contains(
                placed(services, list, name)[i],
            ),
    decreases list.len(),
{
    let result = placed(services, list, name);
    if list.len() == 0 || !(services[name].order < services[list.last()].order) {
        assert forall|i: int, j: int| 0 <= i < j < result.len() implies services[#[trigger] result[i]].order
            <= services[#[trigger] result[j]].order by {
            assert(result[i] == list[i]);
            if j < list.len() {
                assert(result[j] == list[j]);
            } else {
                assert(services[list[i]].order <= services[list[list.len() - 1]].order);
            }
        }
        assert forall|i: int| 0 <= i <= list.len() implies #[trigger] result[i] == name || list.contains(result[i]) by {
            if i < list.len() {
                assert(result[i] == list[i]);
            }
        }
    } else {
        let fewer = list.drop_last();
        let rest = placed(services, fewer, name);
        assert forall|i: int, j: int| 0 <= i < j < fewer.len() implies services[#[trigger] fewer[i]].order
            <= services[#[trigger] fewer[j]].order by {
            assert(fewer[i] == list[i] && fewer[j] == list[j]);
        }
        placing_keeps_order(services, fewer, name);
        assert forall|i: int| 0 <= i <= list.len() implies #[trigger] result[i] == name || list.contains(result[i]) by {
            if i < list.len() {
                assert(result[i] == rest[i]);
                if rest[i] != name {
                    let k = choose|k: int| 0 <= k < fewer.len() && fewer[k] == rest[i];
                    assert(list[k] == rest[i]);
                }
            } else {
                assert(result[i] == list[list.len() - 1]);
            }
        }
        assert forall|i: int, j: int| 0 <= i < j < result.len() implies services[#[trigger] result[i]].order
            <= services[#[trigger] result[j]].order by {
            assert(result[i] == rest[i]);
            if j < rest.len() {
                assert(result[j] == rest[j]);
            } else if rest[i] != name {
                let k = choose|k: int| 0 <= k < fewer.len() && fewer[k] == rest[i];
                assert(list[k] == rest[i]);
                assert(services[list[k]].order <= services[list[list.len() - 1]].order);
            }
        }
    }
}

/// A service takes each variable that it inherits from this process, as far as
/// it is set here, and keeps the others. A name that no environment can have is
/// refused.
pub proof fn inherited_variables_are_taken(
    name: Seq<char>,
    keys: Seq<Seq<char>>,
    environment: Map<Seq<char>, String>,
    base: Map<Seq<char>, Seq<char>>,
)
    ensures
        inherited(name, keys, environment, base) is Err <==> exists|i: int| 0 <= i < keys.len() && is_bad_key(#[trigger] keys[i]),
        inherited(name, keys, environment, base) matches Ok(all) ==> forall|key: Seq<char>|
            #![trigger all.contains_key(key)]
            #![trigger all[key]]
            if keys.contains(key) && environment.contains_key(key) {
                all.contains_key(key) && all[key] == environment[key]@
            } else {
                (all.contains_key(key) <==> base.contains_key(key)) && (base.contains_key(key) ==> all[key] == base[key])
            },
    decreases keys.len(),
{
    if keys.len() > 0 {
        let front = keys.drop_last();
        let last = keys.last();
        inherited_variables_are_taken(name, front, environment, base);
        assert(keys[keys.len() - 1] == last);
        assert(keys =~= front.push(last));
        if inherited(name, front, environment, base) is Err {
            let i = choose|i: int| 0 <= i < front.len() && is_bad_key(#[trigger] front[i]);
            assert(keys[i] == front[i]);
        } else {
            assert forall|i: int| 0 <= i < front.len() implies !(is_bad_key(#[trigger] keys[i])) by {
                assert(front[i] == keys[i]);
            }
        }
        if let Ok(all) = inherited(name, keys, environment, base) {
            assert forall|key: Seq<char>|
                #![trigger all.contains_key(key)]
                #![trigger all[key]]
                if keys.contains(key) && environment.contains_key(key) {
                    all.contains_key(key) && all[key] == environment[key]@
                } else {
                    (all.contains_key(key) <==> base.contains_key(key)) && (base.contains_key(key) ==> all[key]
                        == base[key])
                } by {
                if key == last {
                    assert(keys.contains(key));
                } else {
                    if front.contains(key) {
                        let i = choose|i: int| 0 <= i < front.len() && front[i] == key;
                        assert(keys[i] == key);
                    }
                    if keys.contains(key) {
                        let i = choose|i: int| 0 <= i < keys.len() && keys[i] == key;
                        assert(front[i] == key);
                    }
                    let before = inherited(name, front, environment, base)->Ok_0;
                    assert(all.contains_key(key) == before.contains_key(key));
                    assert(before.contains_key(key) ==> all[key] == before[key]);
                }
            }
        }
    }
}

/// A service has each value that is configured for it, with its ports filled in,
/// and keeps the others. A value that names a port that is not known is refused.
pub proof fn configured_values_are_set(
    name: Seq<char>,
    keys: Seq<Seq<char>>,
    values: Map<Seq<char>, String>,
    port: Option<u16>,
    ports: TextMap<u16>,
    base: Map<Seq<char>, Seq<char>>,
)
    ensures
        overridden(name, keys, values, port, ports, base) is Err <==> exists|i: int| 0 <= i < keys.len() && expanded(values[#[trigger] keys[i]]@, port, ports) is Err,
        overridden(name, keys, values, port, ports, base) matches Ok(all) ==> forall|key: Seq<char>|
            #![trigger all.contains_key(key)]
            #![trigger all[key]]
            if keys.contains(key) {
                all.contains_key(key) && expanded(values[key]@, port, ports) == Ok::<Seq<char>, Seq<char>>(all[key])
            } else {
                (all.contains_key(key) <==> base.contains_key(key)) && (base.contains_key(key) ==> all[key] == base[key])
            },
    decreases keys.len(),
{
    if keys.len() > 0 {
        let front = keys.drop_last();
        let last = keys.last();
        configured_values_are_set(name, front, values, port, ports, base);
        assert(keys[keys.len() - 1] == last);
        assert(keys =~= front.push(last));
        if overridden(name, front, values, port, ports, base) is Err {
            let i = choose|i: int| 0 <= i < front.len() && expanded(values[#[trigger] front[i]]@, port, ports) is Err;
            assert(keys[i] == front[i]);
        } else {
            assert forall|i: int| 0 <= i < front.len() implies !(expanded(values[#[trigger] keys[i]]@, port, ports) is Err) by {
                assert(front[i] == keys[i]);
            }
        }
        if let Ok(all) = overridden(name, keys, values, port, ports, base) {
            assert forall|key: Seq<char>|
                #![trigger all.contains_key(key)]
                #![trigger all[key]]
                if keys.contains(key) {
                    all.contains_key(key) && expanded(values[key]@, port, ports) == Ok::<Seq<char>, Seq<char>>(all[key])
                } else {
                    (all.contains_key(key) <==> base.contains_key(key)) && (base.contains_key(key) ==> all[key]
                        == base[key])
                } by {
                if key == last {
                    assert(keys.contains(key));
                } else {
                    if front.contains(key) {
                        let i = choose|i: int| 0 <= i < front.len() && front[i] == key;
                        assert(keys[i] == key);
                    }
                    if keys.contains(key) {
                        let i = choose|i: int| 0 <= i < keys.len() && keys[i] == key;
                        assert(front[i] == key);
                    }
                    let before = overridden(name, front, values, port, ports, base)->Ok_0;
                    assert(all.contains_key(key) == before.contains_key(key));
                    assert(before.contains_key(key) ==> all[key] == before[key]);
                }
            }
        }
    }
}

/// A service has the number of each port that it asks for, and keeps the other
/// variables. A port that is not known is refused.
pub proof fn asked_for_ports_are_set(
    name: Seq<char>,
    keys: Seq<Seq<char>>,
    names: Map<Seq<char>, String>,
    ports: Map<Seq<char>, u16>,
    base: Map<Seq<char>, Seq<char>>,
)
    ensures
        with_port_numbers(name, keys, names, ports, base) is Err <==> exists|i: int| 0 <= i < keys.len() && !ports.contains_key(names[#[trigger] keys[i]]@),
        with_port_numbers(name, keys, names, ports, base) matches Ok(all) ==> forall|key: Seq<char>|
            #![trigger all.contains_key(key)]
            #![trigger all[key]]
            if keys.contains(key) {
                all.contains_key(key) && ports.contains_key(names[key]@) && all[key] == decimal(ports[names[key]@] as nat)
            } else {
                (all.contains_key(key) <==> base.contains_key(key)) && (base.contains_key(key) ==> all[key] == base[key])
            },
    decreases keys.len(),
{
    if keys.len() > 0 {
        let front = keys.drop_last();
        let last = keys.last();
        asked_for_ports_are_set(name, front, names, ports, base);
        assert(keys[keys.len() - 1] == last);
        assert(keys =~= front.push(last));
        if with_port_numbers(name, front, names, ports, base) is Err {
            let i = choose|i: int| 0 <= i < front.len() && !ports.contains_key(names[#[trigger] front[i]]@);
            assert(keys[i] == front[i]);
        } else {
            assert forall|i: int| 0 <= i < front.len() implies !(!ports.contains_key(names[#[trigger] keys[i]]@)) by {
                assert(front[i] == keys[i]);
            }
        }
        if let Ok(all) = with_port_numbers(name, keys, names, ports, base) {
            assert forall|key: Seq<char>|
                #![trigger all.contains_key(key)]
                #![trigger all[key]]
                if keys.contains(key) {
                    all.contains_key(key) && ports.contains_key(names[key]@) && all[key] == decimal(ports[names[key]@] as nat)
                } else {
                    (all.contains_key(key) <==> base.contains_key(key)) && (base.contains_key(key) ==> all[key]
                        == base[key])
                } by {
                if key == last {
                    assert(keys.contains(key));
                } else {
                    if front.contains(key) {
                        let i = choose|i: int| 0 <= i < front.len() && front[i] == key;
                        assert(keys[i] == key);
                    }
                    if keys.contains(key) {
                        let i = choose|i: int| 0 <= i < keys.len() && keys[i] == key;
                        assert(front[i] == key);
                    }
                    let before = with_port_numbers(name, front, names, ports, base)->Ok_0;
                    assert(all.contains_key(key) == before.contains_key(key));
                    assert(before.contains_key(key) ==> all[key] == before[key]);
                }
            }
        }
    }
}

/// A port that a service asks for wins over a configured value, a configured
/// value over an inherited variable, an inherited variable over the files, and
/// nothing else is in the environment but what Aster itself says.
pub proof fn later_sources_win(
    context: PlanContext,
    name: Seq<char>,
    service: DevServiceConfig,
    port: Option<u16>,
    key: Seq<char>,
)
    requires
        service_environment(context, name, service, port) is Ok,
        key != "ASTER_SERVICE_NAME"@,
        key != "ASTER_SERVICE_PORT"@,
        key != "ASTER_RESOLVED_PORTS"@,
    ensures
        ({
            let all = service_environment(context, name, service, port)->Ok_0;
            let files = files_values(service_files(context.env_files@, name));
            if service.port_env.keys().contains(key) {
                all.contains_key(key) && context.ports@.contains_key(service.port_env@[key]@) && all[key] == decimal(
                    context.ports@[service.port_env@[key]@] as nat,
                )
            } else if service.env.keys().contains(key) {
                all.contains_key(key) && expanded(service.env@[key]@, port, *context.ports) == Ok::<
                    Seq<char>,
                    Seq<char>,
                >(all[key])
            } else if texts(service.inherit_env@).contains(key) && context.environment@.contains_key(key) {
                all.contains_key(key) && all[key] == context.environment@[key]@
            } else {
                (all.contains_key(key) <==> files.contains_key(key)) && (files.contains_key(key) ==> all[key]
                    == files[key])
            }
        }),
{
    let files = files_values(service_files(context.env_files@, name));
    let inherit = texts(service.inherit_env@);
    let first = inherited(name, inherit, context.environment@, files)->Ok_0;
    let second = overridden(name, service.env.keys(), service.env@, port, *context.ports, first)->Ok_0;
    let third = with_port_numbers(name, service.port_env.keys(), service.port_env@, context.ports@, second)->Ok_0;
    inherited_variables_are_taken(name, inherit, context.environment@, files);
    configured_values_are_set(name, service.env.keys(), service.env@, port, *context.ports, first);
    asked_for_ports_are_set(name, service.port_env.keys(), service.port_env@, context.ports@, second);
    let all = service_environment(context, name, service, port)->Ok_0;
    assert(all == with_own_variables(name, service, port, context.ports@, third));
    assert(all.contains_key(key) == third.contains_key(key));
    assert(third.contains_key(key) ==> all[key] == third[key]);
    assert(first.contains_key(key) == first.contains_key(key) && second.contains_key(key) == second.contains_key(key));
}

/// Every service is told its name, and the number of its own port where it has
/// one, whatever is configured.
pub proof fn services_know_themselves(context: PlanContext, name: Seq<char>, service: DevServiceConfig, port: Option<u16>)
    requires
        service_environment(context, name, service, port) is Ok,
    ensures
        ({
            let all = service_environment(context, name, service, port)->Ok_0;
            &&& all.contains_key("ASTER_SERVICE_NAME"@) && all["ASTER_SERVICE_NAME"@] == name
            &&& port matches Some(number) ==> all.contains_key("ASTER_SERVICE_PORT"@) && all["ASTER_SERVICE_PORT"@]
                == decimal(number as nat)
        }),
{
    reveal_strlit("ASTER_SERVICE_NAME");
    reveal_strlit("ASTER_SERVICE_PORT");
    reveal_strlit("ASTER_RESOLVED_PORTS");
    assert("ASTER_SERVICE_NAME"@[14] == 'N');
    assert("ASTER_SERVICE_PORT"@[14] == 'P');
    assert("ASTER_RESOLVED_PORTS"@.len() == 20);
}

/// Where services cannot be planned, the first of them is told of; where each can
/// be, nothing is.
pub proof fn the_first_plan_fault_is_told(
    context: PlanContext,
    names: Seq<Seq<char>>,
    urls: Map<Seq<char>, Seq<char>>,
)
    ensures
        first_plan_fault(context, names, urls) is None <==> forall|i: int| 0 <= i < names.len() ==> plan_fault(context, #[trigger] names[i], urls) is None,
        first_plan_fault(context, names, urls) matches Some(fault) ==> exists|i: int|
            0 <= i < names.len() && plan_fault(context, #[trigger] names[i], urls) == Some(fault) && forall|j: int|
                0 <= j < i ==> plan_fault(context, #[trigger] names[j], urls) is None,
    decreases names.len(),
{
    if names.len() > 0 {
        let front = names.drop_last();
        the_first_plan_fault_is_told(context, front, urls);
        assert(forall|i: int| 0 <= i < front.len() ==> #[trigger] front[i] == names[i]);
        assert(names[names.len() - 1] == names.last());
        match first_plan_fault(context, front, urls) {
            Some(fault) => {
                let i = choose|i: int|
                    0 <= i < front.len() && plan_fault(context, #[trigger] front[i], urls) == Some(fault) && forall|j: int|
                        0 <= j < i ==> plan_fault(context, #[trigger] front[j], urls) is None;
                assert(plan_fault(context, names[i], urls) == Some(fault));
                assert forall|j: int| 0 <= j < i implies plan_fault(context, #[trigger] names[j], urls) is None by {
                    assert(front[j] == names[j]);
                }
            },
            None => {
                assert forall|i: int| 0 <= i < front.len() implies plan_fault(context, #[trigger] names[i], urls) is None by {
                    assert(front[i] == names[i]);
                }
            },
        }
    }
}

proof fn placing_adds_one(services: Map<Seq<char>, DevServiceConfig>, list: Seq<Seq<char>>, name: Seq<char>)
    ensures
        placed(services, list, name).to_multiset() == list.to_multiset().insert(name),
        placed(services, list, name).len() == list.len() + 1,
    decreases list.len(),
{
    broadcast use vstd::seq_lib::group_to_multiset_ensures;

    if list.len() == 0 || !(services[name].order < services[list.last()].order) {
    } else {
        let front = list.drop_last();
        placing_adds_one(services, front, name);
        assert(list =~= front.push(list.last()));
        assert(placed(services, list, name).to_multiset() =~= list.to_multiset().insert(name));
    }
}

/// Each selected service is started, once for each time it is named, and no other
/// service is.
pub proof fn selected_services_start(
    services: Map<Seq<char>, DevServiceConfig>,
    names: Seq<Seq<char>>,
    selected: Set<Seq<char>>,
    name: Seq<char>,
)
    ensures
        startup_order(services, names, selected).to_multiset().count(name) == (if selected.contains(name) {
            names.to_multiset().count(name)
        } else {
            0
        }),
    decreases names.len(),
{
    broadcast use vstd::seq_lib::group_to_multiset_ensures;

    if names.len() > 0 {
        let front = names.drop_last();
        selected_services_start(services, front, selected, name);
        assert(names =~= front.push(names.last()));
        placing_adds_one(services, startup_order(services, front, selected), names.last());
    }
}

proof fn placing_keeps_the_turns(services: Map<Seq<char>, DevServiceConfig>, list: Seq<Seq<char>>, name: Seq<char>, order: Seq<Seq<char>>)
    requires
        order.len() > 0,
        order.last() == name,
        forall|i: int, j: int|
            0 <= i < j < list.len() && services[list[i]].order == services[list[j]].order ==> comes_before(
                order.drop_last(),
                #[trigger] list[i],
                #[trigger] list[j],
            ),
        forall|i: int| 0 <= i < list.len() ==> order.drop_last().contains(#[trigger] list[i]),
    ensures
        ({
            let after = placed(services, list, name);
            &&& forall|i: int, j: int|
                0 <= i < j < after.len() && services[after[i]].order == services[after[j]].order ==> comes_before(
                    order,
                    #[trigger] after[i],
                    #[trigger] after[j],
                )
            &&& forall|i: int| 0 <= i < after.len() ==> order.contains(#[trigger] after[i])
            &&& forall|i: int| 0 <= i < list.len() ==> order.contains(#[trigger] list[i])
        }),
    decreases list.len(),
{
    let front = order.drop_last();
    let after = placed(services, list, name);
    let end = order.len() - 1;
    assert(order[end] == name);
    assert forall|item: Seq<char>| #[trigger] front.contains(item) implies order.contains(item) && comes_before(
        order,
        item,
        name,
    ) by {
        let p = choose|p: int| 0 <= p < front.len() && front[p] == item;
        assert(order[p] == item);
        assert(order[p] == item && order[end] == name && p < end);
    }
    assert forall|one: Seq<char>, two: Seq<char>| #[trigger] comes_before(front, one, two) implies comes_before(
        order,
        one,
        two,
    ) by {
        let (p, q) = choose|p: int, q: int|
            0 <= p < q < front.len() && #[trigger] front[p] == one && #[trigger] front[q] == two;
        assert(order[p] == one && order[q] == two);
    }
    if list.len() == 0 || !(services[name].order < services[list.last()].order) {
        assert forall|i: int, j: int| 0 <= i < j < after.len() && services[after[i]].order == services[after[j]].order implies comes_before(
            order,
            #[trigger] after[i],
            #[trigger] after[j],
        ) by {
            assert(after[i] == list[i]);
            assert(front.contains(list[i]));
            if j < list.len() {
                assert(after[j] == list[j]);
                assert(comes_before(front, list[i], list[j]));
            }
        }
    } else {
        let shorter = list.drop_last();
        let last = list.last();
        placing_keeps_the_turns(services, shorter, name, order);
        let inner = placed(services, shorter, name);
        assert(list[list.len() - 1] == last);
        assert(front.contains(last));
        placing_adds_one(services, shorter, name);
        assert forall|i: int, j: int| 0 <= i < j < after.len() && services[after[i]].order == services[after[j]].order implies comes_before(
            order,
            #[trigger] after[i],
            #[trigger] after[j],
        ) by {
            assert(after[i] == inner[i]);
            if j < inner.len() {
                assert(after[j] == inner[j]);
            } else {
                assert(after[j] == last);
                assert(inner.to_multiset().count(inner[i]) > 0) by {
                    broadcast use vstd::seq_lib::group_to_multiset_ensures;

                    assert(inner.contains(inner[i]));
                }
                assert(inner[i] != name);
                assert(shorter.to_multiset().count(inner[i]) > 0);
                assert(shorter.contains(inner[i])) by {
                    broadcast use vstd::seq_lib::group_to_multiset_ensures;

                }
                let p = choose|p: int| 0 <= p < shorter.len() && shorter[p] == inner[i];
                assert(list[p] == inner[i]);
                assert(comes_before(front, list[p], list[list.len() - 1]));
            }
        }
        assert forall|i: int| 0 <= i < after.len() implies order.contains(#[trigger] after[i]) by {
            if i < inner.len() {
                assert(after[i] == inner[i]);
            }
        }
    }
}

/// One name stands somewhere in front of another.
pub open spec fn comes_before(names: Seq<Seq<char>>, one: Seq<char>, two: Seq<char>) -> bool {
    exists|p: int, q: int| 0 <= p < q < names.len() && #[trigger] names[p] == one && #[trigger] names[q] == two
}

/// Services of the same order start as their names stand.
pub proof fn ties_start_as_named(
    services: Map<Seq<char>, DevServiceConfig>,
    names: Seq<Seq<char>>,
    selected: Set<Seq<char>>,
)
    ensures
        ({
            let started = startup_order(services, names, selected);
            &&& forall|i: int, j: int|
                0 <= i < j < started.len() && services[started[i]].order == services[started[j]].order ==> comes_before(
                    names,
                    #[trigger] started[i],
                    #[trigger] started[j],
                )
            &&& forall|i: int| 0 <= i < started.len() ==> names.contains(#[trigger] started[i])
        }),
    decreases names.len(),
{
    if names.len() > 0 {
        let front = names.drop_last();
        ties_start_as_named(services, front, selected);
        let before = startup_order(services, front, selected);
        placing_keeps_the_turns(services, before, names.last(), names);
        if !selected.contains(names.last()) {
            assert forall|i: int, j: int| 0 <= i < j < before.len() && services[before[i]].order == services[before[j]].order implies comes_before(
                names,
                #[trigger] before[i],
                #[trigger] before[j],
            ) by {
                assert(comes_before(front, before[i], before[j]));
                let (p, q) = choose|p: int, q: int|
                    0 <= p < q < front.len() && #[trigger] front[p] == before[i] && #[trigger] front[q] == before[j];
                assert(names[p] == before[i] && names[q] == before[j]);
            }
        }
    }
}

/// A group with a control port of its own is controlled through that one, any other
/// through that of the workspace; without a group the group `main` decides.
pub proof fn groups_have_their_control_port(config: DevWorkspaceConfig, name: Seq<char>)
    ensures
        config.service_groups@.contains_key(name) && config.service_groups@[name] is Detailed
            && config.service_groups@[name]->Detailed_0.control_port is Some ==> control_port_of(config, Some(name)) == Some(
            config.service_groups@[name]->Detailed_0.control_port->0@,
        ),
        !config.service_groups@.contains_key(name) || config.service_groups@[name] is Services
            || config.service_groups@[name]->Detailed_0.control_port is None ==> control_port_of(config, Some(name))
            == text_option(config.control_port),
        control_port_of(config, None) == control_port_of(config, Some("main"@)),
{
}

/// A page is opened behind the proxy that publishes its port where there is one,
/// else on this machine, and its path begins with a slash.
pub proof fn pages_are_opened(service: DevServiceConfig, port: Option<u16>, urls: Map<Seq<char>, Seq<char>>, path: Seq<char>)
    requires
        service.port is Some,
        service.open_path is Some,
        path == service.open_path->0@,
        path.len() > 0,
        path[0] != '/',
    ensures
        urls.contains_key(service.port->0@) ==> target_url(service, port, urls) == Some(
            urls[service.port->0@] + ("/"@ + path),
        ),
        !urls.contains_key(service.port->0@) && port is Some ==> target_url(service, port, urls) == Some(
            "http://localhost:"@ + decimal(port->0 as nat) + ("/"@ + path),
        ),
        !urls.contains_key(service.port->0@) && port is None ==> target_url(service, port, urls) is None,
{
}

/// A service that names a target runs that target of that project, which has to
/// stream.
pub proof fn services_run_streaming_targets(
    context: PlanContext,
    name: Seq<char>,
    service: DevServiceConfig,
    port: Option<u16>,
    urls: Map<Seq<char>, Seq<char>>,
)
    requires
        service.target is Some,
        chosen_target(context, name, service, port, urls) is Ok,
    ensures
        ({
            let chosen = chosen_target(context, name, service, port, urls)->Ok_0;
            &&& chosen.address == service.target->0@
            &&& chosen.source matches Some((at, target)) && 0 <= at < context.projects@.len()
                && context.projects@[at].targets@.contains_key(target) && context.projects@[at].targets@[target].stream
                && chosen.command == context.projects@[at].targets@[target].command@ && chosen.root
                == context.projects@[at].root@ && "//"@ + context.projects@[at].relative_path@ == (split_first(
                service.target->0@,
                ':',
            )->0).0
        }),
{
    let address = service.target->0@;
    let (project, _) = split_first(address, ':')->0;
    let addresses = project_addresses(context.projects@);
    crate::graph::addressed::last_position_found(addresses, project);
    let at = last_position(addresses, project)->0;
    assert(addresses[at] == project);
}

/// A run can be planned where its control port has a number, no port is published
/// twice, there is something to start, and each service can be planned; and only
/// there.
pub proof fn runs_that_can_be_planned(
    context: PlanContext,
    group: Option<Seq<char>>,
    selected: Set<Seq<char>>,
    control_port: Option<Seq<char>>,
)
    ensures
        ({
            let names = startup_order(context.config.services@, context.config.services.keys(), selected);
            let urls = open_urls(
                published(context.config.services@, context.config.services.keys(), selected, context.ports@),
            );
            run_fault(context, group, selected, control_port) is None <==> {
                &&& control_port is None || context.ports@.contains_key(control_port->0)
                &&& urls is Ok
                &&& names.len() > 0
                &&& forall|i: int| 0 <= i < names.len() ==> plan_fault(context, #[trigger] names[i], urls->Ok_0) is None
            }
        }),
{
    let names = startup_order(context.config.services@, context.config.services.keys(), selected);
    let urls = open_urls(published(context.config.services@, context.config.services.keys(), selected, context.ports@));
    if urls is Ok {
        the_first_plan_fault_is_told(context, names, urls->Ok_0);
    }
}

/// A planned service runs what it names in its project, with the number of its own
/// port and with the ports of its command filled in.
pub proof fn plans_are_of_their_service(
    context: PlanContext,
    name: Seq<char>,
    urls: Map<Seq<char>, Seq<char>>,
    plan: ServicePlan,
    at: int,
    target: Seq<char>,
)
    requires
        is_plan(context, name, urls, plan),
        context.config.services@[name].target is Some,
        chosen_target(
            context,
            name,
            context.config.services@[name],
            plan.port,
            urls,
        )->Ok_0.source == Some((at, target)),
    ensures
        plan.name@ == name,
        plan.target_address@ == context.config.services@[name].target->0@,
        plan.project_root@ == context.projects@[at].root@,
        context.config.services@[name].port is None ==> plan.port is None,
        context.config.services@[name].port matches Some(port) ==> context.ports@.contains_key(port@) && plan.port == Some(
            context.ports@[port@],
        ),
        expanded(context.projects@[at].targets@[target].command@, plan.port, *context.ports) == Ok::<Seq<char>, Seq<char>>(
            plan.target.command@,
        ),
        texts(plan.target.depends_on@) == texts(context.projects@[at].targets@[target].depends_on@),
        value_texts(plan.env@) == service_environment(context, name, context.config.services@[name], plan.port)->Ok_0,
{
    let service = context.config.services@[name];
    services_run_streaming_targets(context, name, service, plan.port, urls);
}

/// A run begins where services are configured, its group is known and its ports are
/// sound and configured; and only there.
pub proof fn runs_that_can_begin(config: DevWorkspaceConfig, group: Option<Seq<char>>)
    ensures
        start_fault(config, group) is None <==> config.services.keys().len() > 0 && selected_services(config, group) is Ok
            && search_fault(
            config.ports,
            active_names(config, selected_services(config, group)->Ok_0, control_port_of(config, group)),
        ) is None,
{
}

/// A service that names a target can be run where the project and the target exist and
/// the target streams.
pub proof fn streaming_targets_can_be_run(
    context: PlanContext,
    name: Seq<char>,
    service: DevServiceConfig,
    port: Option<u16>,
    urls: Map<Seq<char>, Seq<char>>,
    project: Seq<char>,
    rest: Seq<char>,
)
    requires
        service.target is Some,
        split_first(service.target->0@, ':') == Some((project, rest)),
        project_addresses(context.projects@).contains(project),
        context.graph.node_at(service.target->0@) is Some,
    ensures
        ({
            let at = last_position(project_addresses(context.projects@), project)->0;
            let target = context.graph.nodes@[context.graph.node_at(service.target->0@)->0].target_name@;
            let targets = context.projects@[at].targets@;
            chosen_target(context, name, service, port, urls) is Ok <==> targets.contains_key(target)
                && targets[target].stream
        }),
{
    crate::graph::addressed::last_position_found(project_addresses(context.projects@), project);
}

/// A proxy is told the numbers of all ports.
pub proof fn proxies_know_all_ports(context: PlanContext, name: Seq<char>, service: DevServiceConfig, port: Option<u16>)
    requires
        service_environment(context, name, service, port) is Ok,
        service.tls_proxy is Some,
    ensures
        ({
            let all = service_environment(context, name, service, port)->Ok_0;
            all.contains_key("ASTER_RESOLVED_PORTS"@) && all["ASTER_RESOLVED_PORTS"@] == ports_json(context.ports@)
        }),
{
}

} // verus!
