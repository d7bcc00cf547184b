//! The settings that the workspace's aster.toml can hold.
use vstd::prelude::*;
use crate::collections::TextMap;
use crate::config::project::TargetConfig;

verus! {

/// Workspace-level configuration from the root aster.toml
#[derive(Debug)]
pub struct WorkspaceConfig {
    /// Glob patterns for paths to ignore during project discovery
    pub ignore: Vec<String>,
    /// Watch mode configuration
    pub watch: WatchWorkspaceConfig,
    /// Affected-command configuration
    pub affected: AffectedWorkspaceConfig,
    /// Local development service harness configuration
    pub dev: DevWorkspaceConfig,
    /// Project settings are accepted because a project at the repository root
    /// may share this file with workspace configuration.
    pub name: Option<String>,
    pub depends_on: Vec<String>,
    pub targets: TextMap<TargetConfig>,
}

/// Configuration for `aster services up`.
#[derive(Debug)]
pub struct DevWorkspaceConfig {
    /// Environment files consulted when resolving named ports. Later files win.
    pub port_env_files: Vec<String>,
    /// Named ports shared by services and their environment.
    pub ports: TextMap<DevPortConfig>,
    /// Optional named port for the line-delimited JSON control socket.
    pub control_port: Option<String>,
    /// Named service-to-target mappings.
    pub services: TextMap<DevServiceConfig>,
    /// Named groups of services that are started together.
    pub service_groups: TextMap<DevServiceGroupConfig>,
}

/// A named group of services.
#[derive(Debug)]
pub enum DevServiceGroupConfig {
    /// The names of the services
    Services(Vec<String>),
    /// The names of the services with settings of the group's own
    Detailed(DetailedDevServiceGroupConfig),
}

/// A group of services with settings of its own.
#[derive(Debug)]
pub struct DetailedDevServiceGroupConfig {
    pub services: Vec<String>,
    /// Replaces the workspace's control port
    pub control_port: Option<String>,
}

impl DevServiceGroupConfig {
    /// The names of the group's services.
    pub open spec fn service_list(&self) -> Seq<String> {
        match self {
            DevServiceGroupConfig::Services(services) => services@,
            DevServiceGroupConfig::Detailed(group) => group.services@,
        }
    }

    /// The group's own control port.
    pub open spec fn own_control_port(&self) -> Option<String> {
        match self {
            DevServiceGroupConfig::Services(_) => None,
            DevServiceGroupConfig::Detailed(group) => group.control_port,
        }
    }

    /// The names of the group's services.
    pub fn services(&self) -> (services: &Vec<String>)
        ensures
            services@ == self.service_list(),
    {
        match self {
            DevServiceGroupConfig::Services(services) => services,
            DevServiceGroupConfig::Detailed(group) => &group.services,
        }
    }

    /// The group's own control port.
    pub fn control_port(&self) -> (port: Option<&String>)
        ensures
            port is Some <==> self.own_control_port() is Some,
            port is Some ==> *port->0 == self.own_control_port()->0,
    {
        match self {
            DevServiceGroupConfig::Services(_) => None,
            DevServiceGroupConfig::Detailed(group) => group.control_port.as_ref(),
        }
    }
}

/// A named port used by one or more development services.
#[derive(Debug)]
pub enum DevPortConfig {
    /// A fixed port.
    Fixed(u16),
    /// A port that is found when services start.
    Dynamic(DynamicDevPortConfig),
    /// A port resolved from the process environment, port env files, or a default.
    Resolved(ResolvedDevPortConfig),
}

/// How a port is found when services start.
#[derive(Debug, Clone, Copy, PartialEq, Eq, Structural)]
pub enum DynamicPortAllocation {
    Dynamic,
}

/// A port that is taken from a range.
#[derive(Debug, Clone, Copy, PartialEq, Eq)]
pub struct DynamicDevPortConfig {
    pub allocation: DynamicPortAllocation,
    /// The first and the last port of the range
    pub range: [u16; 2],
    /// The port that is tried first
    pub preferred: Option<u16>,
}

/// Detailed named-port resolution.
#[derive(Debug)]
pub struct ResolvedDevPortConfig {
    /// Process environment variables checked in order.
    pub env: Vec<String>,
    /// Port-env-file variables checked in order after the process environment.
    /// When omitted, `env` names are also checked in the configured files.
    pub file_env: Option<Vec<String>>,
    /// Default value when no configured environment variable is set.
    pub default: u16,
    /// Add the delta between this port and `offset_base` to the default.
    pub offset_from: Option<String>,
    /// Baseline for `offset_from`; required when `offset_from` is set.
    pub offset_base: Option<u16>,
    /// Clamp a negative offset delta to zero instead of rejecting it.
    pub saturating_offset: bool,
}

/// One long-running service managed by `aster services up`.
#[derive(Debug)]
pub struct DevServiceConfig {
    /// Address of a `stream = true` target.
    pub target: Option<String>,
    /// A TLS proxy that Aster runs itself, in place of a target.
    pub tls_proxy: Option<DevTlsProxyConfig>,
    /// Named port from `[dev.ports]`.
    pub port: Option<String>,
    /// Optional browser path appended to `http://localhost:<port>`.
    pub open_path: Option<String>,
    /// Environment files loaded into the service process. Later files win.
    pub env_files: Vec<String>,
    /// Environment overrides. Values support `{port}` and `{ports.<name>}`.
    pub env: TextMap<String>,
    /// Environment variables that hold named ports.
    pub port_env: TextMap<String>,
    /// Ambient environment variables explicitly allowed into the service.
    pub inherit_env: Vec<String>,
    /// Stable startup/display order. Ties are sorted by service name.
    pub order: i32,
}

/// A proxy that ends TLS in front of other services.
#[derive(Debug)]
pub struct DevTlsProxyConfig {
    /// The hosts of the certificate
    pub certificate_hosts: Vec<String>,
    /// The host that the service is opened with
    pub open_host: String,
    /// The domain that must resolve to this machine
    pub dns_domain: Option<String>,
    pub routes: Vec<DevTlsRouteConfig>,
}

/// Which requests go to which port.
#[derive(Debug)]
pub struct DevTlsRouteConfig {
    /// The exact host of a request
    pub host: Option<String>,
    /// The end of the host of a request
    pub host_suffix: Option<String>,
    /// A host to open the route with
    pub open_host: Option<String>,
    /// The named port behind the route
    pub upstream_port: String,
}

/// Configuration controlling which Git changes participate in affected analysis.
#[derive(Debug)]
pub struct AffectedWorkspaceConfig {
    /// Workspace-relative glob patterns excluded from affected analysis.
    pub ignore: Vec<String>,
    /// Named selections of projects.
    pub lanes: TextMap<AffectedLaneConfig>,
}

/// A named selection of projects.
#[derive(Debug)]
pub struct AffectedLaneConfig {
    /// Selectors of the lane's projects; without any, all projects belong to it
    pub includes: Vec<String>,
    /// Selectors of projects that never belong to the lane
    pub excludes: Vec<String>,
}

/// Nothing is set.
pub open spec fn bare_affected(config: AffectedWorkspaceConfig) -> bool {
    &&& config.ignore@.len() == 0
    &&& config.lanes@ == Map::<Seq<char>, AffectedLaneConfig>::empty()
}

impl Default for AffectedWorkspaceConfig {
    fn default() -> (config: AffectedWorkspaceConfig)
        ensures
            bare_affected(config),
    {
        AffectedWorkspaceConfig { ignore: Vec::new(), lanes: TextMap::new() }
    }
}

/// Watch-mode configuration controlling fs-event ignore and suppression behavior.
///
/// Built-in defaults always apply (`.git/`, `node_modules/`, `target/`, `_build/`,
/// `.next/`, `dist/`, `.turbo/`, `.venv/`, `.elixir_ls/`). User patterns extend
/// them — they never replace the defaults.
#[derive(Debug, Clone)]
pub struct WatchWorkspaceConfig {
    /// Additional glob patterns (workspace-relative) whose fs events are dropped
    /// before being considered by the watcher.
    pub ignore: Vec<String>,
    /// Paths written by build-like processes that must not retrigger rebuilds.
    /// Events under these paths are dropped during and briefly after a rebuild.
    pub suppress_paths: Vec<String>,
    /// Debounce window in milliseconds for coalescing bursts of events.
    /// Defaults to 300 when unset.
    pub debounce_ms: Option<u64>,
}

/// Nothing is set.
pub open spec fn bare_watch(config: WatchWorkspaceConfig) -> bool {
    &&& config.ignore@.len() == 0
    &&& config.suppress_paths@.len() == 0
    &&& config.debounce_ms is None
}

impl Default for WatchWorkspaceConfig {
    fn default() -> (config: WatchWorkspaceConfig)
        ensures
            bare_watch(config),
    {
        WatchWorkspaceConfig { ignore: Vec::new(), suppress_paths: Vec::new(), debounce_ms: None }
    }
}

/// Nothing is set.
pub open spec fn bare_dev(config: DevWorkspaceConfig) -> bool {
    &&& config.port_env_files@.len() == 0
    &&& config.ports@ == Map::<Seq<char>, DevPortConfig>::empty()
    &&& config.control_port is None
    &&& config.services@ == Map::<Seq<char>, DevServiceConfig>::empty()
    &&& config.service_groups@ == Map::<Seq<char>, DevServiceGroupConfig>::empty()
}

impl Default for DevWorkspaceConfig {
    fn default() -> (config: DevWorkspaceConfig)
        ensures
            bare_dev(config),
    {
        DevWorkspaceConfig {
            port_env_files: Vec::new(),
            ports: TextMap::new(),
            control_port: None,
            services: TextMap::new(),
            service_groups: TextMap::new(),
        }
    }
}

/// What a directory on the way up from the starting point holds.
#[derive(Debug, Clone)]
pub struct DirectoryMarks {
    pub path: String,
    /// It holds `.git`
    pub has_git: bool,
    /// It holds `aster.toml`
    pub has_aster_toml: bool,
}

/// No directory before this one holds `.git`, and this one does.
pub open spec fn first_git(directories: Seq<DirectoryMarks>, at: int) -> bool {
    0 <= at < directories.len() && directories[at].has_git && forall|i: int|
        0 <= i < at ==> !(#[trigger] directories[i]).has_git
}

/// No directory holds `.git`, and this one is the highest with `aster.toml`.
pub open spec fn highest_config(directories: Seq<DirectoryMarks>, at: int) -> bool {
    &&& 0 <= at < directories.len()
    &&& directories[at].has_aster_toml
    &&& forall|i: int| 0 <= i < directories.len() ==> !(#[trigger] directories[i]).has_git
    &&& forall|i: int| at < i < directories.len() ==> !(#[trigger] directories[i]).has_aster_toml
}

/// The directory is the workspace root.
pub open spec fn is_workspace_root(directories: Seq<DirectoryMarks>, at: int) -> bool {
    first_git(directories, at) || highest_config(directories, at)
}

/// Find the workspace root on the way from the start directory up to the
/// filesystem root.
///
/// Prefers `.git` as the workspace boundary (monorepo root), falling back to
/// the highest `aster.toml` without a `.git` above it. This ensures project-level
/// aster.toml files don't incorrectly stop the search.
///
/// Returns None if neither marker is found.
pub fn find_workspace_root(directories: &Vec<DirectoryMarks>) -> (root: Option<String>)
    ensures
        match root {
            Some(found) => exists|at: int|
                #[trigger] is_workspace_root(directories@, at) && directories@[at].path@ == found@,
            None => forall|i: int|
                0 <= i < directories@.len() ==> !(#[trigger] directories@[i]).has_git
                    && !directories@[i].has_aster_toml,
        },
{
    let mut highest: Option<usize> = None;
    let mut i: usize = 0;
    while i < directories.len()
        invariant
            i <= directories@.len(),
            forall|k: int| 0 <= k < i ==> !(#[trigger] directories@[k]).has_git,
            match highest {
                Some(at) => at < i && directories@[at as int].has_aster_toml && forall|k: int|
                    at < k < i ==> !(#[trigger] directories@[k]).has_aster_toml,
                None => forall|k: int| 0 <= k < i ==> !(#[trigger] directories@[k]).has_aster_toml,
            },
        decreases directories@.len() - i,
    {
        if directories[i].has_git {
            assert(is_workspace_root(directories@, i as int));
            return Some(directories[i].path.clone());
        }
        if directories[i].has_aster_toml {
            highest = Some(i);
        }
        i += 1;
    }
    match highest {
        Some(at) => {
            assert(is_workspace_root(directories@, at as int));
            Some(directories[at].path.clone())
        },
        None => None,
    }
}

/// The nearest directory with `.git` is the workspace root; only where there is none
/// is it the highest with `aster.toml`. There is never a second one.
pub proof fn the_nearest_git_is_the_root(directories: Seq<DirectoryMarks>, at: int, other: int)
    requires
        is_workspace_root(directories, at),
    ensures
        0 <= at < directories.len(),
        0 <= other < at ==> !directories[other].has_git,
        0 <= other < directories.len() && directories[other].has_git ==> directories[at].has_git,
        !directories[at].has_git ==> directories[at].has_aster_toml && (at < other < directories.len()
            ==> !directories[other].has_aster_toml),
        is_workspace_root(directories, other) ==> other == at,
{
}

/// A bare configuration has nothing in it: no ports, no services, no groups, no lanes
/// and nothing to ignore.
pub proof fn bare_configurations_are_empty(
    dev: DevWorkspaceConfig,
    affected: AffectedWorkspaceConfig,
    watch: WatchWorkspaceConfig,
    name: Seq<char>,
)
    ensures
        bare_dev(dev) ==> !dev.ports@.contains_key(name) && !dev.services@.contains_key(name)
            && !dev.service_groups@.contains_key(name) && dev.control_port is None && dev.port_env_files@.len() == 0,
        bare_affected(affected) ==> affected.ignore@.len() == 0 && !affected.lanes@.contains_key(name),
        bare_watch(watch) ==> watch.ignore@.len() == 0 && watch.suppress_paths@.len() == 0 && watch.debounce_ms is None,
{
}

} // verus!
