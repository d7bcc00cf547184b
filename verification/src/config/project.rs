//! The settings that a project's aster.toml can hold.
use vstd::prelude::*;
use crate::address::{address_parts, Address};
use crate::collections::TextMap;
use crate::globs::{check_glob, is_glob};
use crate::text::{concat2, concat5, same_text, texts};

verus! {

/// Alias target configuration - references another target in the same project
#[derive(Debug, Clone)]
pub struct AliasTargetConfig {
    /// The target name to alias (bare name or //self:name)
    pub alias: String,
    /// Additional dependencies appended to the aliased target's deps
    pub depends_on: Vec<String>,
}

/// Target configuration - supports simple command string, alias, and rich format
#[derive(Debug, Clone)]
pub enum TargetConfig {
    /// Simple format: just a command string
    Simple(String),
    /// Alias format: references another target in the same project
    Alias(AliasTargetConfig),
    /// Rich format with full configuration
    Rich(RichTargetConfig),
}

/// Cache configuration for a target
///
/// Allows users to customize which files and environment variables
/// are part of the cache key for a target.
#[derive(Debug, Clone, PartialEq)]
pub struct CacheConfig {
    /// Explicitly enable or disable memoization for this target.
    pub enabled: Option<bool>,
    /// Additional files/globs that enter the cache key
    pub include_globs: Vec<String>,
    /// Files/globs to keep out of the cache key
    pub exclude_globs: Vec<String>,
    /// Additional environment variables to track
    pub env: Vec<String>,
    /// Output paths that must exist before a cached success may be reused.
    pub outputs: Vec<String>,
}

/// Rich target configuration with all options
#[derive(Debug, Clone)]
pub struct RichTargetConfig {
    /// The command to execute (may contain {files} placeholder)
    pub command: String,
    /// Target dependencies: ["//self:deps", "//libs/shared:build"]
    pub depends_on: Vec<String>,
    /// Capabilities: ["files_list"]
    pub capabilities: Vec<String>,
    /// Glob pattern to filter files for files_list capability
    pub files_glob: Option<String>,
    /// Stream output to stdout in real-time (for long-running processes like dev servers)
    pub stream: bool,
    /// Cache configuration overrides
    pub cache: Option<CacheConfig>,
    /// Invalidate all project cache entries after successful execution
    pub invalidates_cache: bool,
    /// Named resources requiring exclusive access within a DAG level
    pub exclusive_resources: Vec<String>,
}

impl TargetConfig {
    /// The command string; an alias has none of its own.
    pub open spec fn command_text(&self) -> Seq<char> {
        match self {
            TargetConfig::Simple(command) => command@,
            TargetConfig::Alias(_) => Seq::empty(),
            TargetConfig::Rich(rich) => rich.command@,
        }
    }

    /// The dependencies that the configuration names.
    pub open spec fn dependency_list(&self) -> Seq<String> {
        match self {
            TargetConfig::Simple(_) => Seq::empty(),
            TargetConfig::Alias(alias) => alias.depends_on@,
            TargetConfig::Rich(rich) => rich.depends_on@,
        }
    }

    /// Get the command string (empty for alias — resolved later)
    pub fn command(&self) -> (command: &str)
        ensures
            command@ == self.command_text(),
    {
        match self {
            TargetConfig::Simple(command) => command.as_str(),
            TargetConfig::Alias(_) => {
                proof {
                    reveal_strlit("");
                }
                let none: &str = "";
                assert(none@ =~= Seq::<char>::empty());
                none
            },
            TargetConfig::Rich(rich) => rich.command.as_str(),
        }
    }

    /// Get depends_on (empty for simple format)
    pub fn depends_on(&self) -> (dependencies: Vec<String>)
        ensures
            dependencies@ == self.dependency_list(),
    {
        match self {
            TargetConfig::Simple(_) => Vec::new(),
            TargetConfig::Alias(alias) => alias.depends_on.clone(),
            TargetConfig::Rich(rich) => rich.depends_on.clone(),
        }
    }

    /// Get capabilities (empty for simple/alias format)
    pub fn capabilities(&self) -> (capabilities: Vec<String>)
        ensures
            capabilities@ == (match self {
                TargetConfig::Rich(rich) => rich.capabilities@,
                _ => Seq::empty(),
            }),
    {
        match self {
            TargetConfig::Rich(rich) => rich.capabilities.clone(),
            _ => Vec::new(),
        }
    }

    /// Get files_glob (None for simple/alias format)
    pub fn files_glob(&self) -> (pattern: Option<&str>)
        ensures
            pattern is Some <==> (self is Rich && self->Rich_0.files_glob is Some),
            pattern is Some ==> pattern->0@ == self->Rich_0.files_glob->0@,
    {
        match self {
            TargetConfig::Rich(rich) => match &rich.files_glob {
                Some(pattern) => Some(pattern.as_str()),
                None => None,
            },
            _ => None,
        }
    }

    /// Get stream flag (false for simple/alias format)
    pub fn stream(&self) -> (stream: bool)
        ensures
            stream == (self is Rich && self->Rich_0.stream),
    {
        match self {
            TargetConfig::Rich(rich) => rich.stream,
            _ => false,
        }
    }

    /// Get cache configuration (None for simple/alias format)
    pub fn cache(&self) -> (cache: Option<&CacheConfig>)
        ensures
            cache is Some <==> (self is Rich && self->Rich_0.cache is Some),
            cache is Some ==> *cache->0 == self->Rich_0.cache->0,
    {
        match self {
            TargetConfig::Rich(rich) => rich.cache.as_ref(),
            _ => None,
        }
    }

    /// Get invalidates_cache flag (false for simple/alias format)
    pub fn invalidates_cache(&self) -> (invalidates: bool)
        ensures
            invalidates == (self is Rich && self->Rich_0.invalidates_cache),
    {
        match self {
            TargetConfig::Rich(rich) => rich.invalidates_cache,
            _ => false,
        }
    }

    /// Get exclusive_resources (empty for simple/alias format)
    pub fn exclusive_resources(&self) -> (resources: Vec<String>)
        ensures
            resources@ == (match self {
                TargetConfig::Rich(rich) => rich.exclusive_resources@,
                _ => Seq::empty(),
            }),
    {
        match self {
            TargetConfig::Rich(rich) => rich.exclusive_resources.clone(),
            _ => Vec::new(),
        }
    }

    /// Check if this is an alias target
    pub fn is_alias(&self) -> (alias: bool)
        ensures
            alias == (self is Alias),
    {
        matches!(self, TargetConfig::Alias(_))
    }

    /// Get the alias target name, if this is an alias
    pub fn alias_target(&self) -> (target: Option<&str>)
        ensures
            target is Some <==> self is Alias,
            target is Some ==> target->0@ == self->Alias_0.alias@,
    {
        match self {
            TargetConfig::Alias(alias) => Some(alias.alias.as_str()),
            _ => None,
        }
    }
}

// ---------------------------------------------------------------------------
// Validation
// ---------------------------------------------------------------------------

/// What is wrong with a configuration, without the file it stands in.
pub enum ConfigFault {
    /// A dependency of the project is no address
    Dependency(Seq<char>),
    /// A dependency of a target is no address
    TargetDependency(Seq<char>, Seq<char>),
    /// A target has a capability that does not exist
    Capability(Seq<char>, Seq<char>),
    /// A target's files_glob is no pattern
    FilesGlob(Seq<char>, Seq<char>),
    /// A pattern of a target's cache configuration is none
    CacheGlob(Seq<char>, Seq<char>),
}

/// The first string of a list that is bad.
pub open spec fn first_bad(items: Seq<Seq<char>>, bad: spec_fn(Seq<char>) -> bool) -> Option<Seq<char>>
    decreases items.len(),
{
    if items.len() == 0 {
        None
    } else {
        match first_bad(items.drop_last(), bad) {
            Some(item) => Some(item),
            None => if bad(items.last()) {
                Some(items.last())
            } else {
                None
            },
        }
    }
}

/// The first string that is no address.
pub open spec fn bad_address(items: Seq<Seq<char>>) -> Option<Seq<char>> {
    first_bad(items, |item: Seq<char>| address_parts(item) is None)
}

/// The first string that is no pattern.
pub open spec fn bad_glob(items: Seq<Seq<char>>) -> Option<Seq<char>> {
    first_bad(items, |item: Seq<char>| !is_glob(item))
}

/// The first capability that does not exist.
pub open spec fn bad_capability(items: Seq<Seq<char>>) -> Option<Seq<char>> {
    first_bad(items, |item: Seq<char>| item != "files_list"@)
}

/// What is wrong with a target's own settings.
pub open spec fn rich_fault(name: Seq<char>, target: RichTargetConfig) -> Option<ConfigFault> {
    if let Some(capability) = bad_capability(texts(target.capabilities@)) {
        Some(ConfigFault::Capability(capability, name))
    } else if target.files_glob is Some && !is_glob(target.files_glob->0@) {
        Some(ConfigFault::FilesGlob(target.files_glob->0@, name))
    } else if let Some(cache) = target.cache {
        match bad_glob(texts(cache.include_globs@) + texts(cache.exclude_globs@)) {
            Some(pattern) => Some(ConfigFault::CacheGlob(pattern, name)),
            None => None,
        }
    } else {
        None
    }
}

/// The first thing that is wrong with a target.
pub open spec fn target_fault(name: Seq<char>, target: TargetConfig) -> Option<ConfigFault> {
    match bad_address(texts(target.dependency_list())) {
        Some(dependency) => Some(ConfigFault::TargetDependency(dependency, name)),
        None => match target {
            TargetConfig::Rich(rich) => rich_fault(name, rich),
            _ => None,
        },
    }
}

/// The first thing that is wrong with the first `count` targets, in the order of their names.
pub open spec fn targets_fault(targets: TextMap<TargetConfig>, count: int) -> Option<ConfigFault>
    decreases count,
{
    if count <= 0 {
        None
    } else {
        match targets_fault(targets, count - 1) {
            Some(fault) => Some(fault),
            None => target_fault(targets.keys()[count - 1], targets@[targets.keys()[count - 1]]),
        }
    }
}

/// The first thing that is wrong with a configuration.
pub open spec fn config_fault(depends_on: Seq<Seq<char>>, targets: TextMap<TargetConfig>) -> Option<ConfigFault> {
    match bad_address(depends_on) {
        Some(dependency) => Some(ConfigFault::Dependency(dependency)),
        None => targets_fault(targets, targets.keys().len() as int),
    }
}

/// Why a configuration file is refused.
#[derive(Debug, Clone, PartialEq, Eq)]
pub enum ConfigError {
    Dependency { dependency: String, path: String },
    TargetDependency { dependency: String, target: String, path: String },
    Capability { capability: String, target: String, path: String },
    FilesGlob { pattern: String, target: String, path: String },
    CacheGlob { pattern: String, target: String, path: String },
}

impl ConfigError {
    /// What is wrong, without the file.
    pub open spec fn fault(&self) -> ConfigFault {
        match self {
            ConfigError::Dependency { dependency, path } => ConfigFault::Dependency(dependency@),
            ConfigError::TargetDependency { dependency, target, path } => ConfigFault::TargetDependency(
                dependency@,
                target@,
            ),
            ConfigError::Capability { capability, target, path } => ConfigFault::Capability(capability@, target@),
            ConfigError::FilesGlob { pattern, target, path } => ConfigFault::FilesGlob(pattern@, target@),
            ConfigError::CacheGlob { pattern, target, path } => ConfigFault::CacheGlob(pattern@, target@),
        }
    }

    /// The file that is refused.
    pub open spec fn file(&self) -> Seq<char> {
        match self {
            ConfigError::Dependency { dependency, path } => path@,
            ConfigError::TargetDependency { dependency, target, path } => path@,
            ConfigError::Capability { capability, target, path } => path@,
            ConfigError::FilesGlob { pattern, target, path } => path@,
            ConfigError::CacheGlob { pattern, target, path } => path@,
        }
    }

    /// The message for a reader.
    pub fn to_string(&self) -> (message: String)
        ensures
            message@ == (match self.fault() {
                ConfigFault::Dependency(dependency) => "Invalid dependency '"@ + dependency + "' in "@ + self.file(),
                ConfigFault::TargetDependency(dependency, target) => "Invalid dependency '"@ + dependency
                    + "' for target '"@ + target + "' in "@ + self.file(),
                ConfigFault::Capability(capability, target) => "Unsupported capability '"@ + capability
                    + "' for target '"@ + target + "' in "@ + self.file()
                    + ". Supported capabilities: files_list"@,
                ConfigFault::FilesGlob(pattern, target) => "Invalid files_glob '"@ + pattern + "' for target '"@
                    + target + "' in "@ + self.file(),
                ConfigFault::CacheGlob(pattern, target) => "Invalid cache glob '"@ + pattern + "' for target '"@
                    + target + "' in "@ + self.file(),
            }),
    {
        match self {
            ConfigError::Dependency { dependency, path } => {
                concat2(&concat2(&concat2("Invalid dependency '", dependency), "' in "), path)
            },
            ConfigError::TargetDependency { dependency, target, path } => {
                let front = concat5("Invalid dependency '", dependency, "' for target '", target, "' in ");
                concat2(&front, path)
            },
            ConfigError::Capability { capability, target, path } => {
                let front = concat5("Unsupported capability '", capability, "' for target '", target, "' in ");
                concat2(&concat2(&front, path), ". Supported capabilities: files_list")
            },
            ConfigError::FilesGlob { pattern, target, path } => {
                let front = concat5("Invalid files_glob '", pattern, "' for target '", target, "' in ");
                concat2(&front, path)
            },
            ConfigError::CacheGlob { pattern, target, path } => {
                let front = concat5("Invalid cache glob '", pattern, "' for target '", target, "' in ");
                concat2(&front, path)
            },
        }
    }
}

/// What a list of strings is checked for.
#[derive(Clone, Copy)]
enum Check {
    Address,
    Glob,
    Capability,
}

spec fn fails(check: Check, item: Seq<char>) -> bool {
    match check {
        Check::Address => address_parts(item) is None,
        Check::Glob => !is_glob(item),
        Check::Capability => item != "files_list"@,
    }
}

proof fn first_bad_same(items: Seq<Seq<char>>, one: spec_fn(Seq<char>) -> bool, other: spec_fn(Seq<char>) -> bool)
    requires
        forall|item: Seq<char>| #[trigger] one(item) == other(item),
    ensures
        first_bad(items, one) == first_bad(items, other),
    decreases items.len(),
{
    if items.len() > 0 {
        first_bad_same(items.drop_last(), one, other);
        assert(one(items.last()) == other(items.last()));
    }
}

proof fn first_bad_sum(first: Seq<Seq<char>>, second: Seq<Seq<char>>, bad: spec_fn(Seq<char>) -> bool)
    ensures
        first_bad(first + second, bad) == (match first_bad(first, bad) {
            Some(item) => Some(item),
            None => first_bad(second, bad),
        }),
    decreases second.len(),
{
    if second.len() == 0 {
        assert(first + second =~= first);
    } else {
        first_bad_sum(first, second.drop_last(), bad);
        assert((first + second).drop_last() =~= first + second.drop_last());
    }
}

fn find_bad(items: &Vec<String>, check: Check) -> (found: Option<usize>)
    ensures
        match found {
            Some(at) => at < items@.len() && first_bad(texts(items@), |item: Seq<char>| fails(check, item)) == Some(
                items@[at as int]@,
            ),
            None => first_bad(texts(items@), |item: Seq<char>| fails(check, item)) is None,
        },
{
    let ghost all = texts(items@);
    let ghost bad = |item: Seq<char>| fails(check, item);
    let mut found: Option<usize> = None;
    let mut i: usize = 0;
    assert(all.take(0) =~= Seq::<Seq<char>>::empty());
    while i < items.len()
        invariant
            i <= items@.len(),
            all == texts(items@),
            bad == (|item: Seq<char>| fails(check, item)),
            match found {
                Some(at) => at < items@.len() && first_bad(all.take(i as int), bad) == Some(items@[at as int]@),
                None => first_bad(all.take(i as int), bad) is None,
            },
        decreases items@.len() - i,
    {
        proof {
            assert(all.take(i + 1).drop_last() =~= all.take(i as int));
            assert(all.take(i + 1).last() == items@[i as int]@);
        }
        if found.is_none() {
            let failed = match check {
                Check::Address => Address::parse(&items[i]).is_err(),
                Check::Glob => check_glob(&items[i]).is_err(),
                Check::Capability => !same_text(&items[i], "files_list"),
            };
            if failed {
                found = Some(i);
            }
        }
        i += 1;
    }
    assert(all.take(all.len() as int) =~= all);
    found
}

fn find_bad_address(items: &Vec<String>) -> (found: Option<usize>)
    ensures
        match found {
            Some(at) => at < items@.len() && bad_address(texts(items@)) == Some(items@[at as int]@),
            None => bad_address(texts(items@)) is None,
        },
{
    proof {
        first_bad_same(
            texts(items@),
            |item: Seq<char>| fails(Check::Address, item),
            |item: Seq<char>| address_parts(item) is None,
        );
    }
    find_bad(items, Check::Address)
}

fn find_bad_glob(items: &Vec<String>) -> (found: Option<usize>)
    ensures
        match found {
            Some(at) => at < items@.len() && bad_glob(texts(items@)) == Some(items@[at as int]@),
            None => bad_glob(texts(items@)) is None,
        },
{
    proof {
        first_bad_same(texts(items@), |item: Seq<char>| fails(Check::Glob, item), |item: Seq<char>| !is_glob(item));
    }
    find_bad(items, Check::Glob)
}

fn validate_rich(name: &str, target: &RichTargetConfig, path: &str) -> (valid: Result<(), ConfigError>)
    ensures
        valid is Ok <==> rich_fault(name@, *target) is None,
        valid matches Err(error) ==> rich_fault(name@, *target) == Some(error.fault()) && error.file() == path@,
{
    proof {
        first_bad_same(
            texts(target.capabilities@),
            |item: Seq<char>| fails(Check::Capability, item),
            |item: Seq<char>| item != "files_list"@,
        );
    }
    if let Some(at) = find_bad(&target.capabilities, Check::Capability) {
        return Err(
            ConfigError::Capability {
                capability: target.capabilities[at].clone(),
                target: name.to_owned(),
                path: path.to_owned(),
            },
        );
    }
    if let Some(pattern) = &target.files_glob {
        if check_glob(pattern).is_err() {
            return Err(
                ConfigError::FilesGlob { pattern: pattern.clone(), target: name.to_owned(), path: path.to_owned() },
            );
        }
    }
    if let Some(cache) = &target.cache {
        proof {
            first_bad_sum(
                texts(cache.include_globs@),
                texts(cache.exclude_globs@),
                |item: Seq<char>| !is_glob(item),
            );
        }
        if let Some(at) = find_bad_glob(&cache.include_globs) {
            return Err(
                ConfigError::CacheGlob {
                    pattern: cache.include_globs[at].clone(),
                    target: name.to_owned(),
                    path: path.to_owned(),
                },
            );
        }
        if let Some(at) = find_bad_glob(&cache.exclude_globs) {
            return Err(
                ConfigError::CacheGlob {
                    pattern: cache.exclude_globs[at].clone(),
                    target: name.to_owned(),
                    path: path.to_owned(),
                },
            );
        }
    }
    Ok(())
}

proof fn targets_fault_stays(targets: TextMap<TargetConfig>, fewer: int, more: int)
    requires
        fewer <= more,
        targets_fault(targets, fewer) is Some,
    ensures
        targets_fault(targets, more) == targets_fault(targets, fewer),
    decreases more - fewer,
{
    if fewer < more {
        targets_fault_stays(targets, fewer, more - 1);
    }
}

/// Validate fields shared by the project and workspace views of aster.toml.
///
/// The root file is read through both views by different commands, so semantic
/// validity must not depend on which command happened to load it.
pub fn validate_aster_config(depends_on: &Vec<String>, targets: &TextMap<TargetConfig>, path: &str) -> (valid: Result<
    (),
    ConfigError,
>)
    ensures
        valid is Ok <==> config_fault(texts(depends_on@), *targets) is None,
        valid matches Err(error) ==> config_fault(texts(depends_on@), *targets) == Some(error.fault()) && error.file()
            == path@,
{
    if let Some(at) = find_bad_address(depends_on) {
        return Err(ConfigError::Dependency { dependency: depends_on[at].clone(), path: path.to_owned() });
    }
    let count = targets.len();
    let mut i: usize = 0;
    while i < count
        invariant
            i <= count,
            count == targets.keys().len(),
            bad_address(texts(depends_on@)) is None,
            targets_fault(*targets, i as int) is None,
        decreases count - i,
    {
        let name = targets.key_at(i);
        let target = targets.value_at(i);
        let dependencies = target.depends_on();
        if let Some(at) = find_bad_address(&dependencies) {
            proof {
                assert(targets_fault(*targets, i + 1) is Some);
                targets_fault_stays(*targets, i + 1, count as int);
            }
            return Err(
                ConfigError::TargetDependency {
                    dependency: dependencies[at].clone(),
                    target: name.clone(),
                    path: path.to_owned(),
                },
            );
        }
        if let TargetConfig::Rich(rich) = target {
            if let Err(error) = validate_rich(name, rich, path) {
                proof {
                    assert(targets_fault(*targets, i + 1) is Some);
                    targets_fault_stays(*targets, i + 1, count as int);
                }
                return Err(error);
            }
        }
        i += 1;
    }
    Ok(())
}

/// The file of a project's own settings, where it exists.
pub fn find_aster_toml(project_dir: &str, exists: bool) -> (path: Option<String>)
    ensures
        path is Some <==> exists,
        path matches Some(found) ==> found@ == crate::paths::path_join(project_dir@, "aster.toml"@),
{
    if exists {
        Some(crate::paths::join_path(project_dir, "aster.toml"))
    } else {
        None
    }
}

/// The first bad string is bad, and those in front of it are not; there is none
/// where no string is bad.
pub proof fn first_bad_is_first(items: Seq<Seq<char>>, bad: spec_fn(Seq<char>) -> bool)
    ensures
        first_bad(items, bad) is None <==> forall|i: int| 0 <= i < items.len() ==> !bad(#[trigger] items[i]),
        first_bad(items, bad) matches Some(item) ==> exists|i: int|
            0 <= i < items.len() && (#[trigger] items[i]) == item && bad(item) && forall|j: int|
                0 <= j < i ==> !bad(#[trigger] items[j]),
    decreases items.len(),
{
    if items.len() > 0 {
        let front = items.drop_last();
        first_bad_is_first(front, bad);
        assert(forall|i: int| 0 <= i < front.len() ==> #[trigger] front[i] == items[i]);
        assert(items[items.len() - 1] == items.last());
        match first_bad(front, bad) {
            Some(item) => {
                let i = choose|i: int|
                    0 <= i < front.len() && (#[trigger] front[i]) == item && bad(item) && forall|j: int|
                        0 <= j < i ==> !bad(#[trigger] front[j]);
                assert(items[i] == item);
                assert forall|j: int| 0 <= j < i implies !bad(#[trigger] items[j]) by {
                    assert(front[j] == items[j]);
                }
            },
            None => {
                assert forall|i: int| 0 <= i < front.len() implies !bad(#[trigger] items[i]) by {
                    assert(front[i] == items[i]);
                }
            },
        }
    }
}

/// A configuration without fault has addresses as dependencies everywhere,
/// known capabilities and patterns that are globs, in every target; and such a
/// configuration has no fault.
pub proof fn sound_configurations(depends_on: Seq<Seq<char>>, targets: TextMap<TargetConfig>)
    ensures
        config_fault(depends_on, targets) is None <==> {
            &&& forall|i: int| 0 <= i < depends_on.len() ==> address_parts(#[trigger] depends_on[i]) is Some
            &&& forall|k: int| 0 <= k < targets.keys().len() ==> is_sound(targets@[#[trigger] targets.keys()[k]])
        },
{
    first_bad_is_first(depends_on, |item: Seq<char>| address_parts(item) is None);
    sound_targets(targets, targets.keys().len() as int);
    let bad = |item: Seq<char>| address_parts(item) is None;
    if bad_address(depends_on) is None {
        assert forall|i: int| 0 <= i < depends_on.len() implies address_parts(#[trigger] depends_on[i]) is Some by {
            assert(!bad(depends_on[i]));
        }
    } else {
        let i = choose|i: int| 0 <= i < depends_on.len() && bad(#[trigger] depends_on[i]);
        assert(address_parts(depends_on[i]) is None);
    }
}

/// Every dependency of a target is an address, every capability is known and
/// every pattern is a glob.
pub open spec fn is_sound(target: TargetConfig) -> bool {
    &&& forall|i: int|
        0 <= i < target.dependency_list().len() ==> address_parts((#[trigger] target.dependency_list()[i])@) is Some
    &&& target matches TargetConfig::Rich(rich) ==> {
        &&& forall|i: int| 0 <= i < rich.capabilities@.len() ==> (#[trigger] rich.capabilities@[i])@ == "files_list"@
        &&& rich.files_glob matches Some(pattern) ==> is_glob(pattern@)
        &&& rich.cache matches Some(cache) ==> {
            &&& forall|i: int| 0 <= i < cache.include_globs@.len() ==> is_glob((#[trigger] cache.include_globs@[i])@)
            &&& forall|i: int| 0 <= i < cache.exclude_globs@.len() ==> is_glob((#[trigger] cache.exclude_globs@[i])@)
        }
    }
}

proof fn sound_target(name: Seq<char>, target: TargetConfig)
    ensures
        target_fault(name, target) is None <==> is_sound(target),
{
    let names = texts(target.dependency_list());
    let unnamed = |item: Seq<char>| address_parts(item) is None;
    first_bad_is_first(names, unnamed);
    if bad_address(names) is None {
        assert forall|i: int| 0 <= i < target.dependency_list().len() implies address_parts(
            (#[trigger] target.dependency_list()[i])@,
        ) is Some by {
            assert(!unnamed(names[i]));
        }
    } else {
        let i = choose|i: int| 0 <= i < names.len() && unnamed(#[trigger] names[i]);
        assert(address_parts(target.dependency_list()[i]@) is None);
    }
    if let TargetConfig::Rich(rich) = target {
        let abilities = texts(rich.capabilities@);
        let unknown = |item: Seq<char>| item != "files_list"@;
        first_bad_is_first(abilities, unknown);
        if bad_capability(abilities) is None {
            assert forall|i: int| 0 <= i < rich.capabilities@.len() implies (#[trigger] rich.capabilities@[i])@
                == "files_list"@ by {
                assert(!unknown(abilities[i]));
            }
        } else {
            let i = choose|i: int| 0 <= i < abilities.len() && unknown(#[trigger] abilities[i]);
            assert(rich.capabilities@[i]@ != "files_list"@);
        }
        if let Some(cache) = rich.cache {
            let included = texts(cache.include_globs@);
            let excluded = texts(cache.exclude_globs@);
            let patterns = included + excluded;
            let wrong = |item: Seq<char>| !is_glob(item);
            first_bad_is_first(patterns, wrong);
            if bad_glob(patterns) is None {
                assert forall|i: int| 0 <= i < cache.include_globs@.len() implies is_glob(
                    (#[trigger] cache.include_globs@[i])@,
                ) by {
                    assert(patterns[i] == included[i]);
                    assert(!wrong(patterns[i]));
                }
                assert forall|i: int| 0 <= i < cache.exclude_globs@.len() implies is_glob(
                    (#[trigger] cache.exclude_globs@[i])@,
                ) by {
                    assert(patterns[included.len() + i] == excluded[i]);
                    assert(!wrong(patterns[included.len() + i]));
                }
            } else {
                let i = choose|i: int| 0 <= i < patterns.len() && wrong(#[trigger] patterns[i]);
                if i < included.len() {
                    assert(!is_glob(cache.include_globs@[i]@));
                } else {
                    assert(!is_glob(cache.exclude_globs@[i - included.len()]@));
                }
            }
        }
    }
}

proof fn sound_targets(targets: TextMap<TargetConfig>, count: int)
    requires
        0 <= count <= targets.keys().len(),
    ensures
        targets_fault(targets, count) is None <==> forall|k: int|
            0 <= k < count ==> is_sound(targets@[#[trigger] targets.keys()[k]]),
    decreases count,
{
    if count > 0 {
        sound_targets(targets, count - 1);
        let name = targets.keys()[count - 1];
        sound_target(name, targets@[name]);
    }
}

/// A dependency of the project that is no address is told of before any target, and
/// the first of several.
pub proof fn dependencies_are_checked_first(depends_on: Seq<Seq<char>>, targets: TextMap<TargetConfig>, at: int)
    requires
        0 <= at < depends_on.len(),
        address_parts(depends_on[at]) is None,
        forall|i: int| 0 <= i < at ==> address_parts(#[trigger] depends_on[i]) is Some,
    ensures
        config_fault(depends_on, targets) == Some(ConfigFault::Dependency(depends_on[at])),
{
    let bad = |item: Seq<char>| address_parts(item) is None;
    first_bad_is_first(depends_on, bad);
    assert(bad(depends_on[at]));
    let item = first_bad(depends_on, bad)->0;
    let i = choose|i: int|
        0 <= i < depends_on.len() && (#[trigger] depends_on[i]) == item && bad(item) && forall|j: int|
            0 <= j < i ==> !bad(#[trigger] depends_on[j]);
    if i < at {
        assert(address_parts(depends_on[i]) is Some);
    } else if at < i {
        assert(!bad(depends_on[at]));
    }
    assert(bad_address(depends_on) == Some(depends_on[at]));
}

} // verus!
