//! What is decided for a single target: whether it runs, how, and what its
//! result means for the cache.
use vstd::prelude::*;
use crate::cache::store::CacheEntry;
use crate::collections::{ascending, set_of, TextMap, TextSet};
use crate::config::project::CacheConfig;
use crate::discovery::scanner::DiscoveredProject;
use crate::executor::results::{skipped_result, skipped_view, ExecutionResult};
use crate::executor::targets::{find_target, parse_target_address, split_last, target_at};
use crate::paths::{join_path, path_join};
use crate::plugins::{CacheInputs, Target};
use crate::text::{same_text, texts};

verus! {

/// A target that is to be run, with the command to run.
pub struct TargetJob<'a> {
    pub address: String,
    pub target_name: String,
    pub command: String,
    pub project: &'a DiscoveredProject,
    /// The target's definition; none where an override runs for a target that the project lacks
    pub target: Option<&'a Target>,
}

/// What becomes of a target before anything runs.
pub enum Preparation<'a> {
    /// The address names no project of the workspace
    Ignored,
    /// The project does not define the target
    Skipped(ExecutionResult),
    /// The target is to be run
    Ready(TargetJob<'a>),
}

/// The command that overrides give a target.
pub open spec fn override_in(overrides: Map<Seq<char>, String>, address: Seq<char>) -> Option<Seq<char>> {
    if overrides.contains_key(address) {
        Some(overrides[address]@)
    } else {
        None
    }
}

/// The command that an override gives a target.
pub open spec fn override_of(overrides: Option<&TextMap<String>>, address: Seq<char>) -> Option<Seq<char>> {
    match overrides {
        Some(commands) => override_in(commands@, address),
        None => None,
    }
}

/// What becomes of a target before anything runs, where an override may be
/// given for its command.
pub open spec fn is_preparation(
    preparation: Preparation,
    projects: Map<Seq<char>, &DiscoveredProject>,
    given: Option<Seq<char>>,
    address: Seq<char>,
) -> bool {
    match split_last(address, ':') {
        None => preparation is Ignored,
        Some((project, name)) => if !projects.contains_key(project) {
            preparation is Ignored
        } else {
            let target = target_at(projects, address);
            if given is None && target is None {
                preparation is Skipped && preparation->Skipped_0@ == skipped_view(address, name)
            } else {
                &&& preparation is Ready
                &&& preparation->Ready_0.address@ == address
                &&& preparation->Ready_0.target_name@ == name
                &&& preparation->Ready_0.project == projects[project]
                &&& preparation->Ready_0.target is Some <==> target is Some
                &&& target is Some ==> *preparation->Ready_0.target->0 == target->0
                &&& preparation->Ready_0.command@ == (match given {
                    Some(command) => command,
                    None => target->0.command@,
                })
            }
        },
    }
}

/// Finds out what becomes of a target before anything runs. An override
/// replaces the target's own command.
pub fn prepare_target<'a>(
    target_addr: &str,
    project_map: &TextMap<&'a DiscoveredProject>,
    command_overrides: Option<&TextMap<String>>,
) -> (preparation: Preparation<'a>)
    ensures
        is_preparation(preparation, project_map@, override_of(command_overrides, target_addr@), target_addr@),
{
    let (project_addr, target_name) = match parse_target_address(target_addr) {
        Some(parts) => parts,
        None => return Preparation::Ignored,
    };
    let project: &'a DiscoveredProject = match project_map.get(&project_addr) {
        Some(project) => *project,
        None => return Preparation::Ignored,
    };
    let target = project.targets.get(&target_name);
    let given: Option<String> = match command_overrides {
        Some(overrides) => match overrides.get(target_addr) {
            Some(command) => Some(command.clone()),
            None => None,
        },
        None => None,
    };
    let command = match given {
        Some(command) => command,
        None => match target {
            Some(target) => target.command.clone(),
            None => return Preparation::Skipped(skipped_result(target_addr, &target_name)),
        },
    };
    Preparation::Ready(TargetJob { address: target_addr.to_owned(), target_name, command, project, target })
}

/// An override replaces the command of a target of the workspace, also of one
/// that its project does not define; a target without one runs its own command
/// or, where it is not defined, is skipped.
pub proof fn overrides_replace_commands(
    preparation: Preparation,
    projects: Map<Seq<char>, &DiscoveredProject>,
    overrides: Map<Seq<char>, String>,
    address: Seq<char>,
)
    requires
        is_preparation(preparation, projects, override_in(overrides, address), address),
        split_last(address, ':') is Some,
        projects.contains_key((split_last(address, ':')->0).0),
    ensures
        overrides.contains_key(address) ==> preparation is Ready && preparation->Ready_0.command@
            == overrides[address]@,
        !overrides.contains_key(address) && target_at(projects, address) is Some ==> preparation is Ready
            && preparation->Ready_0.command@ == target_at(projects, address)->0.command@,
        !overrides.contains_key(address) && target_at(projects, address) is None ==> preparation is Skipped,
{
}

impl<'a> TargetJob<'a> {
    /// The directory in which the command runs: the target's own, else the project's.
    pub fn working_dir(&self) -> (directory: String)
        ensures
            directory@ == (if self.target is Some && self.target->0.working_dir is Some {
                self.target->0.working_dir->0@
            } else {
                self.project.root@
            }),
    {
        if let Some(target) = self.target {
            if let Some(directory) = &target.working_dir {
                return directory.clone();
            }
        }
        self.project.root.clone()
    }

    /// Whether a success clears the project's cache entries.
    pub fn invalidates_cache(&self) -> (invalidates: bool)
        ensures
            invalidates == (self.target is Some && self.target->0.invalidates_cache),
    {
        match self.target {
            Some(target) => target.invalidates_cache,
            None => false,
        }
    }

    /// The resources that the target must have for itself, in the order in
    /// which every target takes them.
    pub fn resources(&self) -> (names: Vec<String>)
        ensures
            ascending(texts(names@)),
            texts(names@).to_set() == (match self.target {
                Some(target) => texts(target.exclusive_resources@).to_set(),
                None => Set::empty(),
            }),
    {
        match self.target {
            Some(target) => set_of(&target.exclusive_resources).to_vec(),
            None => TextSet::new().to_vec(),
        }
    }
}

/// Some target of the list needs the resource.
pub open spec fn needs_resource(
    projects: Map<Seq<char>, &DiscoveredProject>,
    addresses: Seq<Seq<char>>,
    resource: Seq<char>,
) -> bool {
    exists|i: int|
        0 <= i < addresses.len() && target_at(projects, #[trigger] addresses[i]) is Some && texts(
            target_at(projects, addresses[i])->0.exclusive_resources@,
        ).contains(resource)
}

/// The resources that targets of a level must have for themselves.
pub fn level_resources(target_addrs: &Vec<String>, project_map: &TextMap<&DiscoveredProject>) -> (resources: TextSet)
    ensures
        resources@ == Set::new(
            |resource: Seq<char>| needs_resource(project_map@, texts(target_addrs@), resource),
        ),
{
    let ghost all = texts(target_addrs@);
    let ghost projects = project_map@;
    let mut resources = TextSet::new();
    let mut i: usize = 0;
    assert(all.take(0) =~= Seq::<Seq<char>>::empty());
    while i < target_addrs.len()
        invariant
            i <= target_addrs@.len(),
            all == texts(target_addrs@),
            projects == project_map@,
            forall|resource: Seq<char>|
                resources@.contains(resource) <==> needs_resource(projects, all.take(i as int), resource),
        decreases target_addrs@.len() - i,
    {
        let ghost front = all.take(i as int);
        let ghost next = all.take(i + 1);
        let ghost before = resources@;
        assert(next =~= front.push(target_addrs@[i as int]@));
        let found = find_target(&target_addrs[i], project_map);
        let ghost own: Seq<Seq<char>> = match found {
            Some(target) => texts(target.exclusive_resources@),
            None => Seq::empty(),
        };
        if let Some(target) = found {
            let mut j: usize = 0;
            while j < target.exclusive_resources.len()
                invariant
                    j <= target.exclusive_resources@.len(),
                    own == texts(target.exclusive_resources@),
                    forall|resource: Seq<char>| #[trigger]
                        resources@.contains(resource) <==> before.contains(resource) || own.take(j as int).contains(
                            resource,
                        ),
                decreases target.exclusive_resources@.len() - j,
            {
                let ghost now = resources@;
                let _ = resources.insert(target.exclusive_resources[j].clone());
                proof {
                    let item = target.exclusive_resources@[j as int]@;
                    let fewer = own.take(j as int);
                    let more = own.take(j + 1);
                    assert(more =~= fewer.push(item));
                    assert forall|resource: Seq<char>| #[trigger]
                        resources@.contains(resource) <==> before.contains(resource) || own.take(j + 1).contains(
                            resource,
                        ) by {
                        assert(now.contains(resource) <==> before.contains(resource) || fewer.contains(resource));
                        if fewer.contains(resource) {
                            let k = choose|k: int| 0 <= k < fewer.len() && fewer[k] == resource;
                            assert(more[k] == resource);
                        }
                        if more.contains(resource) {
                            let k = choose|k: int| 0 <= k < more.len() && more[k] == resource;
                            if k < j {
                                assert(fewer[k] == resource);
                            }
                        }
                        assert(more[j as int] == item);
                    }
                }
                j += 1;
            }
            assert(own.take(own.len() as int) =~= own);
        }
        proof {
            assert forall|resource: Seq<char>|
                resources@.contains(resource) <==> needs_resource(projects, next, resource) by {
                assert(before.contains(resource) <==> needs_resource(projects, front, resource));
                assert(resources@.contains(resource) <==> before.contains(resource) || own.contains(resource));
                if needs_resource(projects, front, resource) {
                    let k = choose|k: int|
                        0 <= k < front.len() && target_at(projects, #[trigger] front[k]) is Some && texts(
                            target_at(projects, front[k])->0.exclusive_resources@,
                        ).contains(resource);
                    assert(next[k] == front[k]);
                }
                if own.contains(resource) {
                    assert(next[i as int] == target_addrs@[i as int]@);
                }
                if needs_resource(projects, next, resource) {
                    let k = choose|k: int|
                        0 <= k < next.len() && target_at(projects, #[trigger] next[k]) is Some && texts(
                            target_at(projects, next[k])->0.exclusive_resources@,
                        ).contains(resource);
                    if k < i {
                        assert(front[k] == next[k]);
                    }
                }
            }
        }
        i += 1;
    }
    assert(all.take(all.len() as int) =~= all);
    assert(resources@ =~= Set::new(|resource: Seq<char>| needs_resource(projects, all, resource)));
    resources
}

// ---------------------------------------------------------------------------
// Cache
// ---------------------------------------------------------------------------

/// The targets that are cached without being asked to.
pub open spec fn default_cacheable(target_name: Seq<char>) -> bool {
    ||| target_name == "deps"@
    ||| target_name == "build"@
    ||| target_name == "test"@
    ||| target_name == "lint"@
    ||| target_name == "format"@
    ||| target_name == "typecheck"@
    ||| target_name == "check"@
}

/// Whether a target is cached without being asked to.
pub fn is_default_cacheable_target(target_name: &str) -> (cacheable: bool)
    ensures
        cacheable == default_cacheable(target_name@),
{
    same_text(target_name, "deps") || same_text(target_name, "build") || same_text(target_name, "test") || same_text(
        target_name,
        "lint",
    ) || same_text(target_name, "format") || same_text(target_name, "typecheck") || same_text(target_name, "check")
}

/// What a target's configuration says of caching it.
pub open spec fn cache_setting(target: Target) -> Option<bool> {
    match target.cache {
        Some(config) => config.enabled,
        None => None,
    }
}

/// Whether a target may be cached: it is asked for, or it is a common target
/// whose plugin knows inputs and nobody forbids it.
pub open spec fn may_cache(target: Target, target_name: Seq<char>, inputs: CacheInputs) -> bool {
    match cache_setting(target) {
        Some(enabled) => enabled,
        None => default_cacheable(target_name) && (inputs.source_globs@.len() > 0 || inputs.config_files@.len() > 0
            || inputs.env_vars@.len() > 0),
    }
}

/// Every dependency of the target has a computed hash.
pub open spec fn dependencies_hashed(target: Target, computed: Map<Seq<char>, String>) -> bool {
    forall|i: int| 0 <= i < target.depends_on@.len() ==> computed.contains_key((#[trigger] target.depends_on@[i])@)
}

/// The hashes of a target's dependencies, in order, where the target may be
/// cached and each of them has one. A target that is defined nowhere or whose
/// plugin is unknown is not cached.
pub fn cache_dependency_hashes(
    target: Option<&Target>,
    target_name: &str,
    plugin_inputs: Option<&CacheInputs>,
    computed_hashes: &TextMap<String>,
) -> (hashes: Option<Vec<String>>)
    ensures
        hashes is Some <==> target is Some && plugin_inputs is Some && may_cache(
            *target->0,
            target_name@,
            *plugin_inputs->0,
        ) && dependencies_hashed(*target->0, computed_hashes@),
        hashes matches Some(found) ==> texts(found@) == texts(target->0.depends_on@).map_values(
            |dependency: Seq<char>| computed_hashes@[dependency]@,
        ),
{
    let definition = match target {
        Some(definition) => definition,
        None => return None,
    };
    let enabled = match &definition.cache {
        Some(config) => config.enabled,
        None => None,
    };
    let inputs = match plugin_inputs {
        Some(inputs) => inputs,
        None => return None,
    };
    match enabled {
        Some(asked) => {
            if !asked {
                return None;
            }
        },
        None => {
            if !is_default_cacheable_target(target_name) {
                return None;
            }
            if inputs.source_globs.len() == 0 && inputs.config_files.len() == 0 && inputs.env_vars.len() == 0 {
                return None;
            }
        },
    }
    let mut hashes: Vec<String> = Vec::new();
    let mut i: usize = 0;
    while i < definition.depends_on.len()
        invariant
            i <= definition.depends_on@.len(),
            target == Some(definition),
            hashes@.len() == i,
            forall|k: int| 0 <= k < i ==> computed_hashes@.contains_key((#[trigger] definition.depends_on@[k])@),
            forall|k: int| 0 <= k < i ==> (#[trigger] hashes@[k])@ == computed_hashes@[definition.depends_on@[k]@]@,
        decreases definition.depends_on@.len() - i,
    {
        match computed_hashes.get(&definition.depends_on[i]) {
            Some(hash) => {
                hashes.push(hash.clone());
            },
            None => {
                assert(!computed_hashes@.contains_key(definition.depends_on@[i as int]@));
                return None;
            },
        }
        i += 1;
    }
    assert(texts(hashes@) =~= texts(definition.depends_on@).map_values(
        |dependency: Seq<char>| computed_hashes@[dependency]@,
    ));
    Some(hashes)
}

/// The hashes of those dependencies that have one, in order.
pub open spec fn known_hashes(dependencies: Seq<Seq<char>>, computed: Map<Seq<char>, String>) -> Seq<Seq<char>> {
    dependencies.filter(|dependency: Seq<char>| computed.contains_key(dependency)).map_values(
        |dependency: Seq<char>| computed[dependency]@,
    )
}

/// The hashes of those dependencies that have one, in order: they enter the
/// hash that is computed after a run.
pub fn postflight_dependency_hashes(target: Option<&Target>, computed_hashes: &TextMap<String>) -> (hashes: Vec<String>)
    ensures
        texts(hashes@) == (match target {
            Some(target) => known_hashes(texts(target.depends_on@), computed_hashes@),
            None => Seq::empty(),
        }),
{
    let mut hashes: Vec<String> = Vec::new();
    assert(texts(hashes@) =~= Seq::<Seq<char>>::empty());
    if let Some(target) = target {
        let ghost all = texts(target.depends_on@);
        let ghost computed = computed_hashes@;
        let ghost known = |dependency: Seq<char>| computed.contains_key(dependency);
        let ghost hash = |dependency: Seq<char>| computed[dependency]@;
        let mut i: usize = 0;
        proof {
            reveal(Seq::filter);
            assert(all.take(0) =~= Seq::<Seq<char>>::empty());
            assert(texts(hashes@) =~= all.take(0).filter(known).map_values(hash));
        }
        while i < target.depends_on.len()
            invariant
                i <= target.depends_on@.len(),
                all == texts(target.depends_on@),
                computed == computed_hashes@,
                known == (|dependency: Seq<char>| computed.contains_key(dependency)),
                hash == (|dependency: Seq<char>| computed[dependency]@),
                texts(hashes@) == all.take(i as int).filter(known).map_values(hash),
            decreases target.depends_on@.len() - i,
        {
            let ghost before = texts(hashes@);
            let ghost front = all.take(i as int).filter(known);
            proof {
                reveal(Seq::filter);
                assert(all.take(i + 1).drop_last() =~= all.take(i as int));
                assert(all.take(i + 1).last() == target.depends_on@[i as int]@);
            }
            if let Some(found) = computed_hashes.get(&target.depends_on[i]) {
                hashes.push(found.clone());
                proof {
                    assert(texts(hashes@) =~= before.push(found@));
                    assert(front.push(target.depends_on@[i as int]@).map_values(hash) =~= front.map_values(hash).push(
                        found@,
                    ));
                }
            }
            i += 1;
        }
        assert(all.take(all.len() as int) =~= all);
    }
    hashes
}

/// The paths that must exist before a cached success may be reused.
pub fn output_paths(project_root: &str, user_config: Option<&CacheConfig>) -> (paths: Vec<String>)
    ensures
        texts(paths@) == (match user_config {
            Some(config) => texts(config.outputs@).map_values(
                |output: Seq<char>| path_join(project_root@, output),
            ),
            None => Seq::empty(),
        }),
{
    let mut paths: Vec<String> = Vec::new();
    if let Some(config) = user_config {
        let mut i: usize = 0;
        while i < config.outputs.len()
            invariant
                i <= config.outputs@.len(),
                paths@.len() == i,
                forall|k: int| 0 <= k < i ==> (#[trigger] paths@[k])@ == path_join(project_root@, config.outputs@[k]@),
            decreases config.outputs@.len() - i,
        {
            paths.push(join_path(project_root, &config.outputs[i]));
            i += 1;
        }
        assert(texts(paths@) =~= texts(config.outputs@).map_values(|output: Seq<char>| path_join(project_root@, output)));
    } else {
        assert(texts(paths@) =~= Seq::<Seq<char>>::empty());
    }
    paths
}

/// The entry records a success with the same inputs, and its outputs are still there.
pub open spec fn cache_hit(entry: Option<CacheEntry>, current_hash: Seq<char>, outputs_exist: bool) -> bool {
    entry is Some && entry->0.hash@ == current_hash && entry->0.success && outputs_exist
}

/// Check if a target is cached and return (cache_hit, current_hash)
///
/// Returns Some((true, hash)) if cache hit, Some((false, hash)) if cache miss,
/// or None if there is no hash for this target. The hash of a hit is kept for
/// the targets that depend on this one.
pub fn check_cache(
    target_addr: &str,
    current_hash: Option<String>,
    entry: Option<&CacheEntry>,
    outputs_exist: bool,
    computed_hashes: &mut TextMap<String>,
) -> (checked: Option<(bool, String)>)
    ensures
        checked is Some <==> current_hash is Some,
        current_hash is None ==> final(computed_hashes)@ == old(computed_hashes)@,
        current_hash matches Some(hash) ==> {
            let found: Option<CacheEntry> = match entry {
                Some(one) => Some(*one),
                None => None,
            };
            let hit = cache_hit(found, hash@, outputs_exist);
            &&& checked == Some((hit, hash))
            &&& final(computed_hashes)@ == (if hit {
                old(computed_hashes)@.insert(target_addr@, hash)
            } else {
                old(computed_hashes)@
            })
        },
{
    let hash = match current_hash {
        Some(hash) => hash,
        None => return None,
    };
    let hit = match entry {
        Some(entry) => same_text(&entry.hash, &hash) && entry.success && outputs_exist,
        None => false,
    };
    if hit {
        computed_hashes.insert(target_addr.to_owned(), hash.clone());
    }
    Some((hit, hash))
}

/// What a run means for a target's cache entry.
#[derive(Debug, PartialEq, Eq)]
pub enum CacheUpdate {
    /// The entry stays as it is
    Keep,
    /// The entry must not be found again
    Remove,
    /// The entry is replaced by a success with this hash
    Store(String),
}

/// What a run means for a target's cache entry: a failure removes it; a
/// success of a target that had a hash before it ran replaces it where the
/// hash has not changed, and removes it where it has or cannot be computed.
pub fn cache_update(
    success: bool,
    use_cache: bool,
    preflight_hash: Option<&String>,
    plugin_known: bool,
    postflight_hash: Option<&String>,
) -> (update: CacheUpdate)
    ensures
        update is Store <==> use_cache && success && plugin_known && preflight_hash is Some && postflight_hash is Some
            && preflight_hash->0@ == postflight_hash->0@,
        update matches CacheUpdate::Store(hash) ==> hash@ == preflight_hash->0@,
        update is Remove <==> use_cache && (!success || (preflight_hash is Some && plugin_known && !(
        postflight_hash is Some && preflight_hash->0@ == postflight_hash->0@))),
{
    if !use_cache {
        return CacheUpdate::Keep;
    }
    if !success {
        return CacheUpdate::Remove;
    }
    match preflight_hash {
        Some(before) if plugin_known => match postflight_hash {
            Some(after) => {
                if same_text(before, after) {
                    CacheUpdate::Store(after.clone())
                } else {
                    CacheUpdate::Remove
                }
            },
            None => CacheUpdate::Remove,
        },
        _ => CacheUpdate::Keep,
    }
}

/// The project whose cache entries a run clears: the target's own, where its
/// success invalidates the cache.
pub fn invalidated_project(address: &str, success: bool, use_cache: bool, invalidates_cache: bool) -> (project: Option<
    String,
>)
    ensures
        project is Some <==> success && use_cache && invalidates_cache,
        project matches Some(found) ==> found@ == (match split_last(address@, ':') {
            Some((front, _)) => front,
            None => address@,
        }),
{
    if !(success && use_cache && invalidates_cache) {
        return None;
    }
    match parse_target_address(address) {
        Some((project, _)) => Some(project),
        None => Some(address.to_owned()),
    }
}

/// A target that its configuration keeps from the cache is never cached, one that
/// asks for it always is; of the others only common ones are whose plugin knows
/// something that they read.
pub proof fn caching_is_asked_for(target: Target, name: Seq<char>, inputs: CacheInputs)
    ensures
        target.cache is Some && target.cache->0.enabled == Some(false) ==> !may_cache(target, name, inputs),
        target.cache is Some && target.cache->0.enabled == Some(true) ==> may_cache(target, name, inputs),
        (target.cache is None || target.cache->0.enabled is None) && inputs.source_globs@.len() == 0
            && inputs.config_files@.len() == 0 && inputs.env_vars@.len() == 0 ==> !may_cache(target, name, inputs),
        (target.cache is None || target.cache->0.enabled is None) && (inputs.source_globs@.len() > 0
            || inputs.config_files@.len() > 0 || inputs.env_vars@.len() > 0) ==> (may_cache(target, name, inputs) <==> {
            ||| name == "deps"@
            ||| name == "build"@
            ||| name == "test"@
            ||| name == "lint"@
            ||| name == "format"@
            ||| name == "typecheck"@
            ||| name == "check"@
        }),
{
}

/// Nothing is taken from the cache but a success with the same inputs whose outputs
/// are there, and all of that is.
pub proof fn only_equal_successes_are_hits(entry: CacheEntry, current_hash: Seq<char>, outputs_exist: bool)
    ensures
        !cache_hit(None, current_hash, outputs_exist),
        !entry.success ==> !cache_hit(Some(entry), current_hash, outputs_exist),
        entry.hash@ != current_hash ==> !cache_hit(Some(entry), current_hash, outputs_exist),
        !cache_hit(Some(entry), current_hash, false),
        entry.success ==> cache_hit(Some(entry), entry.hash@, true),
{
}

/// Each dependency that has a hash gives it, in its turn, and the others give none.
pub proof fn known_hashes_are_given(one: Seq<Seq<char>>, two: Seq<Seq<char>>, dependency: Seq<char>, computed: Map<Seq<char>, String>)
    ensures
        known_hashes(one + two, computed) == known_hashes(one, computed) + known_hashes(two, computed),
        known_hashes(seq![dependency], computed) == (if computed.contains_key(dependency) {
            seq![computed[dependency]@]
        } else {
            Seq::empty()
        }),
{
    let known = |dependency: Seq<char>| computed.contains_key(dependency);
    let hash = |dependency: Seq<char>| computed[dependency]@;
    Seq::filter_distributes_over_add(one, two, known);
    assert(known_hashes(one + two, computed) =~= known_hashes(one, computed) + known_hashes(two, computed));
    assert(seq![dependency].filter(known) =~= (if computed.contains_key(dependency) {
        seq![dependency]
    } else {
        Seq::empty()
    })) by {
        reveal(Seq::filter);
        assert(seq![dependency].drop_last() =~= Seq::<Seq<char>>::empty());
        assert(seq![dependency].drop_last().filter(known) =~= Seq::<Seq<char>>::empty());
        assert(seq![dependency].last() == dependency);
    }
    assert(known_hashes(seq![dependency], computed) =~= (if computed.contains_key(dependency) {
        seq![computed[dependency]@]
    } else {
        Seq::empty()
    }));
}

/// A level has each resource that one of its targets has to have for itself, and no
/// other.
pub proof fn levels_have_their_resources(
    projects: Map<Seq<char>, &DiscoveredProject>,
    one: Seq<Seq<char>>,
    two: Seq<Seq<char>>,
    address: Seq<char>,
    resource: Seq<char>,
)
    ensures
        needs_resource(projects, one + two, resource) <==> needs_resource(projects, one, resource) || needs_resource(
            projects,
            two,
            resource,
        ),
        needs_resource(projects, seq![address], resource) <==> (target_at(projects, address) matches Some(target)
            && texts(target.exclusive_resources@).contains(resource)),
        !needs_resource(projects, Seq::empty(), resource),
{
    let all = one + two;
    if needs_resource(projects, one, resource) {
        let i = choose|i: int|
            0 <= i < one.len() && target_at(projects, #[trigger] one[i]) is Some && texts(
                target_at(projects, one[i])->0.exclusive_resources@,
            ).contains(resource);
        assert(all[i] == one[i]);
    }
    if needs_resource(projects, two, resource) {
        let i = choose|i: int|
            0 <= i < two.len() && target_at(projects, #[trigger] two[i]) is Some && texts(
                target_at(projects, two[i])->0.exclusive_resources@,
            ).contains(resource);
        assert(all[one.len() + i] == two[i]);
    }
    if needs_resource(projects, all, resource) {
        let i = choose|i: int|
            0 <= i < all.len() && target_at(projects, #[trigger] all[i]) is Some && texts(
                target_at(projects, all[i])->0.exclusive_resources@,
            ).contains(resource);
        if i < one.len() {
            assert(one[i] == all[i]);
        } else {
            assert(two[i - one.len()] == all[i]);
        }
    }
    assert(seq![address][0] == address);
}

} // verus!
