//! Whether a target has to run, and what its run leaves in the cache.
use vstd::prelude::*;
use vstd::utf8::encode_utf8;
use crate::cache::hasher::{contents, input_digests, key_text, sha256_hex, tracked_variables, CacheHasher, InputFile};
use crate::cache::matcher::{unwanted_globs, wanted_globs};
use crate::cache::store::CacheEntry;
use crate::collections::{TextMap, value_texts};
use crate::config::project::CacheConfig;
use crate::executor::jobs::{
    cache_dependency_hashes, cache_hit, cache_update, check_cache, dependencies_hashed, known_hashes, may_cache,
    postflight_dependency_hashes, CacheUpdate, TargetJob,
};
use crate::executor::results::{cached_result, cached_view, ExecutionResult};
use crate::globs::globs_compile;
use crate::plugins::{CacheInputs, Target};
use crate::text::{text_option, texts};

verus! {

/// The files of a project by path, where all could be read.
pub open spec fn found_contents(files: Option<&Vec<InputFile>>) -> Option<Seq<(Seq<char>, Seq<u8>)>> {
    match files {
        Some(files) => Some(contents(files@)),
        None => None,
    }
}

/// What a target is cached under: a digest of its inputs. There is none where
/// a glob is malformed or a file cannot be read.
pub open spec fn target_key(
    inputs: CacheInputs,
    user_config: Option<&CacheConfig>,
    command: Seq<char>,
    dependencies: Seq<Seq<char>>,
    environment: Map<Seq<char>, String>,
    files: Option<Seq<(Seq<char>, Seq<u8>)>>,
) -> Option<Seq<char>> {
    let wanted = wanted_globs(inputs, user_config);
    let unwanted = unwanted_globs(user_config);
    if globs_compile(wanted) && globs_compile(unwanted) && files is Some {
        Some(
            sha256_hex(
                encode_utf8(
                    key_text(
                        input_digests(files->0, wanted, unwanted),
                        command,
                        dependencies,
                        tracked_variables(inputs, user_config),
                        environment,
                    ),
                ),
            ),
        )
    } else {
        None
    }
}

/// What a target's configuration says of its cache.
pub open spec fn config_of(target: Option<&Target>) -> Option<&CacheConfig> {
    match target {
        Some(target) => match target.cache {
            Some(config) => Some(&config),
            None => None,
        },
        None => None,
    }
}

/// What a target is cached under before it runs; none where it may not be
/// cached or where something that it depends on has no key.
pub open spec fn preflight_key(
    job: TargetJob,
    inputs: Option<&CacheInputs>,
    environment: Map<Seq<char>, String>,
    files: Option<Seq<(Seq<char>, Seq<u8>)>>,
    computed: Map<Seq<char>, String>,
) -> Option<Seq<char>> {
    match (job.target, inputs) {
        (Some(target), Some(inputs)) => if may_cache(*target, job.target_name@, *inputs) && dependencies_hashed(
            *target,
            computed,
        ) {
            target_key(
                *inputs,
                config_of(job.target),
                job.command@,
                texts(target.depends_on@).map_values(|dependency: Seq<char>| computed[dependency]@),
                environment,
                files,
            )
        } else {
            None
        },
        _ => None,
    }
}

/// What the cache says of a target before it runs.
#[derive(Debug)]
pub enum Preflight {
    /// It cannot be cached; an earlier entry must not be found again
    Unavailable,
    /// It need not run: this is its result
    Hit(ExecutionResult),
    /// It runs, and this is what a success may be cached under
    Miss(String),
}

fn user_config<'a>(job: &TargetJob<'a>) -> (config: Option<&'a CacheConfig>)
    ensures
        config == config_of(job.target),
{
    match job.target {
        Some(target) => match &target.cache {
            Some(config) => Some(config),
            None => None,
        },
        None => None,
    }
}

fn hash_target(
    job: &TargetJob,
    inputs: &CacheInputs,
    dependencies: &Vec<String>,
    env_snapshot: &TextMap<String>,
    files: Option<&Vec<InputFile>>,
) -> (key: Option<String>)
    ensures
        text_option(key) == target_key(
            *inputs,
            config_of(job.target),
            job.command@,
            texts(dependencies@),
            env_snapshot@,
            found_contents(files),
        ),
{
    let found = match files {
        Some(files) => files,
        None => return None,
    };
    let hasher = CacheHasher::new(&job.project.root);
    match hasher.compute_hash(inputs, user_config(job), &job.command, dependencies, env_snapshot, found) {
        Ok(hash) => Some(hash),
        Err(_) => None,
    }
}

/// Look a target up in the cache. The key of a hit is kept for the targets
/// that depend on this one.
pub fn preflight(
    job: &TargetJob,
    plugin_inputs: Option<&CacheInputs>,
    env_snapshot: &TextMap<String>,
    files: Option<&Vec<InputFile>>,
    entry: Option<&CacheEntry>,
    outputs_exist: bool,
    computed_hashes: &mut TextMap<String>,
) -> (decision: Preflight)
    ensures
        ({
            let before = value_texts(old(computed_hashes)@);
            let after = value_texts(final(computed_hashes)@);
            let found: Option<CacheEntry> = match entry {
                Some(one) => Some(*one),
                None => None,
            };
            match preflight_key(*job, plugin_inputs, env_snapshot@, found_contents(files), old(computed_hashes)@) {
                None => decision is Unavailable && after == before,
                Some(key) => if cache_hit(found, key, outputs_exist) {
                    decision is Hit && decision->Hit_0@ == cached_view(job.address@) && after == before.insert(
                        job.address@,
                        key,
                    )
                } else {
                    decision is Miss && decision->Miss_0@ == key && after == before
                },
            }
        }),
{
    let ghost before = computed_hashes@;
    let dependencies = match cache_dependency_hashes(job.target, &job.target_name, plugin_inputs, computed_hashes) {
        Some(hashes) => hashes,
        None => return Preflight::Unavailable,
    };
    let inputs = match plugin_inputs {
        Some(inputs) => inputs,
        None => return Preflight::Unavailable,
    };
    let current = hash_target(job, inputs, &dependencies, env_snapshot, files);
    match check_cache(&job.address, current, entry, outputs_exist, computed_hashes) {
        None => Preflight::Unavailable,
        Some((hit, hash)) => {
            if hit {
                assert(value_texts(computed_hashes@) =~= value_texts(before).insert(job.address@, hash@));
                Preflight::Hit(cached_result(&job.address))
            } else {
                Preflight::Miss(hash)
            }
        },
    }
}

/// What is done with a target before anything runs.
#[derive(Debug)]
pub enum JobStart {
    /// It does not run: this is its result
    Report(ExecutionResult),
    /// It runs; a success may be cached under the key, and an earlier entry is
    /// forgotten first where it must not be found again
    Run { hash: Option<String>, forget: bool },
}

/// Find out what is done with a target, by what the cache says of it. Without
/// a cache it runs and nothing is kept.
pub fn start_job(looked_up: Option<Preflight>) -> (start: JobStart)
    ensures
        match looked_up {
            None => start == (JobStart::Run { hash: None, forget: false }),
            Some(Preflight::Unavailable) => start == (JobStart::Run { hash: None, forget: true }),
            Some(Preflight::Hit(result)) => start == JobStart::Report(result),
            Some(Preflight::Miss(key)) => start == (JobStart::Run { hash: Some(key), forget: false }),
        },
{
    match looked_up {
        None => JobStart::Run { hash: None, forget: false },
        Some(Preflight::Unavailable) => JobStart::Run { hash: None, forget: true },
        Some(Preflight::Hit(result)) => JobStart::Report(result),
        Some(Preflight::Miss(key)) => JobStart::Run { hash: Some(key), forget: false },
    }
}

/// What a target is cached under after it ran: what it depends on may have
/// lost its key.
pub open spec fn postflight_key(
    job: TargetJob,
    inputs: CacheInputs,
    environment: Map<Seq<char>, String>,
    files: Option<Seq<(Seq<char>, Seq<u8>)>>,
    computed: Map<Seq<char>, String>,
) -> Option<Seq<char>> {
    target_key(
        inputs,
        config_of(job.target),
        job.command@,
        match job.target {
            Some(target) => known_hashes(texts(target.depends_on@), computed),
            None => Seq::empty(),
        },
        environment,
        files,
    )
}

/// Find out what the run of a target leaves in the cache. A failure leaves
/// nothing. A success is cached where the key after the run is the one from
/// before it, and the key is kept for the targets that depend on this one;
/// where the inputs have changed meanwhile, nothing is left.
pub fn postflight(
    job: &TargetJob,
    success: bool,
    use_cache: bool,
    preflight_hash: Option<&String>,
    plugin_inputs: Option<&CacheInputs>,
    env_snapshot: &TextMap<String>,
    files: Option<&Vec<InputFile>>,
    computed_hashes: &mut TextMap<String>,
) -> (update: CacheUpdate)
    ensures
        ({
            let before = value_texts(old(computed_hashes)@);
            let after = value_texts(final(computed_hashes)@);
            let same = preflight_hash is Some && plugin_inputs is Some && postflight_key(
                *job,
                *plugin_inputs->0,
                env_snapshot@,
                found_contents(files),
                old(computed_hashes)@,
            ) == Some(preflight_hash->0@);
            &&& update is Store <==> use_cache && success && same
            &&& update is Store ==> update->Store_0@ == preflight_hash->0@
            &&& update is Remove <==> use_cache && (!success || (preflight_hash is Some && plugin_inputs is Some && !same))
            &&& after == (if update is Store {
                before.insert(job.address@, preflight_hash->0@)
            } else {
                before
            })
        }),
{
    let ghost before = computed_hashes@;
    let after: Option<String> = match plugin_inputs {
        Some(inputs) => {
            let dependencies = postflight_dependency_hashes(job.target, computed_hashes);
            hash_target(job, inputs, &dependencies, env_snapshot, files)
        },
        None => None,
    };
    let update = cache_update(success, use_cache, preflight_hash, plugin_inputs.is_some(), after.as_ref());
    if let CacheUpdate::Store(hash) = &update {
        computed_hashes.insert(job.address.clone(), hash.clone());
        assert(value_texts(computed_hashes@) =~= value_texts(before).insert(job.address@, hash@));
    }
    update
}

/// Where nothing changes while a target runs, the key after the run is the one
/// from before it.
pub proof fn stable_inputs_keep_the_key(
    job: TargetJob,
    inputs: CacheInputs,
    environment: Map<Seq<char>, String>,
    files: Option<Seq<(Seq<char>, Seq<u8>)>>,
    computed: Map<Seq<char>, String>,
)
    requires
        preflight_key(job, Some(&inputs), environment, files, computed) is Some,
    ensures
        postflight_key(job, inputs, environment, files, computed) == preflight_key(
            job,
            Some(&inputs),
            environment,
            files,
            computed,
        ),
{
    let target = *job.target->0;
    let dependencies = texts(target.depends_on@);
    all_are_known(dependencies, computed);
}

/// A success that was stored after a run is found again before the next one
/// as long as nothing has changed and its outputs exist, and not without them.
pub proof fn stored_successes_are_found_again(
    job: TargetJob,
    inputs: CacheInputs,
    environment: Map<Seq<char>, String>,
    files: Option<Seq<(Seq<char>, Seq<u8>)>>,
    computed: Map<Seq<char>, String>,
    entries: Map<Seq<char>, CacheEntry>,
    entry: CacheEntry,
)
    requires
        preflight_key(job, Some(&inputs), environment, files, computed) is Some,
        postflight_key(job, inputs, environment, files, computed) == Some(entry.hash@),
        entry.success,
    ensures
        ({
            let found = Some(entries.insert(job.address@, entry)[job.address@]);
            let key = preflight_key(job, Some(&inputs), environment, files, computed)->0;
            cache_hit(found, key, true) && !cache_hit(found, key, false)
        }),
{
    stable_inputs_keep_the_key(job, inputs, environment, files, computed);
}

proof fn all_are_known(dependencies: Seq<Seq<char>>, computed: Map<Seq<char>, String>)
    requires
        forall|i: int| 0 <= i < dependencies.len() ==> computed.contains_key(#[trigger] dependencies[i]),
    ensures
        known_hashes(dependencies, computed) == dependencies.map_values(
            |dependency: Seq<char>| computed[dependency]@,
        ),
    decreases dependencies.len(),
{
    reveal(Seq::filter);
    if dependencies.len() > 0 {
        let front = dependencies.drop_last();
        assert forall|i: int| 0 <= i < front.len() implies computed.contains_key(#[trigger] front[i]) by {
            assert(front[i] == dependencies[i]);
        }
        all_are_known(front, computed);
        assert(dependencies.last() == dependencies[dependencies.len() - 1]);
        let known = |dependency: Seq<char>| computed.contains_key(dependency);
        let hash = |dependency: Seq<char>| computed[dependency]@;
        assert(dependencies.filter(known) == front.filter(known).push(dependencies.last()));
        assert(front.filter(known).push(dependencies.last()).map_values(hash) =~= front.filter(known).map_values(hash).push(
            hash(dependencies.last()),
        ));
        assert(dependencies.map_values(hash) =~= front.map_values(hash).push(hash(dependencies.last())));
    } else {
        assert(known_hashes(dependencies, computed) =~= Seq::<Seq<char>>::empty());
        assert(dependencies.map_values(|dependency: Seq<char>| computed[dependency]@) =~= Seq::<Seq<char>>::empty());
    }
}

/// A target has no key where it may not be cached or where something that it
/// depends on has none.
pub proof fn keys_need_keys(
    job: TargetJob,
    inputs: CacheInputs,
    environment: Map<Seq<char>, String>,
    files: Option<Seq<(Seq<char>, Seq<u8>)>>,
    computed: Map<Seq<char>, String>,
    at: int,
)
    requires
        job.target is Some,
        0 <= at < job.target->0.depends_on@.len(),
        !computed.contains_key(job.target->0.depends_on@[at]@),
    ensures
        preflight_key(job, Some(&inputs), environment, files, computed) is None,
{
}

/// A target has a key where its patterns can be read and its files are known, and only
/// there; the key stands for what is hashed and nothing else.
pub proof fn keys_need_files(
    inputs: CacheInputs,
    user_config: Option<&CacheConfig>,
    command: Seq<char>,
    dependencies: Seq<Seq<char>>,
    environment: Map<Seq<char>, String>,
    files: Seq<(Seq<char>, Seq<u8>)>,
)
    requires
        globs_compile(wanted_globs(inputs, user_config)),
        globs_compile(unwanted_globs(user_config)),
    ensures
        target_key(inputs, user_config, command, dependencies, environment, None) is None,
        target_key(inputs, user_config, command, dependencies, environment, Some(files)) == Some(
            sha256_hex(
                encode_utf8(
                    key_text(
                        input_digests(files, wanted_globs(inputs, user_config), unwanted_globs(user_config)),
                        command,
                        dependencies,
                        tracked_variables(inputs, user_config),
                        environment,
                    ),
                ),
            ),
        ),
{
}

/// What a target's own configuration says of its cache is what its key goes by.
pub proof fn targets_have_their_own_cache(target: &Target)
    ensures
        config_of(None) is None,
        target.cache is None ==> config_of(Some(target)) is None,
        target.cache matches Some(config) ==> config_of(Some(target)) is Some && *config_of(Some(target))->0 == config,
{
}

/// The key of a target is made with the key of each of its dependencies, in their
/// order, and with its own command.
pub proof fn keys_are_made_of_keys(
    job: TargetJob,
    inputs: CacheInputs,
    environment: Map<Seq<char>, String>,
    files: Option<Seq<(Seq<char>, Seq<u8>)>>,
    computed: Map<Seq<char>, String>,
    hashes: Seq<Seq<char>>,
)
    requires
        job.target is Some,
        may_cache(*job.target->0, job.target_name@, inputs),
        hashes.len() == job.target->0.depends_on@.len(),
        forall|i: int|
            0 <= i < hashes.len() ==> computed.contains_key((#[trigger] job.target->0.depends_on@[i])@)
                && computed[job.target->0.depends_on@[i]@]@ == hashes[i],
    ensures
        preflight_key(job, Some(&inputs), environment, files, computed) == target_key(
            inputs,
            config_of(job.target),
            job.command@,
            hashes,
            environment,
            files,
        ),
        preflight_key(job, None, environment, files, computed) is None,
{
    let target = job.target->0;
    let given = texts(target.depends_on@).map_values(|dependency: Seq<char>| computed[dependency]@);
    assert forall|i: int| 0 <= i < hashes.len() implies given[i] == hashes[i] by {
        assert(computed[target.depends_on@[i]@]@ == hashes[i]);
    }
    assert(given =~= hashes);
    assert(dependencies_hashed(*target, computed));
}

} // verus!
