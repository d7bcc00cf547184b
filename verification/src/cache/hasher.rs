//! Hash computation for cache keys
use sha2::{Digest, Sha256};
use vstd::prelude::*;
use vstd::utf8::encode_utf8;
use crate::cache::matcher::{is_input, unwanted_globs, wanted_globs, MatcherError, TargetInputMatcher};
use crate::collections::{finite_sets_are_listed, in_order, in_order_ignores_order, in_order_keeps, listed, set_of, sort_texts, TextMap, TextSet};
use crate::config::project::CacheConfig;
use crate::globs::{glob_matches, globs_compile};
use crate::plugins::CacheInputs;
use crate::text::{concat2, concat4, text_less, text_lt, text_lt_asymmetric, text_lt_transitive, texts};

verus! {

/// The SHA-256 digest of some bytes, in lower case hexadecimal.
pub uninterp spec fn sha256_hex(bytes: Seq<u8>) -> Seq<char>;

/// A string of sixty-four hexadecimal digits in lower case.
pub open spec fn is_digest(hex: Seq<char>) -> bool {
    hex.len() == 64 && forall|i: int|
        0 <= i < hex.len() ==> '0' <= #[trigger] hex[i] <= '9' || 'a' <= hex[i] <= 'f'
}

/// `sha2::Sha256::digest`, written with `{:x}`: the digest is a function of
/// the bytes, thirty-two bytes long, and so sixty-four digits in hexadecimal,
/// in lower case.
#[verifier::external_body]
pub(crate) fn digest_hex(bytes: &[u8]) -> (hex: String)
    ensures
        hex@ == sha256_hex(bytes@),
        is_digest(hex@),
{
    format!("{:x}", Sha256::digest(bytes))
}

/// A file that was read, by its path below the project.
#[derive(Debug, Clone, PartialEq, Eq)]
pub struct InputFile {
    pub path: String,
    pub content: Vec<u8>,
}

/// The digest of a file's content.
#[derive(Debug, Clone, PartialEq, Eq)]
pub struct FileHash {
    pub path: String,
    pub hash: String,
}

/// The files by path and content.
pub open spec fn contents(files: Seq<InputFile>) -> Seq<(Seq<char>, Seq<u8>)> {
    Seq::new(files.len(), |i: int| (files[i].path@, files[i].content@))
}

/// The digests by path.
pub open spec fn digests(hashes: Seq<FileHash>) -> Seq<(Seq<char>, Seq<char>)> {
    Seq::new(hashes.len(), |i: int| (hashes[i].path@, hashes[i].hash@))
}

/// A list in order of path with one more entry, behind those of the same path.
pub open spec fn inserted(list: Seq<(Seq<char>, Seq<char>)>, entry: (Seq<char>, Seq<char>)) -> Seq<
    (Seq<char>, Seq<char>),
>
    decreases list.len(),
{
    if list.len() == 0 || !text_lt(entry.0, list.last().0) {
        list.push(entry)
    } else {
        inserted(list.drop_last(), entry).push(list.last())
    }
}

/// The digests of the files that are inputs, in order of path.
pub open spec fn input_digests(
    files: Seq<(Seq<char>, Seq<u8>)>,
    wanted: Seq<Seq<char>>,
    unwanted: Seq<Seq<char>>,
) -> Seq<(Seq<char>, Seq<char>)>
    decreases files.len(),
{
    if files.len() == 0 {
        Seq::empty()
    } else {
        let before = input_digests(files.drop_last(), wanted, unwanted);
        if is_input(wanted, unwanted, files.last().0) {
            inserted(before, (files.last().0, sha256_hex(files.last().1)))
        } else {
            before
        }
    }
}

/// The lines of a cache key for the files.
pub open spec fn file_lines(files: Seq<(Seq<char>, Seq<char>)>) -> Seq<char>
    decreases files.len(),
{
    if files.len() == 0 {
        Seq::empty()
    } else {
        file_lines(files.drop_last()) + (files.last().0 + ":"@ + files.last().1 + "\n"@)
    }
}

/// The part of a cache key for the dependencies' own keys.
pub open spec fn dependency_part(hashes: Seq<Seq<char>>) -> Seq<char>
    decreases hashes.len(),
{
    if hashes.len() == 0 {
        Seq::empty()
    } else {
        dependency_part(hashes.drop_last()) + (hashes.last() + ","@)
    }
}

/// The part of a cache key for the variables that are set.
pub open spec fn environment_part(names: Seq<Seq<char>>, environment: Map<Seq<char>, String>) -> Seq<char>
    decreases names.len(),
{
    if names.len() == 0 {
        Seq::empty()
    } else {
        let before = environment_part(names.drop_last(), environment);
        if environment.dom().contains(names.last()) {
            before + (names.last() + "="@ + environment[names.last()]@ + ";"@)
        } else {
            before
        }
    }
}

/// The variables that a target's key depends on.
pub open spec fn tracked_variables(plugin_inputs: CacheInputs, user_config: Option<&CacheConfig>) -> Set<Seq<char>> {
    texts(plugin_inputs.env_vars@).to_set().union(
        match user_config {
            Some(config) => texts(config.env@).to_set(),
            None => Set::empty(),
        },
    )
}

/// What is hashed for a target: its files, its command, the keys of what it
/// depends on and the variables that it tracks.
pub open spec fn key_text(
    files: Seq<(Seq<char>, Seq<char>)>,
    command: Seq<char>,
    dependencies: Seq<Seq<char>>,
    variables: Set<Seq<char>>,
    environment: Map<Seq<char>, String>,
) -> Seq<char> {
    file_lines(files) + "command:"@ + command + "\n"@ + "deps:"@ + dependency_part(in_order(dependencies)) + "\n"@
        + "env:"@ + environment_part(listed(variables), environment)
}

proof fn insertion_point(list: Seq<(Seq<char>, Seq<char>)>, entry: (Seq<char>, Seq<char>), at: int)
    requires
        0 <= at <= list.len(),
        forall|k: int| at <= k < list.len() ==> text_lt(entry.0, (#[trigger] list[k]).0),
        at > 0 ==> !text_lt(entry.0, list[at - 1].0),
    ensures
        inserted(list, entry) == list.insert(at, entry),
    decreases list.len(),
{
    if at == list.len() {
        assert(list.insert(at, entry) =~= list.push(entry));
    } else {
        assert(text_lt(entry.0, list.last().0));
        let fewer = list.drop_last();
        assert forall|k: int| at <= k < fewer.len() implies text_lt(entry.0, (#[trigger] fewer[k]).0) by {
            assert(fewer[k] == list[k]);
        }
        insertion_point(fewer, entry, at);
        assert(list.insert(at, entry) =~= fewer.insert(at, entry).push(list.last()));
    }
}

/// Computes cache hashes for targets
pub struct CacheHasher {
    pub project_root: String,
}

impl CacheHasher {
    pub fn new(project_root: &str) -> (hasher: CacheHasher)
        ensures
            hasher.project_root@ == project_root@,
    {
        CacheHasher { project_root: project_root.to_owned() }
    }

    /// Which of the files below the project, by their relative paths, are
    /// inputs of a target.
    pub fn input_paths(
        &self,
        plugin_inputs: &CacheInputs,
        user_config: Option<&CacheConfig>,
        found: &Vec<String>,
    ) -> (inputs: Result<Vec<String>, MatcherError>)
        ensures
            inputs is Ok <==> globs_compile(wanted_globs(*plugin_inputs, user_config)) && globs_compile(
                unwanted_globs(user_config),
            ),
            inputs is Err ==> (inputs->Err_0 is Wanted <==> !globs_compile(wanted_globs(*plugin_inputs, user_config))),
            inputs matches Ok(list) ==> texts(list@) == texts(found@).filter(
                |path: Seq<char>| is_input(wanted_globs(*plugin_inputs, user_config), unwanted_globs(user_config), path),
            ),
    {
        let matcher = match TargetInputMatcher::build(&self.project_root, plugin_inputs, user_config) {
            Ok(built) => built,
            Err(error) => return Err(error),
        };
        let ghost wanted = wanted_globs(*plugin_inputs, user_config);
        let ghost unwanted = unwanted_globs(user_config);
        let ghost keep = |path: Seq<char>| is_input(wanted, unwanted, path);
        let ghost all = texts(found@);
        let mut list: Vec<String> = Vec::new();
        let mut i: usize = 0;
        proof {
            reveal(Seq::filter);
            assert(texts(list@) =~= all.take(0).filter(keep));
        }
        while i < found.len()
            invariant
                i <= found@.len(),
                all == texts(found@),
                keep == (|path: Seq<char>| is_input(wanted, unwanted, path)),
                matcher.well_formed(),
                crate::globs::set_globs(matcher.wanted) == wanted,
                crate::globs::set_globs(matcher.unwanted) == unwanted,
                texts(list@) == all.take(i as int).filter(keep),
            decreases found@.len() - i,
        {
            proof {
                reveal(Seq::filter);
                assert(all.take(i + 1).drop_last() =~= all.take(i as int));
                assert(all.take(i + 1).last() == found@[i as int]@);
            }
            if matcher.matches_relative(&found[i]) {
                let ghost before = texts(list@);
                list.push(found[i].clone());
                assert(texts(list@) =~= before.push(found@[i as int]@));
            }
            i += 1;
        }
        assert(all.take(all.len() as int) =~= all);
        Ok(list)
    }

    /// Hash all files matching the globs, in order of path
    pub fn hash_files(
        &self,
        plugin_inputs: &CacheInputs,
        user_config: Option<&CacheConfig>,
        files: &Vec<InputFile>,
    ) -> (hashes: Result<Vec<FileHash>, MatcherError>)
        ensures
            hashes is Ok <==> globs_compile(wanted_globs(*plugin_inputs, user_config)) && globs_compile(
                unwanted_globs(user_config),
            ),
            hashes is Err ==> (hashes->Err_0 is Wanted <==> !globs_compile(wanted_globs(*plugin_inputs, user_config))),
            hashes matches Ok(list) ==> digests(list@) == input_digests(
                contents(files@),
                wanted_globs(*plugin_inputs, user_config),
                unwanted_globs(user_config),
            ),
    {
        let matcher = match TargetInputMatcher::build(&self.project_root, plugin_inputs, user_config) {
            Ok(built) => built,
            Err(error) => return Err(error),
        };
        let ghost wanted = wanted_globs(*plugin_inputs, user_config);
        let ghost unwanted = unwanted_globs(user_config);
        let ghost all = contents(files@);
        let mut list: Vec<FileHash> = Vec::new();
        let mut i: usize = 0;
        assert(all.take(0) =~= Seq::<(Seq<char>, Seq<u8>)>::empty());
        assert(digests(list@) =~= Seq::<(Seq<char>, Seq<char>)>::empty());
        while i < files.len()
            invariant
                i <= files@.len(),
                all == contents(files@),
                matcher.well_formed(),
                crate::globs::set_globs(matcher.wanted) == wanted,
                crate::globs::set_globs(matcher.unwanted) == unwanted,
                digests(list@) == input_digests(all.take(i as int), wanted, unwanted),
            decreases files@.len() - i,
        {
            proof {
                assert(all.take(i + 1).drop_last() =~= all.take(i as int));
                assert(all.take(i + 1).last() == (files@[i as int].path@, files@[i as int].content@));
            }
            if matcher.matches_relative(&files[i].path) {
                let hash = digest_hex(files[i].content.as_slice());
                let ghost before = digests(list@);
                let ghost entry = (files@[i as int].path@, hash@);
                let mut at: usize = list.len();
                while at > 0 && text_less(&files[i].path, &list[at - 1].path)
                    invariant
                        at <= list@.len(),
                        i < files@.len(),
                        before == digests(list@),
                        entry.0 == files@[i as int].path@,
                        forall|k: int| at <= k < list@.len() ==> text_lt(entry.0, (#[trigger] before[k]).0),
                    ensures
                        at > 0 ==> !text_lt(entry.0, list@[at - 1].path@),
                    decreases at,
                {
                    at -= 1;
                }
                list.insert(at, FileHash { path: files[i].path.clone(), hash });
                proof {
                    assert(digests(list@) =~= before.insert(at as int, entry));
                    insertion_point(before, entry, at as int);
                }
            }
            i += 1;
        }
        assert(all.take(all.len() as int) =~= all);
        Ok(list)
    }

    /// Collect all env vars to track
    pub fn collect_env_vars(&self, plugin_inputs: &CacheInputs, user_config: Option<&CacheConfig>) -> (names: TextSet)
        ensures
            names@ == tracked_variables(*plugin_inputs, user_config),
    {
        let mut names = set_of(&plugin_inputs.env_vars);
        assert(names@ =~= texts(plugin_inputs.env_vars@).to_set());
        if let Some(config) = user_config {
            let ghost all = texts(config.env@);
            let ghost first = texts(plugin_inputs.env_vars@).to_set();
            let mut i: usize = 0;
            assert(names@ =~= first.union(all.take(0).to_set()));
            while i < config.env.len()
                invariant
                    i <= config.env@.len(),
                    all == texts(config.env@),
                    names@ == first.union(all.take(i as int).to_set()),
                decreases config.env@.len() - i,
            {
                let _ = names.insert(config.env[i].clone());
                proof {
                    let front = all.take(i as int);
                    assert(all.take(i + 1) =~= front.push(all[i as int]));
                    front.lemma_push_to_set_commute(all[i as int]);
                    assert(names@ =~= first.union(all.take(i + 1).to_set()));
                }
                i += 1;
            }
            assert(all.take(all.len() as int) =~= all);
        } else {
            assert(names@ =~= tracked_variables(*plugin_inputs, user_config));
        }
        names
    }

    /// Compute the cache key for a target
    ///
    /// The cache key is a SHA256 hash of:
    /// 1. Source files (matched by globs)
    /// 2. Config files
    /// 3. Command string
    /// 4. Dependency cache keys (hash chaining)
    /// 5. Environment variables
    pub fn compute_hash(
        &self,
        plugin_inputs: &CacheInputs,
        user_config: Option<&CacheConfig>,
        command: &str,
        dependency_hashes: &Vec<String>,
        env_snapshot: &TextMap<String>,
        files: &Vec<InputFile>,
    ) -> (key: Result<String, MatcherError>)
        ensures
            key is Ok <==> globs_compile(wanted_globs(*plugin_inputs, user_config)) && globs_compile(
                unwanted_globs(user_config),
            ),
            key is Err ==> (key->Err_0 is Wanted <==> !globs_compile(wanted_globs(*plugin_inputs, user_config))),
            key matches Ok(hash) ==> hash@ == sha256_hex(
                encode_utf8(
                    key_text(
                        input_digests(
                            contents(files@),
                            wanted_globs(*plugin_inputs, user_config),
                            unwanted_globs(user_config),
                        ),
                        command@,
                        texts(dependency_hashes@),
                        tracked_variables(*plugin_inputs, user_config),
                        env_snapshot@,
                    ),
                ),
            ),
            key matches Ok(hash) ==> is_digest(hash@),
    {
        let file_hashes = match self.hash_files(plugin_inputs, user_config, files) {
            Ok(hashes) => hashes,
            Err(error) => return Err(error),
        };
        let variables = self.collect_env_vars(plugin_inputs, user_config);
        let text = cache_key_text(&file_hashes, command, dependency_hashes, &variables, env_snapshot);
        Ok(digest_hex(text.as_str().as_bytes()))
    }
}

/// What is hashed for a target's cache key.
pub fn cache_key_text(
    files: &Vec<FileHash>,
    command: &str,
    dependency_hashes: &Vec<String>,
    variables: &TextSet,
    environment: &TextMap<String>,
) -> (text: String)
    ensures
        text@ == key_text(digests(files@), command@, texts(dependency_hashes@), variables@, environment@),
{
    let mut text = String::new();
    let ghost all = digests(files@);
    let mut i: usize = 0;
    assert(all.take(0) =~= Seq::<(Seq<char>, Seq<char>)>::empty());
    while i < files.len()
        invariant
            i <= files@.len(),
            all == digests(files@),
            text@ == file_lines(all.take(i as int)),
        decreases files@.len() - i,
    {
        proof {
            assert(all.take(i + 1).drop_last() =~= all.take(i as int));
            assert(all.take(i + 1).last() == (files@[i as int].path@, files@[i as int].hash@));
        }
        let line = concat4(&files[i].path, ":", &files[i].hash, "\n");
        text.append(line.as_str());
        i += 1;
    }
    assert(all.take(all.len() as int) =~= all);
    text.append("command:");
    text.append(command);
    text.append("\n");
    text.append("deps:");
    let hashes = sort_texts(dependency_hashes);
    let ghost list = texts(hashes@);
    let ghost before = text@;
    let mut j: usize = 0;
    assert(list.take(0) =~= Seq::<Seq<char>>::empty());
    assert(text@ =~= before + dependency_part(list.take(0)));
    while j < hashes.len()
        invariant
            j <= hashes@.len(),
            list == texts(hashes@),
            text@ == before + dependency_part(list.take(j as int)),
        decreases hashes@.len() - j,
    {
        proof {
            assert(list.take(j + 1).drop_last() =~= list.take(j as int));
            assert(list.take(j + 1).last() == hashes@[j as int]@);
        }
        let part = concat2(&hashes[j], ",");
        text.append(part.as_str());
        assert(text@ =~= before + dependency_part(list.take(j + 1)));
        j += 1;
    }
    assert(list.take(list.len() as int) =~= list);
    text.append("\n");
    text.append("env:");
    let ghost front = text@;
    let ghost names = variables.items();
    let count = variables.len();
    let mut k: usize = 0;
    assert(names.take(0) =~= Seq::<Seq<char>>::empty());
    assert(text@ =~= front + environment_part(names.take(0), environment@));
    while k < count
        invariant
            k <= count,
            count == names.len(),
            names == variables.items(),
            text@ == front + environment_part(names.take(k as int), environment@),
        decreases count - k,
    {
        proof {
            assert(names.take(k + 1).drop_last() =~= names.take(k as int));
            assert(names.take(k + 1).last() == names[k as int]);
        }
        let name = variables.item_at(k);
        if let Some(value) = environment.get(name) {
            let part = concat4(name, "=", value, ";");
            text.append(part.as_str());
            assert(text@ =~= front + environment_part(names.take(k + 1), environment@));
        }
        k += 1;
    }
    assert(names.take(names.len() as int) =~= names);
    proof {
        crate::collections::ascending_is_listed(names);
    }
    text
}

/// Each path comes before the next.
spec fn paths_ascend(list: Seq<(Seq<char>, Seq<char>)>) -> bool {
    forall|i: int, j: int| 0 <= i < j < list.len() ==> text_lt((#[trigger] list[i]).0, (#[trigger] list[j]).0)
}

/// The digest that a file contributes.
spec fn contributes(
    files: Seq<(Seq<char>, Seq<u8>)>,
    wanted: Seq<Seq<char>>,
    unwanted: Seq<Seq<char>>,
    entry: (Seq<char>, Seq<char>),
    at: int,
) -> bool {
    0 <= at < files.len() && entry == (files[at].0, sha256_hex(files[at].1)) && is_input(wanted, unwanted, entry.0)
}

/// No two files have the same path.
pub open spec fn distinct_paths(files: Seq<(Seq<char>, Seq<u8>)>) -> bool {
    forall|i: int, j: int| 0 <= i < j < files.len() ==> (#[trigger] files[i]).0 != (#[trigger] files[j]).0
}

proof fn inserted_facts(list: Seq<(Seq<char>, Seq<char>)>, entry: (Seq<char>, Seq<char>))
    requires
        paths_ascend(list),
        forall|i: int| 0 <= i < list.len() ==> (#[trigger] list[i]).0 != entry.0,
    ensures
        paths_ascend(inserted(list, entry)),
        forall|other: (Seq<char>, Seq<char>)| #[trigger]
            inserted(list, entry).contains(other) <==> list.contains(other) || other == entry,
    decreases list.len(),
{
    let result = inserted(list, entry);
    if list.len() == 0 || !text_lt(entry.0, list.last().0) {
        if list.len() > 0 {
            crate::text::text_lt_total(entry.0, list.last().0);
        }
        assert forall|i: int, j: int| 0 <= i < j < result.len() implies text_lt(
            (#[trigger] result[i]).0,
            (#[trigger] result[j]).0,
        ) by {
            if j < list.len() {
                assert(result[i] == list[i] && result[j] == list[j]);
            } else {
                assert(result[i] == list[i]);
                if i < list.len() - 1 {
                    text_lt_transitive(list[i].0, list.last().0, entry.0);
                }
            }
        }
        assert forall|other: (Seq<char>, Seq<char>)| #[trigger]
            result.contains(other) <==> list.contains(other) || other == entry by {
            if list.contains(other) {
                let i = choose|i: int| 0 <= i < list.len() && list[i] == other;
                assert(result[i] == other);
            }
            assert(result[list.len() as int] == entry);
        }
    } else {
        let fewer = list.drop_last();
        let rest = inserted(fewer, entry);
        assert forall|i: int| 0 <= i < fewer.len() implies (#[trigger] fewer[i]).0 != entry.0 by {
            assert(fewer[i] == list[i]);
        }
        inserted_facts(fewer, entry);
        assert forall|i: int, j: int| 0 <= i < j < result.len() implies text_lt(
            (#[trigger] result[i]).0,
            (#[trigger] result[j]).0,
        ) by {
            assert(result[i] == rest[i]);
            assert(rest.contains(rest[i]));
            if j < rest.len() {
                assert(result[j] == rest[j]);
            } else {
                if fewer.contains(rest[i]) {
                    let k = choose|k: int| 0 <= k < fewer.len() && fewer[k] == rest[i];
                    assert(list[k] == rest[i]);
                }
            }
        }
        assert forall|other: (Seq<char>, Seq<char>)| #[trigger]
            result.contains(other) <==> list.contains(other) || other == entry by {
            if list.contains(other) {
                let i = choose|i: int| 0 <= i < list.len() && list[i] == other;
                if i < fewer.len() {
                    assert(fewer[i] == other);
                    assert(rest.contains(other));
                    let k = choose|k: int| 0 <= k < rest.len() && rest[k] == other;
                    assert(result[k] == other);
                } else {
                    assert(result[rest.len() as int] == other);
                }
            }
            if other == entry {
                assert(rest.contains(other));
                let k = choose|k: int| 0 <= k < rest.len() && rest[k] == other;
                assert(result[k] == other);
            }
            if result.contains(other) {
                let k = choose|k: int| 0 <= k < result.len() && result[k] == other;
                if k < rest.len() {
                    assert(rest[k] == other);
                    assert(rest.contains(other));
                    if fewer.contains(other) {
                        let i = choose|i: int| 0 <= i < fewer.len() && fewer[i] == other;
                        assert(list[i] == other);
                    }
                } else {
                    assert(list[list.len() - 1] == other);
                }
            }
        }
    }
}

proof fn digest_facts(files: Seq<(Seq<char>, Seq<u8>)>, wanted: Seq<Seq<char>>, unwanted: Seq<Seq<char>>)
    requires
        distinct_paths(files),
    ensures
        paths_ascend(input_digests(files, wanted, unwanted)),
        forall|entry: (Seq<char>, Seq<char>)| #[trigger]
            input_digests(files, wanted, unwanted).contains(entry) <==> exists|at: int|
                contributes(files, wanted, unwanted, entry, at),
    decreases files.len(),
{
    if files.len() > 0 {
        let fewer = files.drop_last();
        let last = (files.last().0, sha256_hex(files.last().1));
        assert forall|i: int, j: int| 0 <= i < j < fewer.len() implies (#[trigger] fewer[i]).0 != (
        #[trigger] fewer[j]).0 by {
            assert(fewer[i] == files[i] && fewer[j] == files[j]);
        }
        digest_facts(fewer, wanted, unwanted);
        let before = input_digests(fewer, wanted, unwanted);
        let result = input_digests(files, wanted, unwanted);
        assert forall|i: int| 0 <= i < before.len() implies (#[trigger] before[i]).0 != last.0 by {
            assert(before.contains(before[i]));
            let at = choose|at: int| contributes(fewer, wanted, unwanted, before[i], at);
            assert(fewer[at] == files[at]);
            assert(files[at].0 != files[files.len() - 1].0);
        }
        if is_input(wanted, unwanted, last.0) {
            inserted_facts(before, last);
        }
        assert forall|entry: (Seq<char>, Seq<char>)| #[trigger] result.contains(entry) <==> exists|at: int|
            contributes(files, wanted, unwanted, entry, at) by {
            if result.contains(entry) {
                if before.contains(entry) {
                    let at = choose|at: int| contributes(fewer, wanted, unwanted, entry, at);
                    assert(contributes(files, wanted, unwanted, entry, at));
                } else {
                    assert(contributes(files, wanted, unwanted, entry, files.len() - 1));
                }
            }
            if exists|at: int| contributes(files, wanted, unwanted, entry, at) {
                let at = choose|at: int| contributes(files, wanted, unwanted, entry, at);
                if at < fewer.len() {
                    assert(contributes(fewer, wanted, unwanted, entry, at));
                    assert(before.contains(entry));
                }
            }
        }
    }
}

proof fn ascending_digests_unique(one: Seq<(Seq<char>, Seq<char>)>, other: Seq<(Seq<char>, Seq<char>)>)
    requires
        paths_ascend(one),
        paths_ascend(other),
        forall|entry: (Seq<char>, Seq<char>)| #[trigger] one.contains(entry) <==> other.contains(entry),
    ensures
        one == other,
    decreases one.len(),
{
    if one.len() == 0 {
        if other.len() > 0 {
            assert(other.contains(other[0]));
            assert(one.contains(other[0]));
        }
        assert(one =~= other);
    } else {
        assert(one.contains(one.last()));
        let i = choose|i: int| 0 <= i < other.len() && other[i] == one.last();
        assert(other.contains(other.last()));
        assert(one.contains(other.last()));
        let j = choose|j: int| 0 <= j < one.len() && one[j] == other.last();
        if i != other.len() - 1 {
            assert(text_lt(other[i].0, other.last().0));
            if j != one.len() - 1 {
                assert(text_lt(one[j].0, one.last().0));
            }
            text_lt_asymmetric(other[i].0, other.last().0);
        }
        let fewer = one.drop_last();
        let rest = other.drop_last();
        assert forall|entry: (Seq<char>, Seq<char>)| #[trigger] fewer.contains(entry) <==> rest.contains(entry) by {
            if fewer.contains(entry) {
                let k = choose|k: int| 0 <= k < fewer.len() && fewer[k] == entry;
                assert(one[k] == entry);
                assert(one.contains(entry));
                let m = choose|m: int| 0 <= m < other.len() && other[m] == entry;
                assert(text_lt(one[k].0, one.last().0));
                if m == other.len() - 1 {
                    text_lt_asymmetric(one[k].0, one.last().0);
                }
                assert(rest[m] == entry);
            }
            if rest.contains(entry) {
                let k = choose|k: int| 0 <= k < rest.len() && rest[k] == entry;
                assert(other[k] == entry);
                assert(other.contains(entry));
                assert(one.contains(entry));
                let m = choose|m: int| 0 <= m < one.len() && one[m] == entry;
                assert(text_lt(other[k].0, other.last().0));
                if m == one.len() - 1 {
                    text_lt_asymmetric(other[k].0, other.last().0);
                }
                assert(fewer[m] == entry);
            }
        }
        ascending_digests_unique(fewer, rest);
        assert(one =~= fewer.push(one.last()));
        assert(other =~= rest.push(other.last()));
    }
}

/// A target's key does not depend on the order in which its directory was
/// walked, nor on the order in which its dependencies are listed.
pub proof fn key_ignores_order(
    files: Seq<(Seq<char>, Seq<u8>)>,
    other_files: Seq<(Seq<char>, Seq<u8>)>,
    wanted: Seq<Seq<char>>,
    unwanted: Seq<Seq<char>>,
    command: Seq<char>,
    dependencies: Seq<Seq<char>>,
    other_dependencies: Seq<Seq<char>>,
    variables: Set<Seq<char>>,
    environment: Map<Seq<char>, String>,
)
    requires
        distinct_paths(files),
        distinct_paths(other_files),
        files.to_set() == other_files.to_set(),
        dependencies.to_multiset() == other_dependencies.to_multiset(),
    ensures
        key_text(input_digests(files, wanted, unwanted), command, dependencies, variables, environment) == key_text(
            input_digests(other_files, wanted, unwanted),
            command,
            other_dependencies,
            variables,
            environment,
        ),
{
    digest_facts(files, wanted, unwanted);
    digest_facts(other_files, wanted, unwanted);
    let one = input_digests(files, wanted, unwanted);
    let other = input_digests(other_files, wanted, unwanted);
    assert forall|entry: (Seq<char>, Seq<char>)| #[trigger] one.contains(entry) <==> other.contains(entry) by {
        if one.contains(entry) {
            let at = choose|at: int| contributes(files, wanted, unwanted, entry, at);
            assert(files.to_set().contains(files[at]));
            assert(other_files.contains(files[at]));
            let k = choose|k: int| 0 <= k < other_files.len() && other_files[k] == files[at];
            assert(contributes(other_files, wanted, unwanted, entry, k));
        }
        if other.contains(entry) {
            let at = choose|at: int| contributes(other_files, wanted, unwanted, entry, at);
            assert(other_files.to_set().contains(other_files[at]));
            assert(files.contains(other_files[at]));
            let k = choose|k: int| 0 <= k < files.len() && files[k] == other_files[at];
            assert(contributes(files, wanted, unwanted, entry, k));
        }
    }
    ascending_digests_unique(one, other);
    in_order_ignores_order(dependencies, other_dependencies);
}

/// Only the tracked variables enter a target's key.
pub proof fn key_ignores_other_variables(
    names: Seq<Seq<char>>,
    environment: Map<Seq<char>, String>,
    other: Map<Seq<char>, String>,
)
    requires
        forall|i: int|
            0 <= i < names.len() ==> (environment.dom().contains(#[trigger] names[i]) <==> other.dom().contains(
                names[i],
            )) && (environment.dom().contains(names[i]) ==> environment[names[i]]@ == other[names[i]]@),
    ensures
        environment_part(names, environment) == environment_part(names, other),
    decreases names.len(),
{
    if names.len() > 0 {
        let fewer = names.drop_last();
        assert forall|i: int| 0 <= i < fewer.len() implies (environment.dom().contains(#[trigger] fewer[i])
            <==> other.dom().contains(fewer[i])) && (environment.dom().contains(fewer[i]) ==> environment[fewer[i]]@
            == other[fewer[i]]@) by {
            assert(fewer[i] == names[i]);
        }
        key_ignores_other_variables(fewer, environment, other);
        assert(names.last() == names[names.len() - 1]);
    }
}

/// Equal inputs give equal keys: with the same files and command, neither the
/// order in which the dependencies are listed nor a variable that is not
/// tracked makes a difference.
pub proof fn equal_inputs_give_equal_keys(
    files: Seq<(Seq<char>, Seq<u8>)>,
    inputs: CacheInputs,
    config: Option<&CacheConfig>,
    command: Seq<char>,
    dependencies: Seq<Seq<char>>,
    other_dependencies: Seq<Seq<char>>,
    environment: Map<Seq<char>, String>,
    other_environment: Map<Seq<char>, String>,
)
    requires
        dependencies.to_multiset() == other_dependencies.to_multiset(),
        forall|name: Seq<char>| #[trigger]
            tracked_variables(inputs, config).contains(name) ==> (environment.dom().contains(name)
                <==> other_environment.dom().contains(name)) && (environment.dom().contains(name)
                ==> environment[name]@ == other_environment[name]@),
    ensures
        sha256_hex(
            encode_utf8(
                key_text(
                    input_digests(files, wanted_globs(inputs, config), unwanted_globs(config)),
                    command,
                    dependencies,
                    tracked_variables(inputs, config),
                    environment,
                ),
            ),
        ) == sha256_hex(
            encode_utf8(
                key_text(
                    input_digests(files, wanted_globs(inputs, config), unwanted_globs(config)),
                    command,
                    other_dependencies,
                    tracked_variables(inputs, config),
                    other_environment,
                ),
            ),
        ),
{
    in_order_ignores_order(dependencies, other_dependencies);
    let names = listed(tracked_variables(inputs, config));
    finite_sets_are_listed(tracked_variables(inputs, config));
    assert forall|i: int| 0 <= i < names.len() implies (environment.dom().contains(#[trigger] names[i])
        <==> other_environment.dom().contains(names[i])) && (environment.dom().contains(names[i])
        ==> environment[names[i]]@ == other_environment[names[i]]@) by {
        assert(names.to_set().contains(names[i]));
    }
    key_ignores_other_variables(names, environment, other_environment);
}

// ---------------------------------------------------------------------------
// What a key tells apart
// ---------------------------------------------------------------------------

/// The files whose digests enter a key are those that some wanted pattern
/// matches and no unwanted one does, each once and in order of path, whatever
/// the order in which they were found.
pub proof fn every_input_is_hashed(
    files: Seq<(Seq<char>, Seq<u8>)>,
    wanted: Seq<Seq<char>>,
    unwanted: Seq<Seq<char>>,
)
    requires
        forall|i: int, j: int| 0 <= i < j < files.len() ==> (#[trigger] files[i]).0 != (#[trigger] files[j]).0,
    ensures
        forall|at: int|
            0 <= at < files.len() && (exists|w: int|
                0 <= w < wanted.len() && glob_matches(#[trigger] wanted[w], files[at].0)) && (forall|u: int|
                0 <= u < unwanted.len() ==> !glob_matches(#[trigger] unwanted[u], files[at].0))
                ==> input_digests(files, wanted, unwanted).contains(
                ((#[trigger] files[at]).0, sha256_hex(files[at].1)),
            ),
        forall|entry: (Seq<char>, Seq<char>)| #[trigger]
            input_digests(files, wanted, unwanted).contains(entry) ==> exists|at: int|
                {
                    &&& 0 <= at < files.len()
                    &&& entry == ((#[trigger] files[at]).0, sha256_hex(files[at].1))
                    &&& exists|w: int| 0 <= w < wanted.len() && glob_matches(#[trigger] wanted[w], files[at].0)
                    &&& forall|u: int| 0 <= u < unwanted.len() ==> !glob_matches(#[trigger] unwanted[u], files[at].0)
                },
        forall|i: int, j: int|
            0 <= i < j < input_digests(files, wanted, unwanted).len() ==> text_lt(
                (#[trigger] input_digests(files, wanted, unwanted)[i]).0,
                (#[trigger] input_digests(files, wanted, unwanted)[j]).0,
            ),
{
    digest_facts(files, wanted, unwanted);
    let all = input_digests(files, wanted, unwanted);
    assert forall|at: int|
        0 <= at < files.len() && (exists|w: int|
            0 <= w < wanted.len() && glob_matches(#[trigger] wanted[w], files[at].0)) && (forall|u: int|
            0 <= u < unwanted.len() ==> !glob_matches(#[trigger] unwanted[u], files[at].0)) implies all.contains(
        ((#[trigger] files[at]).0, sha256_hex(files[at].1)),
    ) by {
        assert(contributes(files, wanted, unwanted, (files[at].0, sha256_hex(files[at].1)), at));
    }
    assert forall|entry: (Seq<char>, Seq<char>)| #[trigger] all.contains(entry) implies exists|at: int|
        {
            &&& 0 <= at < files.len()
            &&& entry == ((#[trigger] files[at]).0, sha256_hex(files[at].1))
            &&& exists|w: int| 0 <= w < wanted.len() && glob_matches(#[trigger] wanted[w], files[at].0)
            &&& forall|u: int| 0 <= u < unwanted.len() ==> !glob_matches(#[trigger] unwanted[u], files[at].0)
        } by {
        let at = choose|at: int| contributes(files, wanted, unwanted, entry, at);
        assert(entry == (files[at].0, sha256_hex(files[at].1)));
    }
}

/// The variables are written one behind the other.
pub proof fn variables_are_listed(
    one: Seq<Seq<char>>,
    two: Seq<Seq<char>>,
    environment: Map<Seq<char>, String>,
)
    ensures
        environment_part(one + two, environment) == environment_part(one, environment) + environment_part(
            two,
            environment,
        ),
    decreases two.len(),
{
    if two.len() == 0 {
        assert(one + two =~= one);
        assert(environment_part(one, environment) + Seq::<char>::empty() =~= environment_part(one, environment));
    } else {
        variables_are_listed(one, two.drop_last(), environment);
        assert((one + two).drop_last() =~= one + two.drop_last());
        assert((one + two).last() == two.last());
        assert(environment_part(one + two, environment) =~= environment_part(one, environment) + environment_part(
            two,
            environment,
        ));
    }
}

proof fn one_variable(name: Seq<char>, environment: Map<Seq<char>, String>)
    ensures
        environment_part(seq![name], environment) == (if environment.dom().contains(name) {
            name + "="@ + environment[name]@ + ";"@
        } else {
            Seq::empty()
        }),
{
    let names = seq![name];
    assert(names.drop_last() =~= Seq::<Seq<char>>::empty());
    assert(environment_part(names.drop_last(), environment) =~= Seq::<char>::empty());
    assert(names.last() == name);
    if environment.dom().contains(name) {
        let piece = name + "="@ + environment[name]@ + ";"@;
        assert(Seq::<char>::empty() + piece =~= piece);
    }
}

/// Each tracked variable that is set stands in what is hashed, with its value,
/// between what stands there for the variables before and behind it.
pub proof fn every_variable_is_hashed(names: Seq<Seq<char>>, environment: Map<Seq<char>, String>, at: int)
    requires
        0 <= at < names.len(),
    ensures
        environment_part(names, environment) == environment_part(names.take(at), environment) + (
        if environment.dom().contains(names[at]) {
            names[at] + "="@ + environment[names[at]]@ + ";"@
        } else {
            Seq::empty()
        }) + environment_part(names.skip(at + 1), environment),
{
    let front = names.take(at);
    let back = names.skip(at + 1);
    assert(names =~= front + seq![names[at]] + back);
    variables_are_listed(front + seq![names[at]], back, environment);
    variables_are_listed(front, seq![names[at]], environment);
    one_variable(names[at], environment);
}

/// Two environments that differ in one tracked variable, in its value or in
/// whether it is set, give different texts.
pub proof fn a_changed_variable_changes_the_text(
    names: Seq<Seq<char>>,
    environment: Map<Seq<char>, String>,
    other: Map<Seq<char>, String>,
    at: int,
)
    requires
        0 <= at < names.len(),
        forall|i: int|
            0 <= i < names.len() && i != at ==> (environment.dom().contains(#[trigger] names[i])
                <==> other.dom().contains(names[i])) && (environment.dom().contains(names[i])
                ==> environment[names[i]]@ == other[names[i]]@),
        environment.dom().contains(names[at]) != other.dom().contains(names[at]) || (environment.dom().contains(
            names[at],
        ) && environment[names[at]]@ != other[names[at]]@),
    ensures
        environment_part(names, environment) != environment_part(names, other),
{
    every_variable_is_hashed(names, environment, at);
    every_variable_is_hashed(names, other, at);
    let front = names.take(at);
    let back = names.skip(at + 1);
    assert forall|i: int| 0 <= i < front.len() implies (environment.dom().contains(#[trigger] front[i])
        <==> other.dom().contains(front[i])) && (environment.dom().contains(front[i]) ==> environment[front[i]]@
        == other[front[i]]@) by {
        assert(front[i] == names[i]);
    }
    assert forall|i: int| 0 <= i < back.len() implies (environment.dom().contains(#[trigger] back[i])
        <==> other.dom().contains(back[i])) && (environment.dom().contains(back[i]) ==> environment[back[i]]@
        == other[back[i]]@) by {
        assert(back[i] == names[i + at + 1]);
    }
    key_ignores_other_variables(front, environment, other);
    key_ignores_other_variables(back, environment, other);
    let name = names[at];
    let head = environment_part(front, environment);
    let tail = environment_part(back, environment);
    let one = if environment.dom().contains(name) {
        name + "="@ + environment[name]@ + ";"@
    } else {
        Seq::empty()
    };
    let two = if other.dom().contains(name) {
        name + "="@ + other[name]@ + ";"@
    } else {
        Seq::empty()
    };
    reveal_strlit("=");
    reveal_strlit(";");
    if environment_part(names, environment) == environment_part(names, other) {
        same_middle(head, one, two, tail);
        if environment.dom().contains(name) && other.dom().contains(name) {
            same_middle(name + "="@, environment[name]@, other[name]@, ";"@);
        }
    }
}

/// What stands between the same texts is the same where the whole is.
proof fn same_middle(head: Seq<char>, one: Seq<char>, two: Seq<char>, tail: Seq<char>)
    requires
        head + one + tail == head + two + tail,
    ensures
        one == two,
{
    let all = head + one + tail;
    assert(all.len() == (head + two + tail).len());
    assert(all.subrange(head.len() as int, (head.len() + one.len()) as int) =~= one);
    assert((head + two + tail).subrange(head.len() as int, (head.len() + two.len()) as int) =~= two);
}

/// What stands in front of the first `c` is told by the whole.
proof fn same_up_to(one: Seq<char>, rest: Seq<char>, two: Seq<char>, other: Seq<char>, c: char)
    requires
        !one.contains(c),
        !two.contains(c),
        one + seq![c] + rest == two + seq![c] + other,
    ensures
        one == two,
        rest == other,
{
    let all = one + seq![c] + rest;
    let same = two + seq![c] + other;
    if one.len() < two.len() {
        assert(all[one.len() as int] == c);
        assert(same[one.len() as int] == two[one.len() as int]);
        assert(two.contains(two[one.len() as int]));
    } else if two.len() < one.len() {
        assert(same[two.len() as int] == c);
        assert(all[two.len() as int] == one[two.len() as int]);
        assert(one.contains(one[two.len() as int]));
    }
    assert(all.take(one.len() as int) =~= one);
    assert(same.take(two.len() as int) =~= two);
    assert(all.skip(one.len() as int + 1) =~= rest);
    assert(same.skip(two.len() as int + 1) =~= other);
}

/// What is hashed for the variables tells which of them are set, and to what:
/// no two environments give the same text, as long as no name holds `=` and no
/// value `;`.
pub proof fn variables_are_told_apart(
    names: Seq<Seq<char>>,
    environment: Map<Seq<char>, String>,
    other: Map<Seq<char>, String>,
)
    requires
        names.no_duplicates(),
        forall|i: int| 0 <= i < names.len() ==> !(#[trigger] names[i]).contains('='),
        forall|i: int|
            0 <= i < names.len() && environment.dom().contains(#[trigger] names[i]) ==> !environment[names[i]]@.contains(
                ';',
            ),
        forall|i: int|
            0 <= i < names.len() && other.dom().contains(#[trigger] names[i]) ==> !other[names[i]]@.contains(';'),
        environment_part(names, environment) == environment_part(names, other),
    ensures
        forall|i: int|
            0 <= i < names.len() ==> (environment.dom().contains(#[trigger] names[i]) <==> other.dom().contains(
                names[i],
            )) && (environment.dom().contains(names[i]) ==> environment[names[i]]@ == other[names[i]]@),
    decreases names.len(),
{
    if names.len() > 0 {
        reveal_strlit("=");
        reveal_strlit(";");
        assert("="@ =~= seq!['=']);
        assert(";"@ =~= seq![';']);
        let name = names[0];
        let back = names.skip(1);
        every_variable_is_hashed(names, environment, 0);
        every_variable_is_hashed(names, other, 0);
        assert(names.take(0) =~= Seq::<Seq<char>>::empty());
        assert(names.skip(1) =~= back);
        let rest = environment_part(back, environment);
        let tail = environment_part(back, other);
        assert forall|i: int| 0 <= i < back.len() implies !(#[trigger] back[i]).contains('=') && (
        environment.dom().contains(back[i]) ==> !environment[back[i]]@.contains(';')) && (other.dom().contains(
            back[i],
        ) ==> !other[back[i]]@.contains(';')) && back[i] != name by {
            assert(back[i] == names[i + 1]);
        }
        let one = environment.dom().contains(name);
        let two = other.dom().contains(name);
        if one && two {
            let value = environment[name]@;
            let second = other[name]@;
            assert(environment_part(names, environment) =~= name + seq!['='] + (value + seq![';'] + rest));
            assert(environment_part(names, other) =~= name + seq!['='] + (second + seq![';'] + tail));
            same_up_to(name, value + seq![';'] + rest, name, second + seq![';'] + tail, '=');
            same_up_to(value, rest, second, tail, ';');
        } else if one {
            assert(environment_part(names, environment) =~= name + seq!['='] + (environment[name]@ + seq![';'] + rest));
            assert(environment_part(names, other) =~= tail);
            first_variable(back, other, name, environment[name]@ + seq![';'] + rest);
        } else if two {
            assert(environment_part(names, other) =~= name + seq!['='] + (other[name]@ + seq![';'] + tail));
            assert(environment_part(names, environment) =~= rest);
            first_variable(back, environment, name, other[name]@ + seq![';'] + tail);
        } else {
            assert(environment_part(names, environment) =~= rest);
            assert(environment_part(names, other) =~= tail);
        }
        variables_are_told_apart(back, environment, other);
        assert forall|i: int| 0 <= i < names.len() implies (environment.dom().contains(#[trigger] names[i])
            <==> other.dom().contains(names[i])) && (environment.dom().contains(names[i]) ==> environment[names[i]]@
            == other[names[i]]@) by {
            if i > 0 {
                assert(back[i - 1] == names[i]);
            }
        }
    }
}

/// A text for other variables does not begin with a name that is none of them.
proof fn first_variable(
    names: Seq<Seq<char>>,
    environment: Map<Seq<char>, String>,
    name: Seq<char>,
    rest: Seq<char>,
)
    requires
        !name.contains('='),
        forall|i: int| 0 <= i < names.len() ==> (#[trigger] names[i]) != name && !names[i].contains('='),
    ensures
        environment_part(names, environment) != name + seq!['='] + rest,
    decreases names.len(),
{
    if names.len() > 0 {
        reveal_strlit("=");
        reveal_strlit(";");
        assert("="@ =~= seq!['=']);
        let first = names[0];
        let back = names.skip(1);
        every_variable_is_hashed(names, environment, 0);
        assert(names.take(0) =~= Seq::<Seq<char>>::empty());
        let tail = environment_part(back, environment);
        assert forall|i: int| 0 <= i < back.len() implies (#[trigger] back[i]) != name && !back[i].contains('=') by {
            assert(back[i] == names[i + 1]);
        }
        if environment.dom().contains(first) {
            assert(environment_part(names, environment) =~= first + seq!['='] + (environment[first]@ + ";"@ + tail));
            if environment_part(names, environment) == name + seq!['='] + rest {
                same_up_to(name, rest, first, environment[first]@ + ";"@ + tail, '=');
            }
        } else {
            assert(environment_part(names, environment) =~= tail);
            first_variable(back, environment, name, rest);
        }
    } else {
        assert((name + seq!['='] + rest).len() > 0);
    }
}

proof fn lines_from_first(files: Seq<(Seq<char>, Seq<char>)>)
    requires
        files.len() > 0,
    ensures
        file_lines(files) == files[0].0 + ":"@ + files[0].1 + "\n"@ + file_lines(files.skip(1)),
    decreases files.len(),
{
    let rest = files.skip(1);
    if files.len() == 1 {
        assert(files.drop_last() =~= Seq::<(Seq<char>, Seq<char>)>::empty());
        assert(rest =~= Seq::<(Seq<char>, Seq<char>)>::empty());
        assert(file_lines(files) =~= files[0].0 + ":"@ + files[0].1 + "\n"@ + file_lines(rest));
    } else {
        let front = files.drop_last();
        lines_from_first(front);
        assert(front.skip(1) =~= rest.drop_last());
        assert(rest.last() == files.last());
        assert(file_lines(files) =~= files[0].0 + ":"@ + files[0].1 + "\n"@ + file_lines(rest));
    }
}

proof fn part_from_first(hashes: Seq<Seq<char>>)
    requires
        hashes.len() > 0,
    ensures
        dependency_part(hashes) == hashes[0] + ","@ + dependency_part(hashes.skip(1)),
    decreases hashes.len(),
{
    let rest = hashes.skip(1);
    if hashes.len() == 1 {
        assert(hashes.drop_last() =~= Seq::<Seq<char>>::empty());
        assert(rest =~= Seq::<Seq<char>>::empty());
        assert(dependency_part(hashes) =~= hashes[0] + ","@ + dependency_part(rest));
    } else {
        let front = hashes.drop_last();
        part_from_first(front);
        assert(front.skip(1) =~= rest.drop_last());
        assert(rest.last() == hashes.last());
        assert(dependency_part(hashes) =~= hashes[0] + ","@ + dependency_part(rest));
    }
}

/// What is hashed for the dependencies tells their keys, as long as none holds
/// a comma.
pub proof fn dependencies_are_told_apart(hashes: Seq<Seq<char>>, other: Seq<Seq<char>>)
    requires
        forall|i: int| 0 <= i < hashes.len() ==> !(#[trigger] hashes[i]).contains(','),
        forall|i: int| 0 <= i < other.len() ==> !(#[trigger] other[i]).contains(','),
        dependency_part(hashes) == dependency_part(other),
    ensures
        hashes == other,
    decreases hashes.len(),
{
    reveal_strlit(",");
    assert(","@ =~= seq![',']);
    if hashes.len() > 0 {
        part_from_first(hashes);
    }
    if other.len() > 0 {
        part_from_first(other);
    }
    if hashes.len() > 0 && other.len() > 0 {
        same_up_to(hashes[0], dependency_part(hashes.skip(1)), other[0], dependency_part(other.skip(1)), ',');
        let one = hashes.skip(1);
        let two = other.skip(1);
        assert forall|i: int| 0 <= i < one.len() implies !(#[trigger] one[i]).contains(',') by {
            assert(one[i] == hashes[i + 1]);
        }
        assert forall|i: int| 0 <= i < two.len() implies !(#[trigger] two[i]).contains(',') by {
            assert(two[i] == other[i + 1]);
        }
        dependencies_are_told_apart(one, two);
        assert(hashes =~= seq![hashes[0]] + one);
        assert(other =~= seq![other[0]] + two);
    } else {
        assert(dependency_part(hashes).len() == 0 || hashes.len() > 0);
        assert(hashes =~= other);
    }
}

/// A file with the digest of its content, on a line of its own.
pub open spec fn is_file_line(file: (Seq<char>, Seq<char>)) -> bool {
    !file.0.contains('\n') && is_digest(file.1)
}

proof fn digest_is_no_line(hex: Seq<char>)
    requires
        is_digest(hex),
    ensures
        !hex.contains('\n'),
        !hex.contains(','),
{
}

proof fn without_char(one: Seq<char>, two: Seq<char>, c: char)
    requires
        !one.contains(c),
        !two.contains(c),
    ensures
        !(one + two).contains(c),
{
    if (one + two).contains(c) {
        let k = choose|k: int| 0 <= k < (one + two).len() && (one + two)[k] == c;
        if k < one.len() {
            assert(one.contains(one[k]));
        } else {
            assert(two.contains(two[k - one.len()]));
        }
    }
}

/// How often a line ends in a text.
spec fn line_ends(text: Seq<char>) -> int {
    text.to_multiset().count('\n') as int
}

proof fn line_ends_sum(one: Seq<char>, two: Seq<char>)
    ensures
        line_ends(one + two) == line_ends(one) + line_ends(two),
{
    vstd::seq_lib::lemma_multiset_commutative(one, two);
}

proof fn no_line_end(text: Seq<char>)
    requires
        !text.contains('\n'),
    ensures
        line_ends(text) == 0,
{
    text.to_multiset_ensures();
}

proof fn one_line_end()
    ensures
        line_ends("\n"@) == 1,
        "\n"@ == seq!['\n'],
{
    reveal_strlit("\n");
    assert("\n"@ =~= seq!['\n']);
    assert(seq!['\n'] =~= Seq::<char>::empty().push('\n'));
    Seq::<char>::empty().to_multiset_ensures();
    assert(Seq::<char>::empty().to_multiset().count('\n') == 0);
}

proof fn file_line_ends(files: Seq<(Seq<char>, Seq<char>)>)
    requires
        forall|i: int| 0 <= i < files.len() ==> is_file_line(#[trigger] files[i]),
    ensures
        line_ends(file_lines(files)) == files.len(),
    decreases files.len(),
{
    if files.len() > 0 {
        let front = files.drop_last();
        assert forall|i: int| 0 <= i < front.len() implies is_file_line(#[trigger] front[i]) by {
            assert(front[i] == files[i]);
        }
        file_line_ends(front);
        let (path, hex) = files[files.len() - 1];
        assert(is_file_line(files[files.len() - 1]));
        reveal_strlit(":");
        assert(!":"@.contains('\n'));
        digest_is_no_line(hex);
        without_char(path, ":"@, '\n');
        without_char(path + ":"@, hex, '\n');
        no_line_end(path + ":"@ + hex);
        one_line_end();
        line_ends_sum(path + ":"@ + hex, "\n"@);
        line_ends_sum(file_lines(front), path + ":"@ + hex + "\n"@);
    } else {
        no_line_end(file_lines(files));
    }
}

/// No two lists of files go on in the same text.
proof fn files_are_told_apart(
    files: Seq<(Seq<char>, Seq<char>)>,
    rest: Seq<char>,
    others: Seq<(Seq<char>, Seq<char>)>,
    other: Seq<char>,
)
    requires
        files.len() == others.len(),
        forall|i: int| 0 <= i < files.len() ==> is_file_line(#[trigger] files[i]),
        forall|i: int| 0 <= i < others.len() ==> is_file_line(#[trigger] others[i]),
        file_lines(files) + rest == file_lines(others) + other,
    ensures
        files == others,
        rest == other,
    decreases files.len(),
{
    if files.len() > 0 {
        lines_from_first(files);
        lines_from_first(others);
        one_line_end();
        reveal_strlit(":");
        let (path, hex) = files[0];
        let (second, digest) = others[0];
        assert(is_file_line(files[0]) && is_file_line(others[0]));
        digest_is_no_line(hex);
        digest_is_no_line(digest);
        assert(!":"@.contains('\n'));
        without_char(path, ":"@, '\n');
        without_char(path + ":"@, hex, '\n');
        without_char(second, ":"@, '\n');
        without_char(second + ":"@, digest, '\n');
        let one = files.skip(1);
        let two = others.skip(1);
        assert(file_lines(files) + rest =~= (path + ":"@ + hex) + seq!['\n'] + (file_lines(one) + rest));
        assert(file_lines(others) + other =~= (second + ":"@ + digest) + seq!['\n'] + (file_lines(two) + other));
        same_up_to(path + ":"@ + hex, file_lines(one) + rest, second + ":"@ + digest, file_lines(two) + other, '\n');
        let line = path + ":"@ + hex;
        assert(line.len() == path.len() + 65);
        assert(line.take(path.len() as int) =~= path);
        assert((second + ":"@ + digest).take(path.len() as int) =~= second);
        assert(line.skip(path.len() as int + 1) =~= hex);
        assert((second + ":"@ + digest).skip(path.len() as int + 1) =~= digest);
        assert forall|i: int| 0 <= i < one.len() implies is_file_line(#[trigger] one[i]) by {
            assert(one[i] == files[i + 1]);
        }
        assert forall|i: int| 0 <= i < two.len() implies is_file_line(#[trigger] two[i]) by {
            assert(two[i] == others[i + 1]);
        }
        files_are_told_apart(one, rest, two, other);
        assert(files =~= seq![files[0]] + one);
        assert(others =~= seq![others[0]] + two);
    } else {
        assert(file_lines(files) + rest =~= rest);
        assert(file_lines(others) + other =~= other);
        assert(files =~= others);
    }
}

/// A command, keys of dependencies and an environment of single lines.
pub open spec fn are_lines(command: Seq<char>, dependencies: Seq<Seq<char>>, environment: Seq<char>) -> bool {
    &&& !command.contains('\n')
    &&& forall|i: int|
        0 <= i < dependencies.len() ==> !(#[trigger] dependencies[i]).contains('\n') && !dependencies[i].contains(',')
    &&& !environment.contains('\n')
}

proof fn part_is_one_line(hashes: Seq<Seq<char>>)
    requires
        forall|i: int| 0 <= i < hashes.len() ==> !(#[trigger] hashes[i]).contains('\n'),
    ensures
        !dependency_part(hashes).contains('\n'),
    decreases hashes.len(),
{
    if hashes.len() > 0 {
        let front = hashes.drop_last();
        assert forall|i: int| 0 <= i < front.len() implies !(#[trigger] front[i]).contains('\n') by {
            assert(front[i] == hashes[i]);
        }
        part_is_one_line(front);
        reveal_strlit(",");
        assert(!","@.contains('\n'));
        assert(!hashes[hashes.len() - 1].contains('\n'));
        without_char(hashes.last(), ","@, '\n');
        without_char(dependency_part(front), hashes.last() + ","@, '\n');
    }
}

/// What is hashed tells everything apart that went into it: where two targets
/// have the same text, they have the same files with the same digests, the same
/// command, the same keys of dependencies and the same text for their
/// variables. Names, commands and values of single lines are meant, and keys
/// without commas, as digests are.
pub proof fn inputs_are_told_apart(
    files: Seq<(Seq<char>, Seq<char>)>,
    command: Seq<char>,
    dependencies: Seq<Seq<char>>,
    variables: Set<Seq<char>>,
    environment: Map<Seq<char>, String>,
    other_files: Seq<(Seq<char>, Seq<char>)>,
    other_command: Seq<char>,
    other_dependencies: Seq<Seq<char>>,
    other_variables: Set<Seq<char>>,
    other_environment: Map<Seq<char>, String>,
)
    requires
        forall|i: int| 0 <= i < files.len() ==> is_file_line(#[trigger] files[i]),
        forall|i: int| 0 <= i < other_files.len() ==> is_file_line(#[trigger] other_files[i]),
        are_lines(command, in_order(dependencies), environment_part(listed(variables), environment)),
        are_lines(
            other_command,
            in_order(other_dependencies),
            environment_part(listed(other_variables), other_environment),
        ),
        key_text(files, command, dependencies, variables, environment) == key_text(
            other_files,
            other_command,
            other_dependencies,
            other_variables,
            other_environment,
        ),
    ensures
        files == other_files,
        command == other_command,
        dependencies.to_multiset() == other_dependencies.to_multiset(),
        environment_part(listed(variables), environment) == environment_part(
            listed(other_variables),
            other_environment,
        ),
{
    let one = in_order(dependencies);
    let two = in_order(other_dependencies);
    let env = environment_part(listed(variables), environment);
    let other_env = environment_part(listed(other_variables), other_environment);
    part_is_one_line(one);
    part_is_one_line(two);
    reveal_strlit("command:");
    reveal_strlit("deps:");
    reveal_strlit("env:");
    assert(!"command:"@.contains('\n') && !"deps:"@.contains('\n') && !"env:"@.contains('\n'));
    one_line_end();
    let first = "command:"@ + command;
    let second = "deps:"@ + dependency_part(one);
    let third = "env:"@ + env;
    let other_first = "command:"@ + other_command;
    let other_second = "deps:"@ + dependency_part(two);
    let other_third = "env:"@ + other_env;
    without_char("command:"@, command, '\n');
    without_char("deps:"@, dependency_part(one), '\n');
    without_char("env:"@, env, '\n');
    without_char("command:"@, other_command, '\n');
    without_char("deps:"@, dependency_part(two), '\n');
    without_char("env:"@, other_env, '\n');
    let rest = first + seq!['\n'] + (second + seq!['\n'] + third);
    let other = other_first + seq!['\n'] + (other_second + seq!['\n'] + other_third);
    let text = key_text(files, command, dependencies, variables, environment);
    assert(text =~= file_lines(files) + rest);
    assert(key_text(other_files, other_command, other_dependencies, other_variables, other_environment)
        =~= file_lines(other_files) + other);
    three_lines(first, second, third);
    three_lines(other_first, other_second, other_third);
    file_line_ends(files);
    file_line_ends(other_files);
    line_ends_sum(file_lines(files), rest);
    line_ends_sum(file_lines(other_files), other);
    files_are_told_apart(files, rest, other_files, other);
    same_up_to(first, second + seq!['\n'] + third, other_first, other_second + seq!['\n'] + other_third, '\n');
    same_up_to(second, third, other_second, other_third, '\n');
    assert(first.skip(8) =~= command && other_first.skip(8) =~= other_command);
    assert(second.skip(5) =~= dependency_part(one) && other_second.skip(5) =~= dependency_part(two));
    assert(third.skip(4) =~= env && other_third.skip(4) =~= other_env);
    dependencies_are_told_apart(one, two);
    in_order_keeps(dependencies);
    in_order_keeps(other_dependencies);
}

proof fn three_lines(first: Seq<char>, second: Seq<char>, third: Seq<char>)
    requires
        !first.contains('\n'),
        !second.contains('\n'),
        !third.contains('\n'),
    ensures
        line_ends(first + seq!['\n'] + (second + seq!['\n'] + third)) == 2,
{
    one_line_end();
    no_line_end(first);
    no_line_end(second);
    no_line_end(third);
    line_ends_sum(first, seq!['\n']);
    line_ends_sum(second, seq!['\n']);
    line_ends_sum(second + seq!['\n'], third);
    line_ends_sum(first + seq!['\n'], second + seq!['\n'] + third);
}

/// A target with another command, or with other keys of its dependencies, has
/// another text, whatever these hold.
pub proof fn a_changed_command_changes_the_text(
    files: Seq<(Seq<char>, Seq<char>)>,
    command: Seq<char>,
    other_command: Seq<char>,
    dependencies: Seq<Seq<char>>,
    variables: Set<Seq<char>>,
    environment: Map<Seq<char>, String>,
)
    requires
        command != other_command,
    ensures
        key_text(files, command, dependencies, variables, environment) != key_text(
            files,
            other_command,
            dependencies,
            variables,
            environment,
        ),
{
    let head = file_lines(files) + "command:"@;
    let tail = "\n"@ + "deps:"@ + dependency_part(in_order(dependencies)) + "\n"@ + "env:"@ + environment_part(
        listed(variables),
        environment,
    );
    assert(key_text(files, command, dependencies, variables, environment) =~= head + command + tail);
    assert(key_text(files, other_command, dependencies, variables, environment) =~= head + other_command + tail);
    if head + command + tail == head + other_command + tail {
        same_middle(head, command, other_command, tail);
    }
}

/// A target has another text where one tracked variable is set, unset or set
/// to something else, whatever the values hold.
pub proof fn a_changed_variable_changes_the_key_text(
    files: Seq<(Seq<char>, Seq<char>)>,
    command: Seq<char>,
    dependencies: Seq<Seq<char>>,
    variables: Set<Seq<char>>,
    environment: Map<Seq<char>, String>,
    other: Map<Seq<char>, String>,
    name: Seq<char>,
)
    requires
        variables.finite(),
        variables.contains(name),
        forall|one: Seq<char>| #[trigger]
            variables.contains(one) && one != name ==> (environment.dom().contains(one) <==> other.dom().contains(one))
                && (environment.dom().contains(one) ==> environment[one]@ == other[one]@),
        environment.dom().contains(name) != other.dom().contains(name) || (environment.dom().contains(name)
            && environment[name]@ != other[name]@),
    ensures
        key_text(files, command, dependencies, variables, environment) != key_text(
            files,
            command,
            dependencies,
            variables,
            other,
        ),
{
    let names = listed(variables);
    finite_sets_are_listed(variables);
    crate::collections::ascending_distinct(names);
    assert(names.to_set().contains(name));
    let at = choose|at: int| 0 <= at < names.len() && names[at] == name;
    assert forall|i: int| 0 <= i < names.len() && i != at implies (environment.dom().contains(#[trigger] names[i])
        <==> other.dom().contains(names[i])) && (environment.dom().contains(names[i]) ==> environment[names[i]]@
        == other[names[i]]@) by {
        assert(names.to_set().contains(names[i]));
    }
    a_changed_variable_changes_the_text(names, environment, other, at);
    let head = file_lines(files) + "command:"@ + command + "\n"@ + "deps:"@ + dependency_part(in_order(dependencies))
        + "\n"@ + "env:"@;
    let one = key_text(files, command, dependencies, variables, environment);
    let two = key_text(files, command, dependencies, variables, other);
    if one == two {
        assert(one.skip(head.len() as int) =~= environment_part(names, environment));
        assert(two.skip(head.len() as int) =~= environment_part(names, other));
    }
}

/// A target's key depends on the variables that its plugin names and on those that the
/// user names, on all of them and on no others.
pub proof fn named_variables_are_tracked(inputs: CacheInputs, user_config: Option<&CacheConfig>, name: Seq<char>)
    ensures
        tracked_variables(inputs, user_config).contains(name) <==> texts(inputs.env_vars@).contains(name) || (
        user_config is Some && texts(user_config->0.env@).contains(name)),
{
}

} // verus!
