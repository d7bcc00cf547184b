use aster::cache::hasher::{cache_key_text, CacheHasher, FileHash, InputFile};
use aster::cache::matcher::{MatcherError, TargetInputMatcher};
use aster::cache::store::{CacheEntry, CacheStore};
use aster::collections::{TextMap, TextSet};
use aster::config::project::CacheConfig;
use aster::dev::daemon::bundle_id;
use aster::plugins::CacheInputs;

fn inputs() -> CacheInputs {
    CacheInputs {
        source_globs: vec!["**/*.ts".to_string()],
        config_files: vec!["package.json".to_string()],
        env_vars: vec!["CI".to_string(), "UNSET".to_string()],
    }
}

fn file(path: &str, content: &str) -> InputFile {
    InputFile {
        path: path.to_string(),
        content: content.as_bytes().to_vec(),
    }
}

fn environment() -> TextMap<String> {
    let mut environment = TextMap::new();
    environment.insert("CI".to_string(), "1".to_string());
    environment
}

fn config(enabled: Option<bool>, wanted: &[&str], unwanted: &[&str], env: &[&str]) -> CacheConfig {
    let list = |items: &[&str]| items.iter().map(|item| item.to_string()).collect::<Vec<_>>();
    CacheConfig {
        enabled,
        include_globs: list(wanted),
        exclude_globs: list(unwanted),
        env: list(env),
        outputs: Vec::new(),
    }
}

fn entry(hash: &str) -> CacheEntry {
    CacheEntry {
        hash: hash.to_string(),
        timestamp: "now".to_string(),
        success: true,
    }
}

#[test]
fn keys_are_digests_of_what_a_target_reads() {
    let hasher = CacheHasher::new("/w/a");
    let files = vec![file("src/b.ts", "two"), file("a.ts", "one"), file("README.md", "x")];
    let dependencies = vec!["def".to_string(), "abc".to_string()];
    let hashes = hasher.hash_files(&inputs(), None, &files).unwrap();
    assert_eq!(hashes.len(), 2);
    assert_eq!(hashes[0].path, "a.ts");
    assert_eq!(
        hashes[0].hash,
        "7692c3ad3540bb803c020b3aee66cd8887123234ea0c6e7143c0add73ff431ed"
    );
    let key = hasher
        .compute_hash(&inputs(), None, "npm test", &dependencies, &environment(), &files)
        .unwrap();
    assert_eq!(
        key,
        "520975971b3da2df1d53d3ce82b99ea8b4867c77266ecddeebde1097032fce0e"
    );
}

#[test]
fn keys_do_not_depend_on_order() {
    let hasher = CacheHasher::new("/w/a");
    let one = hasher.compute_hash(
        &inputs(),
        None,
        "npm test",
        &vec!["abc".to_string(), "def".to_string()],
        &environment(),
        &vec![file("a.ts", "one"), file("src/b.ts", "two")],
    );
    let other = hasher.compute_hash(
        &inputs(),
        None,
        "npm test",
        &vec!["def".to_string(), "abc".to_string()],
        &environment(),
        &vec![file("src/b.ts", "two"), file("a.ts", "one")],
    );
    assert_eq!(one, other);
}

#[test]
fn keys_ignore_variables_that_are_not_tracked() {
    let hasher = CacheHasher::new("/w/a");
    let key = |environment: &TextMap<String>, config: Option<&CacheConfig>| {
        hasher
            .compute_hash(&inputs(), config, "npm test", &Vec::new(), environment, &Vec::new())
            .unwrap()
    };
    let mut more = environment();
    more.insert("HOME".to_string(), "/root".to_string());
    assert_eq!(key(&environment(), None), key(&more, None));
    let tracking = config(None, &[], &[], &["HOME"]);
    assert_ne!(key(&environment(), Some(&tracking)), key(&more, Some(&tracking)));
    let names = hasher.collect_env_vars(&inputs(), Some(&tracking));
    assert_eq!(names.to_vec(), vec!["CI", "HOME", "UNSET"]);
}

#[test]
fn what_is_hashed_is_written_line_by_line() {
    let mut variables = TextSet::new();
    variables.insert("CI".to_string());
    variables.insert("UNSET".to_string());
    let files = vec![FileHash {
        path: "a.ts".to_string(),
        hash: "h".to_string(),
    }];
    assert_eq!(
        cache_key_text(
            &files,
            "npm test",
            &vec!["b".to_string(), "a".to_string()],
            &variables,
            &environment()
        ),
        "a.ts:h\ncommand:npm test\ndeps:a,b,\nenv:CI=1;"
    );
}

#[test]
fn excluded_files_are_no_inputs() {
    let hasher = CacheHasher::new("/w/a");
    let found = vec![
        "src/a.ts".to_string(),
        "dist/a.ts".to_string(),
        "notes.md".to_string(),
        "package.json".to_string(),
    ];
    let narrowed = config(None, &["*.md"], &["dist/**"], &[]);
    assert_eq!(
        hasher.input_paths(&inputs(), Some(&narrowed), &found).unwrap(),
        vec!["src/a.ts", "notes.md", "package.json"]
    );
    let both = config(None, &["dist/**"], &["dist/**"], &[]);
    assert!(!hasher
        .input_paths(&inputs(), Some(&both), &found)
        .unwrap()
        .contains(&"dist/a.ts".to_string()));
}

#[test]
fn globs_that_are_malformed_match_nothing() {
    let matcher = TargetInputMatcher::build("/w/a", &inputs(), Some(&config(None, &["["], &["{"], &[]))).unwrap();
    assert!(matcher.matches_relative("src/a.ts"));
    assert!(!matcher.matches_relative("["));
}

#[test]
fn globs_that_cannot_be_compiled_are_reported_by_their_list() {
    let huge = "?".repeat(1_000_000);
    assert_eq!(
        TargetInputMatcher::build("/w/a", &inputs(), Some(&config(None, &[&huge], &[], &[]))).err(),
        Some(MatcherError::Wanted)
    );
    assert_eq!(
        TargetInputMatcher::build("/w/a", &inputs(), Some(&config(None, &[], &[&huge], &[]))).err(),
        Some(MatcherError::Unwanted)
    );
}

#[test]
fn matchers_know_their_project() {
    let matcher = TargetInputMatcher::build("/w/a", &inputs(), None).unwrap();
    assert_eq!(matcher.project_root(), "/w/a");
    assert!(matcher.has_patterns());
    assert!(matcher.matches_relative("src/a.ts"));
    assert!(matcher.owns("/w/a/src/a.ts"));
    assert!(!matcher.owns("/w/b/src/a.ts"));
}

#[test]
fn entries_are_found_again_until_they_are_cleared() {
    let mut store = CacheStore::new("/w");
    store.set("//a:test", entry("1"));
    store.set("//ab:test", entry("2"));
    store.set("//a:build", entry("3"));
    store.set("//a:test", entry("4"));
    assert_eq!(store.get("//a:test"), Some(entry("4")));
    assert_eq!(store.get("//c:test"), None);
    assert_eq!(store.clear_matching("//a"), 2);
    assert_eq!(store.get("//a:test"), None);
    assert_eq!(store.get("//ab:test"), Some(entry("2")));
    store.remove("//ab:test");
    assert_eq!(store.get("//ab:test"), None);
}

#[test]
fn bundles_are_identified_by_a_digest() {
    assert_eq!(bundle_id("/w", "api"), "571c4d2394a8f51d24c0af53");
}

#[test]
fn equal_inputs_have_equal_keys() {
    let hasher = CacheHasher::new("/w/a");
    let files = vec![file("a.ts", "one"), file("b.ts", "two")];
    let mut first = TextMap::new();
    first.insert("CI".to_string(), "1".to_string());
    let mut second = TextMap::new();
    second.insert("CI".to_string(), "1".to_string());
    second.insert("OTHER".to_string(), "x".to_string());
    let one = hasher
        .compute_hash(
            &inputs(),
            None,
            "npm test",
            &vec!["k1".to_string(), "k2".to_string()],
            &first,
            &files,
        )
        .unwrap();
    let two = hasher
        .compute_hash(
            &inputs(),
            None,
            "npm test",
            &vec!["k2".to_string(), "k1".to_string()],
            &second,
            &files,
        )
        .unwrap();
    assert_eq!(one, two);
    assert_eq!(one.len(), 64);
    assert!(one.chars().all(|c| c.is_ascii_digit() || ('a'..='f').contains(&c)));
}
