use aster::cache::hasher::CacheHasher;
use aster::collections::TextMap;
use aster::plugins::CacheInputs;

fn no_inputs() -> CacheInputs {
    CacheInputs {
        source_globs: vec![],
        config_files: vec![],
        env_vars: vec![],
    }
}

#[test]
fn test_compute_hash_empty_inputs() {
    let hasher = CacheHasher::new("/workspace");

    let inputs = no_inputs();
    let env = TextMap::new();

    let hash = hasher
        .compute_hash(&inputs, None, "npm test", &vec![], &env, &vec![])
        .unwrap();

    // Hash should be deterministic
    let hash2 = hasher
        .compute_hash(&inputs, None, "npm test", &vec![], &env, &vec![])
        .unwrap();
    assert_eq!(hash, hash2);
}

#[test]
fn test_compute_hash_different_commands() {
    let hasher = CacheHasher::new("/workspace");

    let inputs = no_inputs();
    let env = TextMap::new();

    let hash1 = hasher
        .compute_hash(&inputs, None, "npm test", &vec![], &env, &vec![])
        .unwrap();
    let hash2 = hasher
        .compute_hash(&inputs, None, "npm run test", &vec![], &env, &vec![])
        .unwrap();

    assert_ne!(hash1, hash2);
}

#[test]
fn test_compute_hash_with_deps() {
    let hasher = CacheHasher::new("/workspace");

    let inputs = no_inputs();
    let env = TextMap::new();

    let hash1 = hasher
        .compute_hash(&inputs, None, "npm test", &vec![], &env, &vec![])
        .unwrap();
    let hash2 = hasher
        .compute_hash(&inputs, None, "npm test", &vec!["abc123".to_string()], &env, &vec![])
        .unwrap();

    assert_ne!(hash1, hash2);
}

#[test]
fn test_compute_hash_with_env() {
    let hasher = CacheHasher::new("/workspace");

    let inputs = CacheInputs {
        env_vars: vec!["NODE_ENV".to_string()],
        ..no_inputs()
    };

    let mut env1 = TextMap::new();
    env1.insert("NODE_ENV".to_string(), "test".to_string());

    let mut env2 = TextMap::new();
    env2.insert("NODE_ENV".to_string(), "production".to_string());

    let hash1 = hasher
        .compute_hash(&inputs, None, "npm test", &vec![], &env1, &vec![])
        .unwrap();
    let hash2 = hasher
        .compute_hash(&inputs, None, "npm test", &vec![], &env2, &vec![])
        .unwrap();

    assert_ne!(hash1, hash2);
}

