use aster::collections::TextMap;
use aster::dev::port_cleanup::resolve_port_selection;

fn map<const N: usize>(entries: [(String, u16); N]) -> TextMap<u16> {
    let mut map = TextMap::new();
    for (key, value) in entries {
        map.insert(key, value);
    }
    map
}

#[test]
fn selection_defaults_to_all_configured_ports_and_deduplicates() {
    let configured = map([
        ("api".to_string(), 4011),
        ("alias".to_string(), 4011),
        ("web".to_string(), 3311),
    ]);
    assert_eq!(
        resolve_port_selection(&configured, &[]).unwrap(),
        vec![3311, 4011]
    );
}

#[test]
fn selection_accepts_names_and_explicit_numbers() {
    let configured = map([("api".to_string(), 4011)]);
    assert_eq!(
        resolve_port_selection(
            &configured,
            &["api".to_string(), "3311".to_string(), "4011".to_string()]
        )
        .unwrap(),
        vec![3311, 4011]
    );
}

#[test]
fn selection_rejects_unknown_names_and_zero() {
    let configured = TextMap::new();
    assert!(resolve_port_selection(&configured, &["missing".to_string()]).is_err());
    assert!(resolve_port_selection(&configured, &["0".to_string()]).is_err());
    assert!(resolve_port_selection(&configured, &[]).is_err());
}
