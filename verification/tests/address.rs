use aster::address::{Address, ProjectSelector};

#[test]
fn test_parse_simple_path() {
    let addr = Address::parse("//services/api").unwrap();
    assert_eq!(addr.path, "services/api".to_string());
    assert_eq!(addr.target, None);
}

#[test]
fn test_parse_with_target() {
    let addr = Address::parse("//services/api:build").unwrap();
    assert_eq!(addr.path, "services/api".to_string());
    assert_eq!(addr.target, Some("build".to_string()));
}

#[test]
fn test_parse_nested_path() {
    let addr = Address::parse("//src/ts/platform-sdk/examples/nextjs:dev").unwrap();
    assert_eq!(
        addr.path,
        "src/ts/platform-sdk/examples/nextjs".to_string()
    );
    assert_eq!(addr.target, Some("dev".to_string()));
}

#[test]
fn test_parse_recursive_glob() {
    let addr = Address::parse("//services/...").unwrap();
    assert_eq!(addr.path, "services/...".to_string());
    assert!(addr.is_recursive());
}

#[test]
fn test_parse_root_glob() {
    let addr = Address::parse("//...").unwrap();
    assert_eq!(addr.path, "...".to_string());
    assert!(addr.is_recursive());
}

#[test]
fn test_parse_invalid_no_prefix() {
    let result = Address::parse("services/api");
    assert!(result.is_err());
    assert!(result
        .unwrap_err()
        .to_string()
        .contains("must start with //"));
}

#[test]
fn project_selectors_match_exact_prefix_and_all() {
    assert!(ProjectSelector::parse("//services/api")
        .unwrap()
        .matches("//services/api"));
    assert!(!ProjectSelector::parse("//services/api")
        .unwrap()
        .matches("//services/api/web"));
    assert!(ProjectSelector::parse("//services/...")
        .unwrap()
        .matches("//services/api/web"));
    assert!(ProjectSelector::parse("//...")
        .unwrap()
        .matches("//services/api"));
    assert!(ProjectSelector::parse("//services/...")
        .unwrap()
        .matches("//services\\api"));
}

#[test]
fn project_selectors_reject_paths_targets_and_malformed_recursion() {
    for selector in [
        "services/api",
        "//services/api:test",
        "//services/.../api",
        "//services/",
    ] {
        assert!(ProjectSelector::parse(selector).is_err(), "{selector}");
    }
}

#[test]
fn test_display_without_target() {
    let addr = Address {
        path: "services/api".to_string(),
        target: None,
    };
    assert_eq!(addr.to_string(), "//services/api");
}

#[test]
fn test_display_with_target() {
    let addr = Address {
        path: "services/api".to_string(),
        target: Some("build".to_string()),
    };
    assert_eq!(addr.to_string(), "//services/api:build");
}
