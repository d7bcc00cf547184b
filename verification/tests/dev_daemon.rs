use aster::dev::daemon::{bundle_id, check_version, normalize_group, DaemonErrorCode, DEFAULT_GROUP, PROTOCOL_VERSION};
use aster::dev::supervisor::validate_runtime_directory;

#[test]
fn omitted_group_has_stable_sentinel() {
    assert_eq!(
        normalize_group(None).unwrap(),
        (DEFAULT_GROUP.to_string(), None)
    );
}

#[test]
fn protocol_rejects_unknown_version() {
    assert_ne!(99, PROTOCOL_VERSION);
    let error = check_version(99).unwrap_err();
    assert_eq!(error.code, DaemonErrorCode::UnsupportedProtocol);
    assert_eq!(error.to_string(), "daemon protocol version 1 is required");
    assert!(check_version(PROTOCOL_VERSION).is_ok());
}

#[test]
fn runtime_directory_rejects_insecure_permissions() {
    let error = validate_runtime_directory("/tmp/runtime", true, 7, 0o40755, 7).unwrap_err();
    assert_eq!(error.code, DaemonErrorCode::InsecureRuntimeDirectory);
    assert_eq!(
        error.message,
        "daemon runtime directory /tmp/runtime must be owned by effective uid 7 with mode 0700"
    );
    assert!(validate_runtime_directory("/tmp/runtime", true, 7, 0o40700, 7).is_ok());
    assert!(validate_runtime_directory("/tmp/runtime", true, 8, 0o40700, 7).is_err());
    assert!(validate_runtime_directory("/tmp/runtime", false, 7, 0o100700, 7).is_err());
}

#[test]
fn canonical_bundle_id_is_stable_and_group_scoped() {
    let canonical = "/tmp/workspace";
    assert_eq!(
        bundle_id(canonical, DEFAULT_GROUP),
        bundle_id(canonical, DEFAULT_GROUP)
    );
    assert_ne!(
        bundle_id(canonical, DEFAULT_GROUP),
        bundle_id(canonical, "api")
    );
}
