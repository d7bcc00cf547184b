use aster::executor::logs::{LogStore, RunLog, TargetLog};

#[test]
fn test_get_target_log() {
    let store = LogStore::new("/workspace");

    let run = RunLog {
        timestamp: "2024-01-01T00:00:00Z".to_string(),
        target: "test".to_string(),
        results: vec![
            TargetLog {
                address: "//a:test".to_string(),
                status: "passed".to_string(),
                exit_code: Some(0),
                duration_ms: 100,
                output: "output a".to_string(),
            },
            TargetLog {
                address: "//b:test".to_string(),
                status: "failed".to_string(),
                exit_code: Some(1),
                duration_ms: 50,
                output: "output b".to_string(),
            },
        ],
    };

    let target = store.get_target_log(Some(&run), "//a:test").unwrap();
    assert_eq!(target.address, "//a:test");
    assert_eq!(target.output, "output a");

    let target_b = store.get_target_log(Some(&run), "//b:test").unwrap();
    assert_eq!(target_b.status, "failed");

    let not_found = store.get_target_log(Some(&run), "//c:test");
    assert!(not_found.is_none());
}

#[test]
fn test_get_target_log_no_logs() {
    let store = LogStore::new("/workspace");

    let result = store.get_target_log(None, "//a:test");
    assert!(result.is_none());
}

