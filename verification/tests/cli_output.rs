use aster::cli::output::{build_execution_output, OutputMode};
use aster::executor::results::ExecutionResult;

#[test]
fn test_output_mode_equality() {
    assert_eq!(OutputMode::Json, OutputMode::Json);
    assert_ne!(OutputMode::Json, OutputMode::Normal);
}

#[test]
fn test_build_execution_output() {
    let results = vec![
        ExecutionResult {
            address: "//a:test".to_string(),
            success: true,
            skipped: false,
            cached: false,
            output: "test output".to_string(),
            duration_ms: 100,
        },
        ExecutionResult {
            address: "//b:test".to_string(),
            success: false,
            skipped: false,
            cached: false,
            output: "error".to_string(),
            duration_ms: 50,
        },
        ExecutionResult {
            address: "//c:test".to_string(),
            success: true,
            skipped: true,
            cached: false,
            output: "".to_string(),
            duration_ms: 0,
        },
    ];

    let output = build_execution_output(&results);

    assert_eq!(output.summary.total, 3);
    assert_eq!(output.summary.passed, 1);
    assert_eq!(output.summary.failed, 1);
    assert_eq!(output.summary.skipped, 1);
    assert_eq!(output.summary.duration_ms, 150);

    assert_eq!(output.results[0].status, "passed");
    assert_eq!(output.results[1].status, "failed");
    assert_eq!(output.results[2].status, "skipped");
}
