//! Logs of execution results
//!
//! A run's log lies at .aster/logs/latest.json for later retrieval via the
//! `aster logs` command.
use vstd::prelude::*;
use crate::executor::results::ExecutionResult;
use crate::paths::{join_path, path_join};
use crate::text::{concat2, concat3, lines_of, same_text, split_lines, texts};

verus! {

/// Complete log of a single execution run
#[derive(Debug, Clone)]
pub struct RunLog {
    /// ISO 8601 timestamp when run started
    pub timestamp: String,
    /// Target that was executed (e.g., "test")
    pub target: String,
    /// Results for each target that was run
    pub results: Vec<TargetLog>,
}

/// Log of a single target execution
#[derive(Debug)]
pub struct TargetLog {
    /// Target address (e.g., "//services/api:test")
    pub address: String,
    /// Execution status ("passed", "failed", "skipped")
    pub status: String,
    /// Exit code if available (None for skipped targets)
    pub exit_code: Option<i32>,
    /// Execution duration in milliseconds
    pub duration_ms: u128,
    /// Full stdout+stderr output
    pub output: String,
}

impl Clone for TargetLog {
    fn clone(&self) -> (copy: TargetLog)
        ensures
            copy == *self,
    {
        TargetLog {
            address: self.address.clone(),
            status: self.status.clone(),
            exit_code: self.exit_code,
            duration_ms: self.duration_ms,
            output: self.output.clone(),
        }
    }
}

/// What the log says of a result.
pub open spec fn logs_result(log: TargetLog, result: ExecutionResult) -> bool {
    &&& log.address@ == result.address@
    &&& log.status@ == (if result.skipped {
        "skipped"@
    } else if result.success {
        "passed"@
    } else {
        "failed"@
    })
    &&& log.exit_code == (if result.skipped {
        None::<i32>
    } else if result.success {
        Some(0i32)
    } else {
        Some(1i32)
    })
    &&& log.duration_ms == result.duration_ms
    &&& log.output@ == result.output@
}

/// The log of a run's results.
pub fn run_log(timestamp: String, target: &str, results: &Vec<ExecutionResult>) -> (log: RunLog)
    ensures
        log.timestamp == timestamp,
        log.target@ == target@,
        log.results@.len() == results@.len(),
        forall|i: int| 0 <= i < results@.len() ==> logs_result(#[trigger] log.results@[i], results@[i]),
{
    let mut logs: Vec<TargetLog> = Vec::new();
    let mut i: usize = 0;
    while i < results.len()
        invariant
            i <= results@.len(),
            logs@.len() == i,
            forall|k: int| 0 <= k < i ==> logs_result(#[trigger] logs@[k], results@[k]),
        decreases results@.len() - i,
    {
        let result = &results[i];
        let status = if result.skipped {
            "skipped"
        } else if result.success {
            "passed"
        } else {
            "failed"
        };
        let exit_code: Option<i32> = if result.skipped {
            None
        } else if result.success {
            Some(0)
        } else {
            Some(1)
        };
        logs.push(
            TargetLog {
                address: result.address.clone(),
                status: status.to_owned(),
                exit_code,
                duration_ms: result.duration_ms,
                output: result.output.clone(),
            },
        );
        i += 1;
    }
    RunLog { timestamp, target: target.to_owned(), results: logs }
}

/// Where the logs of a workspace lie.
#[derive(Debug, Clone)]
pub struct LogStore {
    /// Directory for log files (.aster/logs/)
    pub log_dir: String,
}

impl LogStore {
    /// Create a new LogStore for the given workspace
    pub fn new(workspace_root: &str) -> (store: LogStore)
        ensures
            store.log_dir@ == path_join(path_join(workspace_root@, ".aster"@), "logs"@),
    {
        LogStore { log_dir: join_path(&join_path(workspace_root, ".aster"), "logs") }
    }

    /// The file of the latest run's log.
    pub fn latest_path(&self) -> (path: String)
        ensures
            path@ == path_join(self.log_dir@, "latest.json"@),
    {
        join_path(&self.log_dir, "latest.json")
    }

    /// Get the log for a specific target from the latest run: the first with its address.
    pub fn get_target_log(&self, latest: Option<&RunLog>, address: &str) -> (log: Option<TargetLog>)
        ensures
            log is Some <==> latest is Some && exists|i: int|
                0 <= i < latest->0.results@.len() && (#[trigger] latest->0.results@[i]).address@ == address@,
            log matches Some(found) ==> exists|i: int|
                0 <= i < latest->0.results@.len() && found == #[trigger] latest->0.results@[i] && found.address@
                    == address@ && forall|j: int|
                    0 <= j < i ==> (#[trigger] latest->0.results@[j]).address@ != address@,
    {
        let run = match latest {
            Some(run) => run,
            None => return None,
        };
        let mut i: usize = 0;
        while i < run.results.len()
            invariant
                i <= run.results@.len(),
                latest == Some(run),
                forall|j: int| 0 <= j < i ==> (#[trigger] run.results@[j]).address@ != address@,
            decreases run.results@.len() - i,
        {
            if same_text(&run.results[i].address, address) {
                return Some(run.results[i].clone());
            }
            i += 1;
        }
        None
    }
}

/// What is shown of a target that failed.
#[derive(Debug, Clone)]
pub struct FailureReport {
    pub address: String,
    /// The lines of its output, indented
    pub lines: Vec<String>,
    /// Where to find the whole output, when it is not shown
    pub hint: Option<String>,
}

/// How many lines of a failed target's output are shown.
pub const SHOWN_LINES: usize = 15;

/// The last lines of an output or, where full logs are asked for, all of them.
pub open spec fn shown_lines(output: Seq<char>, full_logs: bool) -> Seq<Seq<char>> {
    let lines = lines_of(output);
    if full_logs || lines.len() <= SHOWN_LINES {
        lines
    } else {
        lines.skip(lines.len() - SHOWN_LINES)
    }
}

/// What is shown of a failed result.
pub open spec fn reports(report: FailureReport, result: ExecutionResult, full_logs: bool) -> bool {
    &&& report.address@ == result.address@
    &&& texts(report.lines@) == shown_lines(result.output@, full_logs).map_values(|line: Seq<char>| "    "@ + line)
    &&& report.hint is Some <==> !full_logs
    &&& report.hint is Some ==> report.hint->0@ == "Run `aster logs "@ + result.address@ + "` for full output"@
}

/// The results that failed and were not skipped.
pub open spec fn failures(results: Seq<ExecutionResult>) -> Seq<ExecutionResult> {
    results.filter(|result: ExecutionResult| !result.success && !result.skipped)
}

fn report_failure(result: &ExecutionResult, full_logs: bool) -> (report: FailureReport)
    ensures
        reports(report, *result, full_logs),
{
    let all = split_lines(&result.output);
    let ghost lines = lines_of(result.output@);
    assert(lines.len() == all@.len());
    let start: usize = if full_logs || all.len() <= SHOWN_LINES {
        0
    } else {
        all.len() - SHOWN_LINES
    };
    let ghost shown = shown_lines(result.output@, full_logs);
    assert(shown =~= lines.skip(start as int));
    let mut indented: Vec<String> = Vec::new();
    let mut i: usize = start;
    while i < all.len()
        invariant
            start <= i <= all@.len(),
            lines == texts(all@),
            indented@.len() == i - start,
            forall|k: int| 0 <= k < indented@.len() ==> (#[trigger] indented@[k])@ == "    "@ + lines[start + k],
        decreases all@.len() - i,
    {
        indented.push(concat2("    ", &all[i]));
        i += 1;
    }
    assert(texts(indented@) =~= shown.map_values(|line: Seq<char>| "    "@ + line));
    let hint = if full_logs {
        None
    } else {
        Some(concat3("Run `aster logs ", &result.address, "` for full output"))
    };
    FailureReport { address: result.address.clone(), lines: indented, hint }
}

/// What is shown of the targets that failed.
pub fn failure_reports(results: &Vec<ExecutionResult>, full_logs: bool) -> (shown: Vec<FailureReport>)
    ensures
        shown@.len() == failures(results@).len(),
        forall|i: int| 0 <= i < shown@.len() ==> reports(#[trigger] shown@[i], failures(results@)[i], full_logs),
{
    let mut shown: Vec<FailureReport> = Vec::new();
    let mut i: usize = 0;
    proof {
        reveal(Seq::filter);
        assert(results@.take(0) =~= Seq::<ExecutionResult>::empty());
    }
    while i < results.len()
        invariant
            i <= results@.len(),
            shown@.len() == failures(results@.take(i as int)).len(),
            forall|k: int|
                0 <= k < shown@.len() ==> reports(
                    #[trigger] shown@[k],
                    failures(results@.take(i as int))[k],
                    full_logs,
                ),
        decreases results@.len() - i,
    {
        let result = &results[i];
        proof {
            reveal(Seq::filter);
            assert(results@.take(i + 1).drop_last() =~= results@.take(i as int));
            assert(results@.take(i + 1).last() == *result);
        }
        if !result.success && !result.skipped {
            shown.push(report_failure(result, full_logs));
        }
        i += 1;
    }
    assert(results@.take(results@.len() as int) =~= results@);
    shown
}

/// The last lines are shown, at most fifteen of them; where full logs are asked
/// for, all are.
pub proof fn the_last_lines_are_shown(output: Seq<char>, full_logs: bool)
    ensures
        shown_lines(output, full_logs).is_suffix_of(lines_of(output)),
        full_logs ==> shown_lines(output, full_logs) == lines_of(output),
        !full_logs ==> shown_lines(output, full_logs).len() == (if lines_of(output).len() < 15 {
            lines_of(output).len()
        } else {
            15
        }),
{
    let lines = lines_of(output);
    assert(lines.skip(0) =~= lines);
    assert(lines.is_suffix_of(lines));
    if !full_logs && lines.len() > 15 {
        let shown = shown_lines(output, full_logs);
        assert(shown =~= lines.skip(lines.len() - shown.len()));
    }
}

/// A result failed where it is no success and was not skipped; those are told of, in
/// their order, and no other.
pub proof fn failures_are_told(one: Seq<ExecutionResult>, two: Seq<ExecutionResult>, result: ExecutionResult)
    ensures
        failures(one + two) == failures(one) + failures(two),
        failures(seq![result]) == (if !result.success && !result.skipped {
            seq![result]
        } else {
            Seq::empty()
        }),
{
    let failed = |result: ExecutionResult| !result.success && !result.skipped;
    Seq::filter_distributes_over_add(one, two, failed);
    assert(seq![result].filter(failed) =~= (if !result.success && !result.skipped {
        seq![result]
    } else {
        Seq::empty()
    })) by {
        reveal(Seq::filter);
        assert(seq![result].drop_last() =~= Seq::<ExecutionResult>::empty());
        assert(seq![result].drop_last().filter(failed) =~= Seq::<ExecutionResult>::empty());
        assert(seq![result].last() == result);
    }
}

/// A log says of a result what became of it, and keeps all that it printed.
pub proof fn logs_keep_results(log: TargetLog, result: ExecutionResult)
    requires
        logs_result(log, result),
    ensures
        log.address@ == result.address@,
        log.output@ == result.output@,
        result.skipped ==> log.status@ == "skipped"@ && log.exit_code is None,
        !result.skipped && result.success ==> log.status@ == "passed"@ && log.exit_code == Some(0i32),
        !result.skipped && !result.success ==> log.status@ == "failed"@ && log.exit_code == Some(1i32),
{
}

} // verus!
