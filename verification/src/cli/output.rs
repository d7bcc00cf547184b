//! Output formatting
//!
//! Provides OutputMode enum for controlling output format and the values that
//! CLI commands show.
use vstd::prelude::*;
use crate::collections::TextMap;
use crate::executor::results::ExecutionResult;
use crate::numbers::{decimal, decimal_text};
use crate::text::{concat2, concat3, concat4, texts};

verus! {

/// Output mode for CLI commands
#[derive(Debug, Clone, Copy, PartialEq, Eq, Structural)]
pub enum OutputMode {
    /// Normal output (default)
    Normal,
    /// Verbose output with diagnostics
    Verbose,
    /// Quiet output (minimal)
    Quiet,
    /// JSON output for machine consumption
    Json,
}

/// Project information for JSON output (list command)
#[derive(Debug)]
pub struct ProjectInfo {
    /// Project address (e.g., "//services/api")
    pub address: String,
    /// Relative path from workspace root
    pub path: String,
    /// Internal plugin that discovered and executes this project
    pub plugin: String,
    /// Source languages used by the project
    pub languages: Vec<String>,
    /// Build system used by the project, when distinct from its language
    pub build_system: Option<String>,
    /// Available targets and their commands
    pub targets: TextMap<String>,
}

/// Graph output for JSON (graph command)
#[derive(Debug)]
pub struct GraphOutput {
    /// All target addresses in the graph
    pub nodes: Vec<String>,
    /// Adjacency list: target -> dependencies
    pub edges: TextMap<Vec<String>>,
}

/// Why command output for JSON
#[derive(Debug, Clone)]
pub struct WhyOutput {
    /// Source target
    pub from: String,
    /// Destination target
    pub to: String,
    /// Path from source to destination (None if no path found)
    pub path: Option<Vec<String>>,
}

/// Execution output for JSON (run/affected commands)
#[derive(Debug)]
pub struct ExecutionOutput {
    /// Results per target
    pub results: Vec<TargetResult>,
    /// Execution summary
    pub summary: ExecutionSummary,
}

/// Result of executing a single target
#[derive(Debug, Clone)]
pub struct TargetResult {
    /// Target address
    pub address: String,
    /// Execution status
    pub status: String,
    /// Whether result was from cache
    pub cached: bool,
    /// Exit code (None if skipped or cached)
    pub exit_code: Option<i32>,
    /// Duration in milliseconds
    pub duration_ms: u128,
    /// Output (stdout + stderr)
    pub output: Option<String>,
}

/// Summary of execution results
#[derive(Debug, Clone, Copy, PartialEq, Eq)]
pub struct ExecutionSummary {
    /// Total number of targets
    pub total: usize,
    /// Number of targets that passed
    pub passed: usize,
    /// Number of targets that failed
    pub failed: usize,
    /// Number of targets that were skipped
    pub skipped: usize,
    /// Number of targets that hit cache
    pub cached: usize,
    /// Total duration in milliseconds
    pub duration_ms: u128,
}

/// A target passed when it ran and succeeded.
pub open spec fn passed(result: ExecutionResult) -> bool {
    result.success && !result.skipped && !result.cached
}

/// How many results are such.
pub open spec fn count_of(results: Seq<ExecutionResult>, such: spec_fn(ExecutionResult) -> bool) -> nat
    decreases results.len(),
{
    if results.len() == 0 {
        0
    } else {
        count_of(results.drop_last(), such) + (if such(results.last()) {
            1nat
        } else {
            0nat
        })
    }
}

/// The time that all results took together.
pub open spec fn total_duration(results: Seq<ExecutionResult>) -> nat
    decreases results.len(),
{
    if results.len() == 0 {
        0
    } else {
        total_duration(results.drop_last()) + results.last().duration_ms as nat
    }
}

proof fn total_duration_grows(results: Seq<ExecutionResult>, count: int)
    requires
        0 <= count <= results.len(),
    ensures
        total_duration(results.take(count)) <= total_duration(results),
    decreases results.len() - count,
{
    if count < results.len() {
        assert(results.take(count + 1).drop_last() =~= results.take(count));
        total_duration_grows(results, count + 1);
    } else {
        assert(results.take(count) =~= results);
    }
}

/// The summary counts the results and adds up their time.
pub open spec fn summarizes(summary: ExecutionSummary, results: Seq<ExecutionResult>) -> bool {
    &&& summary.total == results.len()
    &&& summary.passed == count_of(results, |r: ExecutionResult| passed(r))
    &&& summary.failed == count_of(results, |r: ExecutionResult| !r.success)
    &&& summary.skipped == count_of(results, |r: ExecutionResult| r.skipped)
    &&& summary.cached == count_of(results, |r: ExecutionResult| r.cached)
    &&& summary.duration_ms == total_duration(results)
}

/// Counts results and adds up their time.
pub fn summarize(results: &Vec<ExecutionResult>) -> (summary: ExecutionSummary)
    requires
        total_duration(results@) <= u128::MAX,
    ensures
        summarizes(summary, results@),
{
    let mut summary = ExecutionSummary { total: 0, passed: 0, failed: 0, skipped: 0, cached: 0, duration_ms: 0 };
    let mut i: usize = 0;
    assert(results@.take(0) =~= Seq::<ExecutionResult>::empty());
    while i < results.len()
        invariant
            total_duration(results@) <= u128::MAX,
            i <= results@.len(),
            summarizes(summary, results@.take(i as int)),
            summary.passed <= i,
            summary.failed <= i,
            summary.skipped <= i,
            summary.cached <= i,
        decreases results@.len() - i,
    {
        let result = &results[i];
        proof {
            assert(results@.take(i + 1).drop_last() =~= results@.take(i as int));
            assert(results@.take(i + 1).last() == *result);
            total_duration_grows(results@, i + 1);
        }
        summary.total = summary.total + 1;
        if result.success && !result.skipped && !result.cached {
            summary.passed = summary.passed + 1;
        }
        if !result.success {
            summary.failed = summary.failed + 1;
        }
        if result.skipped {
            summary.skipped = summary.skipped + 1;
        }
        if result.cached {
            summary.cached = summary.cached + 1;
        }
        summary.duration_ms = summary.duration_ms + result.duration_ms;
        i += 1;
    }
    assert(results@.take(results@.len() as int) =~= results@);
    summary
}

/// The status of a result in one word.
pub open spec fn status_of(result: ExecutionResult) -> Seq<char> {
    if result.skipped {
        "skipped"@
    } else if result.cached {
        "cached"@
    } else if result.success {
        "passed"@
    } else {
        "failed"@
    }
}

/// What is shown of a result.
pub open spec fn shows(shown: TargetResult, result: ExecutionResult) -> bool {
    &&& shown.address@ == result.address@
    &&& shown.status@ == status_of(result)
    &&& shown.cached == result.cached
    &&& shown.exit_code == (if result.skipped || result.cached {
        None::<i32>
    } else if result.success {
        Some(0i32)
    } else {
        Some(1i32)
    })
    &&& shown.duration_ms == result.duration_ms
    &&& shown.output is None <==> result.output@.len() == 0
    &&& shown.output is Some ==> shown.output->0@ == result.output@
}

/// Build ExecutionOutput from execution results
pub fn build_execution_output(results: &Vec<ExecutionResult>) -> (output: ExecutionOutput)
    requires
        total_duration(results@) <= u128::MAX,
    ensures
        output.results@.len() == results@.len(),
        forall|i: int| 0 <= i < results@.len() ==> shows(#[trigger] output.results@[i], results@[i]),
        summarizes(output.summary, results@),
{
    let mut shown: Vec<TargetResult> = Vec::new();
    let mut i: usize = 0;
    while i < results.len()
        invariant
            i <= results@.len(),
            shown@.len() == i,
            forall|k: int| 0 <= k < i ==> shows(#[trigger] shown@[k], results@[k]),
        decreases results@.len() - i,
    {
        let result = &results[i];
        let status = if result.skipped {
            "skipped"
        } else if result.cached {
            "cached"
        } else if result.success {
            "passed"
        } else {
            "failed"
        };
        let exit_code: Option<i32> = if result.skipped || result.cached {
            None
        } else if result.success {
            Some(0)
        } else {
            Some(1)
        };
        let output = if result.output.as_str().is_empty() {
            None
        } else {
            Some(result.output.clone())
        };
        shown.push(
            TargetResult {
                address: result.address.clone(),
                status: status.to_owned(),
                cached: result.cached,
                exit_code,
                duration_ms: result.duration_ms,
                output,
            },
        );
        i += 1;
    }
    ExecutionOutput { results: shown, summary: summarize(results) }
}

/// ", N cached", where there are any.
pub open spec fn cached_part(cached: nat) -> Seq<char> {
    if cached > 0 {
        ", "@ + decimal(cached) + " cached"@
    } else {
        Seq::empty()
    }
}

/// "N passed, N cached, N failed", as far as there is something to say.
pub open spec fn quiet_line(summary: ExecutionSummary) -> Seq<char> {
    let line = decimal(summary.passed as nat) + " passed"@ + cached_part(summary.cached as nat);
    if summary.failed > 0 {
        line + ", "@ + decimal(summary.failed as nat) + " failed"@
    } else {
        line
    }
}

/// The line that says what ran on how many projects, and with what success.
pub open spec fn ran_line(summary: ExecutionSummary, target: Seq<char>, is_affected: bool) -> Seq<char> {
    let context = if is_affected {
        "affected projects"@
    } else {
        "projects"@
    };
    let line = "Ran '"@ + target + "' on "@ + decimal(summary.total as nat) + " "@ + context + ": "@ + decimal(
        summary.passed as nat,
    ) + " passed"@ + cached_part(summary.cached as nat) + ", "@ + decimal(summary.failed as nat) + " failed"@;
    if summary.skipped > 0 {
        line + ", "@ + decimal(summary.skipped as nat) + " skipped (no target)"@
    } else {
        line
    }
}

/// A line for each result without success.
pub open spec fn failed_lines(results: Seq<ExecutionResult>) -> Seq<Seq<char>>
    decreases results.len(),
{
    if results.len() == 0 {
        Seq::empty()
    } else if results.last().success {
        failed_lines(results.drop_last())
    } else {
        failed_lines(results.drop_last()).push("  - "@ + results.last().address@)
    }
}

/// The lines of a summary.
pub open spec fn summary_text(
    summary: ExecutionSummary,
    results: Seq<ExecutionResult>,
    target: Seq<char>,
    mode: OutputMode,
    is_affected: bool,
) -> Seq<Seq<char>> {
    match mode {
        OutputMode::Json => Seq::empty(),
        OutputMode::Quiet => seq![quiet_line(summary)],
        _ => {
            let lines = seq![
                "\n=== Summary ==="@,
                ran_line(summary, target, is_affected),
                "Total time: "@ + decimal(summary.duration_ms as nat) + "ms"@,
            ];
            if summary.failed > 0 {
                lines.push("\nFailed projects:"@) + failed_lines(results)
            } else {
                lines
            }
        },
    }
}

fn cached_text(cached: usize) -> (text: String)
    ensures
        text@ == cached_part(cached as nat),
{
    if cached > 0 {
        concat3(", ", &decimal_text(cached as u128), " cached")
    } else {
        String::new()
    }
}

fn push_line(lines: &mut Vec<String>, line: String)
    ensures
        texts(final(lines)@) == texts(old(lines)@).push(line@),
{
    let ghost before = texts(lines@);
    let ghost text = line@;
    lines.push(line);
    assert(texts(lines@) =~= before.push(text));
}

/// The lines of a summary for an output mode: none for JSON, which is shown
/// on its own; one for quiet mode, which goes to standard error.
pub fn summary_lines(
    results: &Vec<ExecutionResult>,
    target: &str,
    mode: OutputMode,
    is_affected: bool,
) -> (lines: Vec<String>)
    requires
        total_duration(results@) <= u128::MAX,
    ensures
        exists|summary: ExecutionSummary|
            summarizes(summary, results@) && texts(lines@) == #[trigger] summary_text(
                summary,
                results@,
                target@,
                mode,
                is_affected,
            ),
{
    let summary = summarize(results);
    let mut lines: Vec<String> = Vec::new();
    assert(texts(lines@) =~= Seq::<Seq<char>>::empty());
    match mode {
        OutputMode::Json => {
            assert(texts(lines@) =~= summary_text(summary, results@, target@, mode, is_affected));
            return lines;
        },
        OutputMode::Quiet => {
            let mut line = concat3(&decimal_text(summary.passed as u128), " passed", &cached_text(summary.cached));
            if summary.failed > 0 {
                line = concat4(&line, ", ", &decimal_text(summary.failed as u128), " failed");
            }
            push_line(&mut lines, line);
            assert(texts(lines@) =~= summary_text(summary, results@, target@, mode, is_affected));
            return lines;
        },
        _ => {},
    }
    push_line(&mut lines, "\n=== Summary ===".to_owned());
    let context = if is_affected {
        "affected projects"
    } else {
        "projects"
    };
    let mut line = concat4("Ran '", target, "' on ", &decimal_text(summary.total as u128));
    line = concat4(&line, " ", context, ": ");
    line = concat4(&line, &decimal_text(summary.passed as u128), " passed", &cached_text(summary.cached));
    line = concat4(&line, ", ", &decimal_text(summary.failed as u128), " failed");
    if summary.skipped > 0 {
        line = concat4(&line, ", ", &decimal_text(summary.skipped as u128), " skipped (no target)");
    }
    assert(line@ =~= ran_line(summary, target@, is_affected));
    push_line(&mut lines, line);
    push_line(&mut lines, concat3("Total time: ", &decimal_text(summary.duration_ms), "ms"));
    if summary.failed > 0 {
        push_line(&mut lines, "\nFailed projects:".to_owned());
        let ghost head = texts(lines@);
        let mut i: usize = 0;
        assert(results@.take(0) =~= Seq::<ExecutionResult>::empty());
        assert(head + failed_lines(results@.take(0)) =~= head);
        while i < results.len()
            invariant
                i <= results@.len(),
                texts(lines@) == head + failed_lines(results@.take(i as int)),
            decreases results@.len() - i,
        {
            let result = &results[i];
            proof {
                assert(results@.take(i + 1).drop_last() =~= results@.take(i as int));
                assert(results@.take(i + 1).last() == *result);
            }
            if !result.success {
                push_line(&mut lines, concat2("  - ", &result.address));
                assert(texts(lines@) =~= head + failed_lines(results@.take(i + 1)));
            }
            i += 1;
        }
        assert(results@.take(results@.len() as int) =~= results@);
    }
    assert(texts(lines@) =~= summary_text(summary, results@, target@, mode, is_affected));
    lines
}

/// Every result is counted as passed, as failed, or as a success that was
/// skipped or came from the cache.
pub proof fn summary_covers_results(results: Seq<ExecutionResult>)
    ensures
        count_of(results, |r: ExecutionResult| passed(r)) + count_of(results, |r: ExecutionResult| !r.success)
            + count_of(results, |r: ExecutionResult| r.success && (r.skipped || r.cached)) == results.len(),
    decreases results.len(),
{
    if results.len() > 0 {
        summary_covers_results(results.drop_last());
    }
}

/// Results one behind the other are counted, added up and listed one behind the
/// other: each counts once, whatever stands around it.
pub proof fn results_add_up(
    one: Seq<ExecutionResult>,
    two: Seq<ExecutionResult>,
    such: spec_fn(ExecutionResult) -> bool,
)
    ensures
        count_of(one + two, such) == count_of(one, such) + count_of(two, such),
        total_duration(one + two) == total_duration(one) + total_duration(two),
        failed_lines(one + two) == failed_lines(one) + failed_lines(two),
    decreases two.len(),
{
    if two.len() == 0 {
        assert(one + two =~= one);
        assert(failed_lines(one) + failed_lines(two) =~= failed_lines(one));
    } else {
        results_add_up(one, two.drop_last(), such);
        assert((one + two).drop_last() =~= one + two.drop_last());
        assert((one + two).last() == two.last());
        assert(failed_lines(one + two) =~= failed_lines(one) + failed_lines(two));
    }
}

/// A single result counts where it is such, takes its own time, and is listed
/// by its address where it failed.
pub proof fn a_single_result(result: ExecutionResult, such: spec_fn(ExecutionResult) -> bool)
    ensures
        count_of(seq![result], such) == (if such(result) {
            1nat
        } else {
            0nat
        }),
        total_duration(seq![result]) == result.duration_ms,
        failed_lines(seq![result]) == (if result.success {
            Seq::<Seq<char>>::empty()
        } else {
            seq!["  - "@ + result.address@]
        }),
{
    let results = seq![result];
    assert(results.drop_last() =~= Seq::<ExecutionResult>::empty());
    assert(results.last() == result);
    assert(count_of(results.drop_last(), such) == 0);
    assert(total_duration(results.drop_last()) == 0);
    assert(failed_lines(results.drop_last()) =~= Seq::<Seq<char>>::empty());
    assert(failed_lines(results) =~= (if result.success {
        Seq::<Seq<char>>::empty()
    } else {
        seq!["  - "@ + result.address@]
    }));
}

/// A skipped result is shown as skipped, one from the cache as cached, and of the
/// others each as it ended.
pub proof fn results_are_shown_as_they_ended(result: ExecutionResult)
    ensures
        result.skipped ==> status_of(result) == "skipped"@,
        !result.skipped && result.cached ==> status_of(result) == "cached"@,
        !result.skipped && !result.cached && result.success ==> status_of(result) == "passed"@,
        !result.skipped && !result.cached && !result.success ==> status_of(result) == "failed"@,
{
}

/// A result is shown with its own output and time, and with an exit code only where it
/// ran.
pub proof fn shown_results(shown: TargetResult, result: ExecutionResult)
    requires
        shows(shown, result),
    ensures
        shown.address@ == result.address@,
        shown.duration_ms == result.duration_ms,
        shown.output matches Some(text) ==> text@ == result.output@,
        shown.output is None ==> result.output@.len() == 0,
        result.skipped || result.cached ==> shown.exit_code is None,
        !result.skipped && !result.cached && result.success ==> shown.exit_code == Some(0i32),
        !result.skipped && !result.cached && !result.success ==> shown.exit_code == Some(1i32),
{
}

/// A summary names what failed where something did, and only there; the quiet one is a
/// single line and the machine's has none.
pub proof fn summaries_name_what_failed(
    summary: ExecutionSummary,
    results: Seq<ExecutionResult>,
    target: Seq<char>,
    is_affected: bool,
)
    ensures
        summary_text(summary, results, target, OutputMode::Json, is_affected).len() == 0,
        summary_text(summary, results, target, OutputMode::Quiet, is_affected).len() == 1,
        summary.failed > 0 ==> failed_lines(results).is_suffix_of(
            summary_text(summary, results, target, OutputMode::Normal, is_affected),
        ),
        summary.failed > 0 ==> summary_text(summary, results, target, OutputMode::Normal, is_affected).len() == 4
            + failed_lines(results).len(),
        summary.failed == 0 ==> summary_text(summary, results, target, OutputMode::Normal, is_affected).len() == 3,
        summary_text(summary, results, target, OutputMode::Verbose, is_affected) == summary_text(
            summary,
            results,
            target,
            OutputMode::Normal,
            is_affected,
        ),
{
    let lines = summary_text(summary, results, target, OutputMode::Normal, is_affected);
    let failed = failed_lines(results);
    if summary.failed > 0 {
        assert(failed =~= lines.skip(lines.len() - failed.len()));
    }
}

/// A summary says that something failed where a result is no success, and only there,
/// and it counts every result.
pub proof fn summaries_count_failures(summary: ExecutionSummary, results: Seq<ExecutionResult>)
    requires
        summarizes(summary, results),
    ensures
        summary.total == results.len(),
        summary.failed == 0 <==> forall|i: int| 0 <= i < results.len() ==> (#[trigger] results[i]).success,
        summary.skipped == 0 <==> forall|i: int| 0 <= i < results.len() ==> !(#[trigger] results[i]).skipped,
        summary.cached == 0 <==> forall|i: int| 0 <= i < results.len() ==> !(#[trigger] results[i]).cached,
        summary.passed == 0 <==> forall|i: int|
            0 <= i < results.len() ==> !((#[trigger] results[i]).success && !results[i].skipped && !results[i].cached),
{
    none_is_counted(results, |r: ExecutionResult| !r.success);
    none_is_counted(results, |r: ExecutionResult| r.skipped);
    none_is_counted(results, |r: ExecutionResult| r.cached);
    none_is_counted(results, |r: ExecutionResult| passed(r));
    let failed = |r: ExecutionResult| !r.success;
    let skipped = |r: ExecutionResult| r.skipped;
    let cached = |r: ExecutionResult| r.cached;
    let good = |r: ExecutionResult| passed(r);
    if summary.failed == 0 {
        assert forall|i: int| 0 <= i < results.len() implies (#[trigger] results[i]).success by {
            assert(!failed(results[i]));
        }
    }
    if summary.skipped == 0 {
        assert forall|i: int| 0 <= i < results.len() implies !(#[trigger] results[i]).skipped by {
            assert(!skipped(results[i]));
        }
    }
    if summary.cached == 0 {
        assert forall|i: int| 0 <= i < results.len() implies !(#[trigger] results[i]).cached by {
            assert(!cached(results[i]));
        }
    }
    if summary.passed == 0 {
        assert forall|i: int| 0 <= i < results.len() implies !((#[trigger] results[i]).success && !results[i].skipped
            && !results[i].cached) by {
            assert(!good(results[i]));
        }
    }
}

proof fn none_is_counted(results: Seq<ExecutionResult>, such: spec_fn(ExecutionResult) -> bool)
    ensures
        count_of(results, such) == 0 <==> forall|i: int| 0 <= i < results.len() ==> !such(#[trigger] results[i]),
    decreases results.len(),
{
    if results.len() > 0 {
        let front = results.drop_last();
        none_is_counted(front, such);
        assert(results[results.len() - 1] == results.last());
        assert(forall|i: int| 0 <= i < front.len() ==> #[trigger] front[i] == results[i]);
        if count_of(front, such) == 0 {
            assert forall|i: int| 0 <= i < front.len() implies !such(#[trigger] results[i]) by {
                assert(front[i] == results[i]);
            }
        } else {
            let i = choose|i: int| 0 <= i < front.len() && such(#[trigger] front[i]);
            assert(such(results[i]));
        }
    }
}

} // verus!
