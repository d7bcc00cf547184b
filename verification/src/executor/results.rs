//! What comes of running a target.
use vstd::prelude::*;
use vstd::utf8::{decode_utf8, valid_utf8};
use crate::executor::command::{leading_assignments, parse_command, shell_split, CommandError, ParsedCommand};
use crate::text::{chars_of, concat2, concat3, decode_lossy, lossy_text};

verus! {

/// Result of executing a target command on a project
#[derive(Debug)]
pub struct ExecutionResult {
    /// Target address (//path/to/project:target)
    pub address: String,
    /// Whether the command succeeded (exit code 0)
    pub success: bool,
    /// Whether the project was skipped (no target defined)
    pub skipped: bool,
    /// Whether execution was skipped due to cache hit
    pub cached: bool,
    /// Combined stdout+stderr output
    pub output: String,
    /// Execution duration in milliseconds
    pub duration_ms: u128,
}

impl Clone for ExecutionResult {
    fn clone(&self) -> (copy: ExecutionResult)
        ensures
            copy == *self,
    {
        ExecutionResult {
            address: self.address.clone(),
            success: self.success,
            skipped: self.skipped,
            cached: self.cached,
            output: self.output.clone(),
            duration_ms: self.duration_ms,
        }
    }
}

/// The fields of a result, its strings as characters.
pub struct ResultView {
    pub address: Seq<char>,
    pub success: bool,
    pub skipped: bool,
    pub cached: bool,
    pub output: Seq<char>,
    pub duration_ms: u128,
}

impl View for ExecutionResult {
    type V = ResultView;

    open spec fn view(&self) -> ResultView {
        ResultView {
            address: self.address@,
            success: self.success,
            skipped: self.skipped,
            cached: self.cached,
            output: self.output@,
            duration_ms: self.duration_ms,
        }
    }
}

/// The fields of each result of a list.
pub open spec fn result_views(results: Seq<ExecutionResult>) -> Seq<ResultView> {
    results.map_values(|result: ExecutionResult| result@)
}

/// A target that did not run and counts as failed.
pub open spec fn failed_view(address: Seq<char>, output: Seq<char>, duration_ms: u128) -> ResultView {
    ResultView { address, success: false, skipped: false, cached: false, output, duration_ms }
}

/// A result without success, neither skipped nor from the cache.
pub fn failed_result(address: &str, output: String, duration_ms: u128) -> (result: ExecutionResult)
    ensures
        result@ == failed_view(address@, output@, duration_ms),
{
    ExecutionResult { address: address.to_owned(), success: false, skipped: false, cached: false, output, duration_ms }
}

/// The result of a target that its project does not define.
pub open spec fn skipped_view(address: Seq<char>, target_name: Seq<char>) -> ResultView {
    ResultView {
        address,
        success: true,
        skipped: true,
        cached: false,
        output: "Skipped: no '"@ + target_name + "' target defined"@,
        duration_ms: 0,
    }
}

/// The result of a target that its project does not define: not an error, just skipped.
pub fn skipped_result(address: &str, target_name: &str) -> (result: ExecutionResult)
    ensures
        result@ == skipped_view(address@, target_name@),
{
    ExecutionResult {
        address: address.to_owned(),
        success: true,
        skipped: true,
        cached: false,
        output: concat3("Skipped: no '", target_name, "' target defined"),
        duration_ms: 0,
    }
}

/// The result of a target whose inputs have not changed since its last success.
pub open spec fn cached_view(address: Seq<char>) -> ResultView {
    ResultView { address, success: true, skipped: false, cached: true, output: Seq::empty(), duration_ms: 0 }
}

/// The result of a target whose inputs have not changed since its last success.
pub fn cached_result(address: &str) -> (result: ExecutionResult)
    ensures
        result@ == cached_view(address@),
{
    ExecutionResult {
        address: address.to_owned(),
        success: true,
        skipped: false,
        cached: true,
        output: String::new(),
        duration_ms: 0,
    }
}

/// The result of a target that a shutdown kept from starting.
pub open spec fn cancelled_view(address: Seq<char>) -> ResultView {
    ResultView {
        address,
        success: false,
        skipped: true,
        cached: false,
        output: "Cancelled: shutdown requested"@,
        duration_ms: 0,
    }
}

/// The result of a target that a shutdown kept from starting.
pub fn cancelled_result(address: &str) -> (result: ExecutionResult)
    ensures
        result@ == cancelled_view(address@),
{
    ExecutionResult {
        address: address.to_owned(),
        success: false,
        skipped: true,
        cached: false,
        output: "Cancelled: shutdown requested".to_owned(),
        duration_ms: 0,
    }
}

/// What a result becomes where a shutdown was requested while the command ran.
pub open spec fn settled_view(result: ResultView, shutdown: bool) -> ResultView {
    if shutdown {
        ResultView {
            success: false,
            skipped: true,
            output: if result.output.len() == 0 {
                "Cancelled: shutdown requested"@
            } else {
                result.output + "\nCancelled: shutdown requested"@
            },
            ..result
        }
    } else {
        result
    }
}

/// What a result becomes where a shutdown was requested while the command ran.
pub fn settle_result(result: ExecutionResult, shutdown: bool) -> (settled: ExecutionResult)
    ensures
        settled@ == settled_view(result@, shutdown),
{
    if !shutdown {
        return result;
    }
    let output = if result.output.as_str().is_empty() {
        "Cancelled: shutdown requested".to_owned()
    } else {
        concat2(&result.output, "\nCancelled: shutdown requested")
    };
    ExecutionResult {
        address: result.address,
        success: false,
        skipped: true,
        cached: result.cached,
        output,
        duration_ms: result.duration_ms,
    }
}

/// Standard output followed by standard error, on lines of their own.
pub open spec fn combined(stdout: Seq<char>, stderr: Seq<char>) -> Seq<char> {
    if stdout.len() > 0 && stderr.len() > 0 && stdout.last() != '\n' {
        stdout + "\n"@ + stderr
    } else {
        stdout + stderr
    }
}

/// Standard output followed by standard error, on lines of their own.
pub fn combine_output(stdout: &str, stderr: &str) -> (output: String)
    ensures
        output@ == combined(stdout@, stderr@),
{
    let chars = chars_of(stdout);
    if chars.len() > 0 && !stderr.is_empty() && chars[chars.len() - 1] != '\n' {
        concat3(stdout, "\n", stderr)
    } else {
        concat2(stdout, stderr)
    }
}

/// How a command came to its end.
pub enum CommandEnd {
    /// The process ran
    Exited { success: bool, stdout: Vec<u8>, stderr: Vec<u8> },
    /// The process could not be started or waited for
    Failed(String),
}

/// The result of a command that came to its end.
pub open spec fn ended_view(address: Seq<char>, end: CommandEnd, duration_ms: u128) -> ResultView {
    match end {
        CommandEnd::Exited { success, stdout, stderr } => ResultView {
            address,
            success,
            skipped: false,
            cached: false,
            output: combined(lossy_text(stdout@), lossy_text(stderr@)),
            duration_ms,
        },
        CommandEnd::Failed(error) => failed_view(address, "Failed to execute command: "@ + error@, duration_ms),
    }
}

/// The result of a command that came to its end.
pub fn ended_result(address: &str, end: &CommandEnd, duration_ms: u128) -> (result: ExecutionResult)
    ensures
        result@ == ended_view(address@, *end, duration_ms),
        end matches CommandEnd::Exited { success, stdout, stderr } ==> (valid_utf8(stdout@) && valid_utf8(stderr@)
            ==> result@.output == combined(decode_utf8(stdout@), decode_utf8(stderr@))),
{
    match end {
        CommandEnd::Exited { success, stdout, stderr } => ExecutionResult {
            address: address.to_owned(),
            success: *success,
            skipped: false,
            cached: false,
            output: combine_output(&decode_lossy(stdout.as_slice()), &decode_lossy(stderr.as_slice())),
            duration_ms,
        },
        CommandEnd::Failed(error) => failed_result(address, concat2("Failed to execute command: ", error), duration_ms),
    }
}

/// The process to start for a command or, where there is none, the result that says why.
pub fn prepare_parsed(address: &str, parsed: Result<ParsedCommand, CommandError>) -> (prepared: Result<
    ParsedCommand,
    ExecutionResult,
>)
    ensures
        match parsed {
            Err(error) => prepared is Err && prepared->Err_0@ == failed_view(address@, error.message(), 0),
            Ok(command) => if command.program@.len() == 0 {
                prepared is Err && prepared->Err_0@ == failed_view(address@, "Empty command"@, 0)
            } else {
                prepared == Ok::<ParsedCommand, ExecutionResult>(command)
            },
        },
{
    match parsed {
        Err(error) => Err(failed_result(address, error.to_string(), 0)),
        Ok(command) => {
            if command.program.as_str().is_empty() {
                Err(failed_result(address, "Empty command".to_owned(), 0))
            } else {
                Ok(command)
            }
        },
    }
}

/// The process to start for a command string or, where there is none, the
/// result that says why.
pub fn prepare_command(address: &str, command: &str) -> (prepared: Result<ParsedCommand, ExecutionResult>)
    ensures
        prepared is Ok ==> shell_split(command@) is Some && crate::executor::command::command_of(
            shell_split(command@)->0,
            prepared->Ok_0,
        ) && prepared->Ok_0.program@.len() > 0,
        shell_split(command@) is None ==> prepared is Err && prepared->Err_0@ == failed_view(
            address@,
            "invalid command quoting: "@ + command@,
            0,
        ),
        shell_split(command@) matches Some(words) ==> {
            let count = leading_assignments(words);
            &&& words.len() == 0 ==> prepared is Err && prepared->Err_0@ == failed_view(
                address@,
                "empty command"@,
                0,
            )
            &&& words.len() > 0 && count == words.len() ==> prepared is Err && prepared->Err_0@ == failed_view(
                address@,
                "empty command (only environment variables)"@,
                0,
            )
            &&& 0 <= count < words.len() && words[count].len() == 0 ==> prepared is Err && prepared->Err_0@
                == failed_view(address@, "Empty command"@, 0)
            &&& 0 <= count < words.len() && words[count].len() > 0 ==> prepared is Ok
        },
{
    prepare_parsed(address, parse_command(command))
}

/// A result holds what a command wrote to both outputs, standard error behind the
/// rest and on a line of its own.
pub proof fn both_outputs_are_kept(stdout: Seq<char>, stderr: Seq<char>)
    ensures
        stdout.is_prefix_of(combined(stdout, stderr)),
        stderr.is_suffix_of(combined(stdout, stderr)),
        combined(stdout, stderr).len() <= stdout.len() + stderr.len() + 1,
        stdout.len() > 0 && stderr.len() > 0 ==> combined(stdout, stderr)[combined(stdout, stderr).len() - stderr.len() - 1]
            == '\n',
        stderr.len() == 0 ==> combined(stdout, stderr) == stdout,
{
    reveal_strlit("\n");
    let all = combined(stdout, stderr);
    assert(stdout =~= all.take(stdout.len() as int));
    assert(stderr =~= all.skip(all.len() - stderr.len()));
    if stderr.len() == 0 {
        assert(all =~= stdout);
    }
}

/// What a shutdown interrupted is no success, whatever the command returned; what
/// it did not interrupt stays as it was.
pub proof fn interrupted_results_are_no_success(result: ResultView)
    ensures
        !settled_view(result, true).success,
        settled_view(result, true).skipped,
        settled_view(result, true).address == result.address,
        result.output.is_prefix_of(settled_view(result, true).output),
        settled_view(result, false) == result,
{
    let output = settled_view(result, true).output;
    assert(result.output =~= output.take(result.output.len() as int));
}

/// A command is a success where it says so itself; one that could not be run is a
/// failure; and a target without a command is skipped as no failure.
pub proof fn results_say_how_commands_ended(
    address: Seq<char>,
    name: Seq<char>,
    success: bool,
    stdout: Vec<u8>,
    stderr: Vec<u8>,
    error: String,
    duration_ms: u128,
)
    ensures
        ended_view(address, CommandEnd::Exited { success, stdout, stderr }, duration_ms).success == success,
        !ended_view(address, CommandEnd::Exited { success, stdout, stderr }, duration_ms).skipped,
        !ended_view(address, CommandEnd::Failed(error), duration_ms).success,
        !ended_view(address, CommandEnd::Failed(error), duration_ms).skipped,
        skipped_view(address, name).success && skipped_view(address, name).skipped,
        !cancelled_view(address).success && cancelled_view(address).skipped,
        cached_view(address).success && cached_view(address).cached && !cached_view(address).skipped,
{
}

/// A target that did not run and counts as failed is neither skipped nor cached, and
/// says why; one that was kept from starting is not cached either.
pub proof fn failures_are_no_skips(address: Seq<char>, name: Seq<char>, output: Seq<char>, duration_ms: u128)
    ensures
        !failed_view(address, output, duration_ms).success,
        !failed_view(address, output, duration_ms).skipped,
        !failed_view(address, output, duration_ms).cached,
        failed_view(address, output, duration_ms).output == output,
        failed_view(address, output, duration_ms).address == address,
        failed_view(address, output, duration_ms).duration_ms == duration_ms,
        !cancelled_view(address).cached,
        !skipped_view(address, name).cached,
        cancelled_view(address).address == address && skipped_view(address, name).address == address && cached_view(
            address,
        ).address == address,
{
}

} // verus!
