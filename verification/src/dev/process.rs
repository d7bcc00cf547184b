//! How a service is started, and the lines that it prints.
use vstd::prelude::*;
use crate::collections::{TextMap, value_texts};
use crate::dev::services::pair_texts;
use crate::executor::command::{command_of, leading_assignments, parse_command, shell_split, CommandError, ParsedCommand};
use crate::plugins::Target;
use crate::text::{concat2, concat5, decode_lossy, lossy_text, same_text, starts_with, texts};

verus! {

/// A line that a service printed.
#[derive(Debug)]
pub struct LogEvent {
    pub service: String,
    pub line: String,
    pub stderr: bool,
}

// ---------------------------------------------------------------------------
// Starting
// ---------------------------------------------------------------------------

/// How the process of a service is started.
#[derive(Debug)]
pub struct ServiceLaunch {
    pub program: String,
    pub args: Vec<String>,
    pub working_dir: String,
    /// The whole environment of the process
    pub env: TextMap<String>,
}

/// The variables that every service gets from this process.
pub const BASELINE: [&'static str; 9] = [
    "PATH",
    "HOME",
    "USER",
    "LOGNAME",
    "SHELL",
    "TMPDIR",
    "LANG",
    "LC_ALL",
    "TERM",
];

/// A variable that every service gets from this process.
pub open spec fn is_baseline(key: Seq<char>) -> bool {
    "LC_"@.is_prefix_of(key) || exists|i: int| 0 <= i < 9 && #[trigger] BASELINE@[i]@ == key
}

/// What every service gets of an environment.
pub open spec fn baseline_of(environment: Map<Seq<char>, Seq<char>>) -> Map<Seq<char>, Seq<char>> {
    environment.restrict(Set::new(|key: Seq<char>| is_baseline(key)))
}

/// An environment with assignments. Later ones win.
pub open spec fn with_assignments(
    base: Map<Seq<char>, Seq<char>>,
    assignments: Seq<(Seq<char>, Seq<char>)>,
) -> Map<Seq<char>, Seq<char>>
    decreases assignments.len(),
{
    if assignments.len() == 0 {
        base
    } else {
        with_assignments(base, assignments.drop_last()).insert(assignments.last().0, assignments.last().1)
    }
}

/// The environment of a service's process: the baseline, then what the service
/// is configured with, then what its command assigns.
pub open spec fn launch_environment(
    environment: Map<Seq<char>, Seq<char>>,
    env: Map<Seq<char>, Seq<char>>,
    assignments: Seq<(Seq<char>, Seq<char>)>,
) -> Map<Seq<char>, Seq<char>> {
    with_assignments(baseline_of(environment).union_prefer_right(env), assignments)
}

fn baseline_key(key: &str) -> (found: bool)
    ensures
        found == is_baseline(key@),
{
    if starts_with(key, "LC_") {
        return true;
    }
    let list = BASELINE;
    let mut i: usize = 0;
    while i < 9
        invariant
            i <= 9,
            list == BASELINE,
            forall|k: int| 0 <= k < i ==> #[trigger] BASELINE@[k]@ != key@,
        decreases 9 - i,
    {
        if same_text(list[i], key) {
            assert(BASELINE@[i as int]@ == key@);
            return true;
        }
        i += 1;
    }
    false
}

fn collect_baseline(environment: &TextMap<String>) -> (values: TextMap<String>)
    ensures
        value_texts(values@) == baseline_of(value_texts(environment@)),
{
    let mut values: TextMap<String> = TextMap::new();
    let ghost keys = environment.keys();
    let count = environment.len();
    let mut i: usize = 0;
    while i < count
        invariant
            i <= count,
            count == keys.len(),
            keys == environment.keys(),
            keys.to_set() == environment@.dom(),
            forall|key: Seq<char>| #[trigger]
                values@.contains_key(key) <==> keys.take(i as int).contains(key) && is_baseline(key),
            forall|key: Seq<char>| #[trigger] values@.contains_key(key) ==> values@[key]@ == environment@[key]@,
        decreases count - i,
    {
        let ghost before = values@;
        let key = environment.key_at(i);
        if baseline_key(key) {
            values.insert(key.clone(), environment.value_at(i).clone());
        }
        proof {
            let front = keys.take(i as int);
            assert(keys.take(i + 1) =~= front.push(key@));
            assert forall|other: Seq<char>| #[trigger]
                values@.contains_key(other) <==> keys.take(i + 1).contains(other) && is_baseline(other) by {
                assert(before.contains_key(other) <==> front.contains(other) && is_baseline(other));
                if front.contains(other) {
                    let k = choose|k: int| 0 <= k < front.len() && front[k] == other;
                    assert(keys.take(i + 1)[k] == other);
                }
                assert(keys.take(i + 1)[i as int] == key@);
            }
        }
        i += 1;
    }
    proof {
        assert(keys.take(keys.len() as int) =~= keys);
        assert forall|key: Seq<char>| keys.contains(key) == #[trigger] environment@.contains_key(key) by {
            assert(keys.to_set().contains(key) == environment@.dom().contains(key));
        }
        assert(value_texts(values@) =~= baseline_of(value_texts(environment@)));
    }
    values
}

fn add_values(values: &mut TextMap<String>, more: &TextMap<String>)
    ensures
        value_texts(final(values)@) == value_texts(old(values)@).union_prefer_right(value_texts(more@)),
{
    let ghost first = value_texts(values@);
    let ghost wanted = value_texts(more@);
    let ghost keys = more.keys();
    let count = more.len();
    let mut i: usize = 0;
    assert(value_texts(values@) =~= first.union_prefer_right(wanted.restrict(keys.take(0).to_set())));
    while i < count
        invariant
            i <= count,
            count == keys.len(),
            keys == more.keys(),
            keys.to_set() == more@.dom(),
            wanted == value_texts(more@),
            value_texts(values@) == first.union_prefer_right(wanted.restrict(keys.take(i as int).to_set())),
        decreases count - i,
    {
        let key = more.key_at(i);
        let ghost before = value_texts(values@);
        let ghost front = keys.take(i as int);
        values.insert(key.clone(), more.value_at(i).clone());
        proof {
            assert(keys.take(i + 1) =~= front.push(key@));
            front.lemma_push_to_set_commute(key@);
            assert(more@.contains_key(key@));
            assert(wanted.contains_key(key@) && wanted[key@] == more@[key@]@);
            assert(value_texts(values@) =~= before.insert(key@, wanted[key@]));
            assert(value_texts(values@) =~= first.union_prefer_right(wanted.restrict(keys.take(i + 1).to_set())));
        }
        i += 1;
    }
    proof {
        assert(keys.take(keys.len() as int) =~= keys);
        assert(wanted.restrict(keys.to_set()) =~= wanted);
    }
}

/// How the process of a service is started: its command without a shell, in
/// the target's directory or the project's, with an environment of its own.
pub fn prepare_launch(
    target: &Target,
    project_root: &str,
    env: &TextMap<String>,
    environment: &TextMap<String>,
) -> (launch: Result<ServiceLaunch, CommandError>)
    ensures
        match launch {
            Ok(ready) => shell_split(target.command@) is Some && exists|parsed: ParsedCommand| #[trigger]
                command_of(shell_split(target.command@)->0, parsed) && ready.program@ == parsed.program@ && texts(
                    ready.args@,
                ) == texts(parsed.args@) && value_texts(ready.env@) == launch_environment(
                    value_texts(environment@),
                    value_texts(env@),
                    pair_texts(parsed.env@),
                ),
            Err(CommandError::InvalidQuoting(text)) => shell_split(target.command@) is None && text@
                == target.command@,
            Err(CommandError::Empty) => shell_split(target.command@) is Some && shell_split(target.command@)->0.len()
                == 0,
            Err(CommandError::OnlyEnvironment) => shell_split(target.command@) is Some && shell_split(
                target.command@,
            )->0.len() > 0 && leading_assignments(shell_split(target.command@)->0) == shell_split(
                target.command@,
            )->0.len(),
        },
        launch matches Ok(ready) ==> ready.working_dir@ == (match target.working_dir {
            Some(directory) => directory@,
            None => project_root@,
        }),
{
    let parsed = match parse_command(&target.command) {
        Ok(parsed) => parsed,
        Err(error) => return Err(error),
    };
    let working_dir = match &target.working_dir {
        Some(directory) => directory.clone(),
        None => project_root.to_owned(),
    };
    let mut values = collect_baseline(environment);
    add_values(&mut values, env);
    let ghost base = value_texts(values@);
    let ghost pairs = pair_texts(parsed.env@);
    let mut j: usize = 0;
    assert(pairs.take(0) =~= Seq::<(Seq<char>, Seq<char>)>::empty());
    while j < parsed.env.len()
        invariant
            j <= parsed.env@.len(),
            pairs == pair_texts(parsed.env@),
            value_texts(values@) == with_assignments(base, pairs.take(j as int)),
        decreases parsed.env@.len() - j,
    {
        let ghost before = value_texts(values@);
        proof {
            assert(pairs.take(j + 1).drop_last() =~= pairs.take(j as int));
            assert(pairs.take(j + 1).last() == (parsed.env@[j as int].0@, parsed.env@[j as int].1@));
        }
        values.insert(parsed.env[j].0.clone(), parsed.env[j].1.clone());
        assert(value_texts(values@) =~= before.insert(parsed.env@[j as int].0@, parsed.env@[j as int].1@));
        j += 1;
    }
    assert(pairs.take(pairs.len() as int) =~= pairs);
    assert(command_of(shell_split(target.command@)->0, parsed));
    Ok(
        ServiceLaunch {
            program: parsed.program.clone(),
            args: parsed.args.clone(),
            working_dir,
            env: values,
        },
    )
}

// ---------------------------------------------------------------------------
// Output
// ---------------------------------------------------------------------------

/// The number of bytes at which a line without an end is cut.
pub const MAX_PENDING_LINE: usize = 65536;

/// The position of the first end of line, or the length.
pub open spec fn line_end(s: Seq<u8>) -> int
    decreases s.len(),
{
    if s.len() == 0 || s[0] == 10 {
        0
    } else {
        1 + line_end(s.skip(1))
    }
}

/// A line without the ends of line and carriage returns behind it.
pub open spec fn without_end(line: Seq<u8>) -> Seq<u8>
    decreases line.len(),
{
    if line.len() > 0 && (line.last() == 10 || line.last() == 13) {
        without_end(line.drop_last())
    } else {
        line
    }
}

/// The position is that of the first end of line, or the length.
pub proof fn line_end_bounds(s: Seq<u8>)
    ensures
        0 <= line_end(s) <= s.len(),
        line_end(s) < s.len() ==> s[line_end(s)] == 10,
        forall|i: int| 0 <= i < line_end(s) ==> s[i] != 10,
    decreases s.len(),
{
    if s.len() > 0 && s[0] != 10 {
        let rest = s.skip(1);
        line_end_bounds(rest);
        assert forall|i: int| 0 <= i < line_end(s) implies s[i] != 10 by {
            if i > 0 {
                assert(rest[i - 1] != 10);
            }
        }
    }
}

proof fn line_end_at(s: Seq<u8>, at: int)
    requires
        0 <= at <= s.len(),
        at < s.len() ==> s[at] == 10,
        forall|i: int| 0 <= i < at ==> s[i] != 10,
    ensures
        line_end(s) == at,
    decreases s.len(),
{
    if at > 0 {
        let rest = s.skip(1);
        assert forall|i: int| 0 <= i < at - 1 implies rest[i] != 10 by {
            assert(s[i + 1] != 10);
        }
        line_end_at(rest, at - 1);
    }
}

/// The lines that end in some bytes.
pub open spec fn ended_lines(s: Seq<u8>) -> Seq<Seq<u8>>
    decreases s.len(),
{
    proof {
        line_end_bounds(s);
    }
    if line_end(s) >= s.len() {
        Seq::empty()
    } else {
        seq![without_end(s.take(line_end(s)))] + ended_lines(s.skip(line_end(s) + 1))
    }
}

/// What stands behind the last end of line.
pub open spec fn unended(s: Seq<u8>) -> Seq<u8>
    decreases s.len(),
{
    proof {
        line_end_bounds(s);
    }
    if line_end(s) >= s.len() {
        s
    } else {
        unended(s.skip(line_end(s) + 1))
    }
}

/// What is said behind the pieces of a line that is too long.
pub open spec fn continuation_notice() -> Seq<u8> {
    vstd::utf8::encode_utf8(" [aster: long line continued]"@)
}

/// The pieces into which a line without an end is cut.
pub open spec fn long_pieces(s: Seq<u8>) -> Seq<Seq<u8>>
    decreases s.len(),
{
    if s.len() < MAX_PENDING_LINE {
        Seq::empty()
    } else {
        seq![s.take(MAX_PENDING_LINE as int) + continuation_notice()] + long_pieces(s.skip(MAX_PENDING_LINE as int))
    }
}

/// What is left of a line without an end.
pub open spec fn short_rest(s: Seq<u8>) -> Seq<u8>
    decreases s.len(),
{
    if s.len() < MAX_PENDING_LINE {
        s
    } else {
        short_rest(s.skip(MAX_PENDING_LINE as int))
    }
}

/// Lines as bytes.
pub open spec fn line_bytes(lines: Seq<Vec<u8>>) -> Seq<Seq<u8>> {
    lines.map_values(|line: Vec<u8>| line@)
}

/// Divides the output of a process into lines.
#[derive(Debug)]
pub struct LineReader {
    /// What was read behind the last end of line
    pub pending: Vec<u8>,
}

fn trim_end(line: &mut Vec<u8>)
    ensures
        final(line)@ == without_end(old(line)@),
{
    let ghost start = line@;
    while line.len() > 0 && (line[line.len() - 1] == 10 || line[line.len() - 1] == 13)
        invariant
            without_end(start) == without_end(line@),
        decreases line@.len(),
    {
        let ghost before = line@;
        let _ = line.pop();
        assert(line@ =~= before.drop_last());
    }
}

fn part_of(bytes: &Vec<u8>, from: usize, to: usize) -> (part: Vec<u8>)
    requires
        from <= to <= bytes@.len(),
    ensures
        part@ == bytes@.subrange(from as int, to as int),
{
    let mut part: Vec<u8> = Vec::new();
    let mut i: usize = from;
    while i < to
        invariant
            from <= i <= to <= bytes@.len(),
            part@ == bytes@.subrange(from as int, i as int),
        decreases to - i,
    {
        part.push(bytes[i]);
        i += 1;
    }
    part
}

fn divide_lines(bytes: &Vec<u8>) -> (divided: (Vec<Vec<u8>>, usize))
    ensures
        line_bytes(divided.0@) == ended_lines(bytes@),
        divided.1 <= bytes@.len(),
        bytes@.skip(divided.1 as int) == unended(bytes@),
{
    let ghost all = bytes@;
    let mut lines: Vec<Vec<u8>> = Vec::new();
    let end: usize = bytes.len();
    let mut start: usize = 0;
    let mut at: usize = 0;
    assert(all.skip(0) =~= all);
    assert(line_bytes(lines@) + ended_lines(all.skip(0)) =~= ended_lines(all));
    while at < end
        invariant
            bytes@ == all,
            end == all.len(),
            start <= at <= end,
            forall|i: int| start <= i < at ==> all[i] != 10,
            line_bytes(lines@) + ended_lines(all.skip(start as int)) == ended_lines(all),
            unended(all.skip(start as int)) == unended(all),
        decreases end - at,
    {
        if bytes[at] == 10 {
            let ghost rest = all.skip(start as int);
            let ghost before = line_bytes(lines@);
            let mut line = part_of(bytes, start, at);
            proof {
                assert forall|i: int| 0 <= i < at - start implies rest[i] != 10 by {
                    assert(rest[i] == all[start + i]);
                }
                line_end_at(rest, at - start);
                assert(line@ =~= rest.take(at - start));
                assert(rest.skip(at - start + 1) =~= all.skip(at + 1));
            }
            trim_end(&mut line);
            let ghost ended = line@;
            lines.push(line);
            proof {
                assert(line_bytes(lines@) =~= before.push(ended));
                assert(line_bytes(lines@) + ended_lines(all.skip(at + 1)) =~= before + ended_lines(rest));
            }
            start = at + 1;
        }
        at += 1;
    }
    proof {
        let rest = all.skip(start as int);
        assert forall|i: int| 0 <= i < rest.len() implies rest[i] != 10 by {
            assert(rest[i] == all[start + i]);
        }
        line_end_at(rest, rest.len() as int);
        assert(line_bytes(lines@) =~= ended_lines(all));
    }
    (lines, start)
}

fn add_notice(piece: &mut Vec<u8>)
    ensures
        final(piece)@ == old(piece)@ + continuation_notice(),
{
    let notice = " [aster: long line continued]".as_bytes();
    let ghost short = piece@;
    let mut k: usize = 0;
    assert(piece@ =~= short + notice@.take(0));
    while k < notice.len()
        invariant
            k <= notice@.len(),
            piece@ == short + notice@.take(k as int),
        decreases notice@.len() - k,
    {
        piece.push(notice[k]);
        k += 1;
        assert(piece@ =~= short + notice@.take(k as int));
    }
    assert(notice@.take(notice@.len() as int) =~= notice@);
}

fn cut_pieces(bytes: &Vec<u8>, from: usize, lines: &mut Vec<Vec<u8>>) -> (left: usize)
    requires
        from <= bytes@.len(),
    ensures
        line_bytes(final(lines)@) == line_bytes(old(lines)@) + long_pieces(bytes@.skip(from as int)),
        from <= left <= bytes@.len(),
        bytes@.skip(left as int) == short_rest(bytes@.skip(from as int)),
        bytes@.len() - left < MAX_PENDING_LINE,
{
    let ghost last = bytes@.skip(from as int);
    let ghost earlier = line_bytes(lines@);
    let end: usize = bytes.len();
    let mut start: usize = from;
    while end - start >= MAX_PENDING_LINE
        invariant
            end == bytes@.len(),
            from <= start <= end,
            last == bytes@.skip(from as int),
            line_bytes(lines@) + long_pieces(bytes@.skip(start as int)) == earlier + long_pieces(last),
            short_rest(bytes@.skip(start as int)) == short_rest(last),
        decreases end - start,
    {
        let ghost rest = bytes@.skip(start as int);
        let ghost before = line_bytes(lines@);
        let mut piece = part_of(bytes, start, start + MAX_PENDING_LINE);
        assert(piece@ =~= rest.take(MAX_PENDING_LINE as int));
        add_notice(&mut piece);
        let ghost cut = piece@;
        lines.push(piece);
        proof {
            assert(line_bytes(lines@) =~= before.push(cut));
            assert(rest.skip(MAX_PENDING_LINE as int) =~= bytes@.skip(start + MAX_PENDING_LINE));
            assert(line_bytes(lines@) + long_pieces(rest.skip(MAX_PENDING_LINE as int)) =~= before + long_pieces(rest));
        }
        start = start + MAX_PENDING_LINE;
    }
    proof {
        let rest = bytes@.skip(start as int);
        assert(long_pieces(rest) =~= Seq::<Seq<u8>>::empty());
        assert(line_bytes(lines@) =~= line_bytes(lines@) + long_pieces(rest));
    }
    start
}

impl LineReader {
    /// A reader that has read nothing.
    pub fn new() -> (reader: LineReader)
        ensures
            reader.pending@.len() == 0,
    {
        LineReader { pending: Vec::new() }
    }

    /// Take in what was read: the lines that have ended, and pieces of a line
    /// that grew too long.
    pub fn feed(&mut self, chunk: &Vec<u8>) -> (lines: Vec<Vec<u8>>)
        ensures
            ({
                let all = old(self).pending@ + chunk@;
                &&& line_bytes(lines@) == ended_lines(all) + long_pieces(unended(all))
                &&& final(self).pending@ == short_rest(unended(all))
                &&& final(self).pending@.len() < MAX_PENDING_LINE
            }),
    {
        let mut bytes: Vec<u8> = part_of(&self.pending, 0, self.pending.len());
        assert(bytes@ =~= self.pending@ + chunk@.take(0));
        let mut c: usize = 0;
        while c < chunk.len()
            invariant
                c <= chunk@.len(),
                bytes@ == self.pending@ + chunk@.take(c as int),
            decreases chunk@.len() - c,
        {
            bytes.push(chunk[c]);
            c += 1;
            assert(bytes@ =~= self.pending@ + chunk@.take(c as int));
        }
        assert(chunk@.take(chunk@.len() as int) =~= chunk@);
        let (mut lines, start) = divide_lines(&bytes);
        let left = cut_pieces(&bytes, start, &mut lines);
        self.pending = part_of(&bytes, left, bytes.len());
        assert(self.pending@ =~= bytes@.skip(left as int));
        lines
    }

    /// What is left when the output has ended.
    pub fn finish(self) -> (line: Option<Vec<u8>>)
        ensures
            line is Some <==> self.pending@.len() > 0,
            line matches Some(rest) ==> rest@ == self.pending@,
    {
        if self.pending.len() > 0 {
            Some(self.pending)
        } else {
            None
        }
    }
}

/// The lines do not depend on how the output arrived in pieces.
pub proof fn lines_ignore_chunks(first: Seq<u8>, second: Seq<u8>)
    ensures
        ended_lines(first + second) == ended_lines(first) + ended_lines(unended(first) + second),
        unended(first + second) == unended(unended(first) + second),
    decreases first.len(),
{
    line_end_bounds(first);
    let all = first + second;
    let at = line_end(first);
    if at >= first.len() {
        assert(ended_lines(first) + ended_lines(all) =~= ended_lines(all));
    } else {
        assert forall|i: int| 0 <= i < at implies all[i] != 10 by {
            assert(all[i] == first[i]);
        }
        line_end_at(all, at);
        let rest = first.skip(at + 1);
        assert(all.skip(at + 1) =~= rest + second);
        assert(all.take(at) =~= first.take(at));
        lines_ignore_chunks(rest, second);
        assert(ended_lines(all) =~= seq![without_end(first.take(at))] + (ended_lines(rest) + ended_lines(
            unended(rest) + second,
        )));
        assert(ended_lines(first) + ended_lines(unended(first) + second) =~= seq![without_end(first.take(at))] + (
        ended_lines(rest) + ended_lines(unended(rest) + second)));
    }
}

/// What becomes of a line of output.
#[derive(Debug)]
pub enum Forward {
    /// It is printed
    Print(String),
    /// It is sent to the dashboard
    Send(LogEvent),
}

/// A line of a service as it is printed.
pub open spec fn printed_line(service: Seq<char>, stderr: bool, line: Seq<char>) -> Seq<char> {
    "["@ + service + "] "@ + (if stderr {
        "!"@
    } else {
        "|"@
    }) + " "@ + line
}

/// A line of a service as it is printed.
pub fn print_line(service: &str, stderr: bool, line: &str) -> (text: String)
    ensures
        text@ == printed_line(service@, stderr, line@),
{
    let stream = if stderr {
        "!"
    } else {
        "|"
    };
    let front = concat5("[", service, "] ", stream, " ");
    concat2(&front, line)
}

/// A line of output: printed with its service in front, or sent to the
/// dashboard where there is one.
pub fn forward_log_line(service: &str, stderr: bool, bytes: &[u8], ui: bool) -> (forward: Forward)
    ensures
        match forward {
            Forward::Print(text) => !ui && text@ == printed_line(service@, stderr, lossy_text(bytes@)),
            Forward::Send(event) => ui && event.service@ == service@ && event.line@ == lossy_text(bytes@)
                && event.stderr == stderr,
        },
{
    let line = decode_lossy(bytes);
    if !ui {
        return Forward::Print(print_line(service, stderr, &line));
    }
    Forward::Send(LogEvent { service: service.to_owned(), line, stderr })
}

/// How the dashboard took a line.
#[derive(Debug, Clone, Copy, PartialEq, Eq, Structural)]
pub enum SendOutcome {
    Sent,
    Full,
    Closed,
}

/// What is said where lines were dropped: once, until a line is taken again.
pub fn report_drop(service: &str, outcome: SendOutcome, drop_reported: &mut bool) -> (notice: Option<LogEvent>)
    ensures
        notice is Some <==> outcome == SendOutcome::Full && !*old(drop_reported),
        notice matches Some(event) ==> event.service@ == service@ && event.line@
            == "[aster] service output omitted while the UI was busy"@ && event.stderr,
        *final(drop_reported) == (match outcome {
            SendOutcome::Sent => false,
            SendOutcome::Full => true,
            SendOutcome::Closed => *old(drop_reported),
        }),
{
    match outcome {
        SendOutcome::Sent => {
            *drop_reported = false;
            None
        },
        SendOutcome::Closed => None,
        SendOutcome::Full => {
            if *drop_reported {
                return None;
            }
            *drop_reported = true;
            Some(
                LogEvent {
                    service: service.to_owned(),
                    line: "[aster] service output omitted while the UI was busy".to_owned(),
                    stderr: true,
                },
            )
        },
    }
}

/// The exit code of a process, -1 where a signal ended it.
pub fn exit_code(code: Option<i32>) -> (result: i32)
    ensures
        result == (match code {
            Some(value) => value,
            None => -1i32,
        }),
{
    match code {
        Some(value) => value,
        None => -1,
    }
}

/// The last assignment to a variable decides.
pub proof fn the_last_assignment_decides(
    base: Map<Seq<char>, Seq<char>>,
    before: Seq<(Seq<char>, Seq<char>)>,
    key: Seq<char>,
    value: Seq<char>,
    behind: Seq<(Seq<char>, Seq<char>)>,
)
    requires
        forall|i: int| 0 <= i < behind.len() ==> (#[trigger] behind[i]).0 != key,
    ensures
        with_assignments(base, before + seq![(key, value)] + behind).contains_key(key),
        with_assignments(base, before + seq![(key, value)] + behind)[key] == value,
        with_assignments(base, behind).contains_key(key) <==> base.contains_key(key),
        base.contains_key(key) ==> with_assignments(base, behind)[key] == base[key],
    decreases behind.len(),
{
    let all = before + seq![(key, value)] + behind;
    if behind.len() == 0 {
        assert(all.last() == (key, value));
    } else {
        let front = behind.drop_last();
        assert forall|i: int| 0 <= i < front.len() implies (#[trigger] front[i]).0 != key by {
            assert(front[i] == behind[i]);
        }
        the_last_assignment_decides(base, before, key, value, front);
        assert(all.drop_last() =~= before + seq![(key, value)] + front);
        assert(all.last() == behind.last());
        assert(behind.last() == behind[behind.len() - 1]);
    }
}

/// What is not ended stands behind the last end of line, and holds none.
pub proof fn unended_is_behind_the_last_line(s: Seq<u8>)
    ensures
        !unended(s).contains(10),
        unended(s).is_suffix_of(s),
        unended(s).len() < s.len() ==> s[s.len() - unended(s).len() - 1] == 10,
    decreases s.len(),
{
    line_end_bounds(s);
    let end = line_end(s);
    if end >= s.len() {
        assert forall|i: int| 0 <= i < s.len() implies s[i] != 10 by {}
        assert(s.skip(0) =~= s);
        assert(s.is_suffix_of(s));
    } else {
        let rest = s.skip(end + 1);
        unended_is_behind_the_last_line(rest);
        let tail = unended(rest);
        assert(tail =~= s.skip(s.len() - tail.len()));
        if tail.len() == rest.len() {
            assert(s[end] == 10);
        } else {
            assert(rest[rest.len() - tail.len() - 1] == s[s.len() - tail.len() - 1]);
        }
    }
}

/// A line that is ended is taken without its end, and nothing waits behind it.
pub proof fn an_ended_line_is_taken(line: Seq<u8>)
    requires
        !line.contains(10),
    ensures
        ended_lines(line.push(10)) == seq![without_end(line)],
        unended(line.push(10)) == Seq::<u8>::empty(),
        ended_lines(line) == Seq::<Seq<u8>>::empty(),
        unended(line) == line,
{
    let all = line.push(10);
    let none = Seq::<u8>::empty();
    line_end_bounds(all);
    line_end_bounds(line);
    line_end_bounds(none);
    if line_end(all) < line.len() {
        assert(line[line_end(all)] == 10);
        assert(line.contains(10));
    }
    assert(all[line.len() as int] == 10);
    assert(line_end(all) == line.len());
    if line_end(line) < line.len() {
        assert(line.contains(line[line_end(line)]));
    }
    assert(all.take(line_end(all)) =~= line);
    assert(all.skip(line_end(all) + 1) =~= none);
    assert(ended_lines(none) =~= Seq::<Seq<u8>>::empty());
    assert(ended_lines(all) =~= seq![without_end(line)]);
    assert(unended(none) =~= none);
}

/// Only ends of line and carriage returns are taken from the end of a line, and
/// all of them.
pub proof fn only_ends_are_taken(line: Seq<u8>)
    ensures
        without_end(line).is_prefix_of(line),
        without_end(line).len() > 0 ==> without_end(line).last() != 10 && without_end(line).last() != 13,
        forall|i: int| without_end(line).len() <= i < line.len() ==> #[trigger] line[i] == 10 || line[i] == 13,
    decreases line.len(),
{
    if line.len() > 0 && (line.last() == 10 || line.last() == 13) {
        let front = line.drop_last();
        only_ends_are_taken(front);
        let kept = without_end(line);
        assert(kept =~= line.take(kept.len() as int));
        assert forall|i: int| kept.len() <= i < line.len() implies #[trigger] line[i] == 10 || line[i] == 13 by {
            if i < front.len() {
                assert(front[i] == line[i]);
            } else {
                assert(line[i] == line.last());
            }
        }
    } else {
        assert(line =~= line.take(line.len() as int));
    }
}

/// A long line without an end is cut into pieces of one size, in order, and what
/// is left is shorter: nothing of it is lost.
pub proof fn cut_lines_lose_nothing(s: Seq<u8>, at: int)
    ensures
        short_rest(s).len() < MAX_PENDING_LINE,
        s.len() == long_pieces(s).len() * MAX_PENDING_LINE + short_rest(s).len(),
        short_rest(s).is_suffix_of(s),
        0 <= at < long_pieces(s).len() ==> at * MAX_PENDING_LINE + MAX_PENDING_LINE <= s.len() && long_pieces(s)[at]
            == s.subrange(at * MAX_PENDING_LINE, at * MAX_PENDING_LINE + MAX_PENDING_LINE) + continuation_notice(),
    decreases s.len(),
{
    let size = MAX_PENDING_LINE as int;
    if s.len() < MAX_PENDING_LINE {
        assert(s.skip(0) =~= s);
    } else {
        let rest = s.skip(size);
        cut_lines_lose_nothing(rest, at - 1);
        assert(short_rest(s) =~= s.skip(s.len() - short_rest(s).len()));
        if 0 < at < long_pieces(s).len() {
            assert(long_pieces(s)[at] == long_pieces(rest)[at - 1]);
            assert(rest.subrange((at - 1) * size, (at - 1) * size + size) =~= s.subrange(at * size, at * size + size));
        }
        if at == 0 {
            assert(s.take(size) =~= s.subrange(0, size));
        }
    }
}

/// What a command assigns wins over what its service is configured with, and that
/// over the baseline; nothing else of this process is handed on.
pub proof fn commands_win_over_services(
    environment: Map<Seq<char>, Seq<char>>,
    env: Map<Seq<char>, Seq<char>>,
    assignments: Seq<(Seq<char>, Seq<char>)>,
    key: Seq<char>,
)
    requires
        forall|i: int| 0 <= i < assignments.len() ==> (#[trigger] assignments[i]).0 != key,
    ensures
        ({
            let all = launch_environment(environment, env, assignments);
            if env.contains_key(key) {
                all.contains_key(key) && all[key] == env[key]
            } else if environment.contains_key(key) && is_baseline(key) {
                all.contains_key(key) && all[key] == environment[key]
            } else {
                !all.contains_key(key)
            }
        }),
{
    let base = baseline_of(environment).union_prefer_right(env);
    the_last_assignment_decides(base, Seq::empty(), key, key, assignments);
}

/// Every service gets the language, the paths and the user of this process, and no
/// other variable of it by itself.
pub proof fn only_the_baseline_is_handed_on(key: Seq<char>)
    ensures
        is_baseline(key) <==> {
            ||| "LC_"@.is_prefix_of(key)
            ||| key == "PATH"@
            ||| key == "HOME"@
            ||| key == "USER"@
            ||| key == "LOGNAME"@
            ||| key == "SHELL"@
            ||| key == "TMPDIR"@
            ||| key == "LANG"@
            ||| key == "LC_ALL"@
            ||| key == "TERM"@
        },
{
    assert(BASELINE@[0]@ == "PATH"@);
    assert(BASELINE@[1]@ == "HOME"@);
    assert(BASELINE@[2]@ == "USER"@);
    assert(BASELINE@[3]@ == "LOGNAME"@);
    assert(BASELINE@[4]@ == "SHELL"@);
    assert(BASELINE@[5]@ == "TMPDIR"@);
    assert(BASELINE@[6]@ == "LANG"@);
    assert(BASELINE@[7]@ == "LC_ALL"@);
    assert(BASELINE@[8]@ == "TERM"@);
}

} // verus!
