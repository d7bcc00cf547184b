//! Parse target command strings into direct process invocations.
//!
//! Aster intentionally does not invoke a shell. Shell-style quoting and escaping
//! are accepted, but operators such as pipes and redirects are ordinary arguments.
use vstd::prelude::*;
use crate::text::{chars_of, concat2, split_first, split_once, texts};

verus! {

/// The program, arguments and environment of a command.
#[derive(Debug, Clone, PartialEq, Eq)]
pub struct ParsedCommand {
    pub program: String,
    pub args: Vec<String>,
    pub env: Vec<(String, String)>,
}

/// Why a command string names no program.
#[derive(Debug, Clone, PartialEq, Eq)]
pub enum CommandError {
    /// A quote is not closed in this command
    InvalidQuoting(String),
    /// There is no word
    Empty,
    /// There are only environment variables
    OnlyEnvironment,
}

impl CommandError {
    /// The message for a reader.
    pub open spec fn message(&self) -> Seq<char> {
        match self {
            CommandError::InvalidQuoting(command) => "invalid command quoting: "@ + command@,
            CommandError::Empty => "empty command"@,
            CommandError::OnlyEnvironment => "empty command (only environment variables)"@,
        }
    }

    /// The message for a reader.
    pub fn to_string(&self) -> (message: String)
        ensures
            message@ == self.message(),
    {
        match self {
            CommandError::InvalidQuoting(command) => concat2("invalid command quoting: ", command),
            CommandError::Empty => "empty command".to_owned(),
            CommandError::OnlyEnvironment => "empty command (only environment variables)".to_owned(),
        }
    }
}

/// The error of `shell_words::split`.
#[verifier::external_type_specification]
#[verifier::external_body]
pub struct ExParseError(shell_words::ParseError);

/// The words into which `shell_words::split` divides a command line; none
/// where a quote is not closed.
pub uninterp spec fn shell_split(command: Seq<char>) -> Option<Seq<Seq<char>>>;

/// What `shell_words::quote` makes of a word.
pub uninterp spec fn shell_quote(word: Seq<char>) -> Seq<char>;

/// A command line without quotes, escapes and comments.
pub open spec fn is_plain(command: Seq<char>) -> bool {
    !command.contains('\'') && !command.contains('"') && !command.contains('\\') && !command.contains('#')
}

/// A plain command line without white space: a single word.
pub open spec fn is_word(command: Seq<char>) -> bool {
    &&& is_plain(command)
    &&& command.len() > 0
    &&& !command.contains(' ') && !command.contains('\t') && !command.contains('\n') && !command.contains('\r')
}

/// `shell_words::split` divides a command line as a Unix shell would, without
/// expansions. It fails where a quote is not closed, so not on a plain line,
/// and leaves a single plain word as it is.
#[verifier::external_body]
pub(crate) fn split_words(command: &str) -> (words: Result<Vec<String>, shell_words::ParseError>)
    ensures
        words is Ok <==> shell_split(command@) is Some,
        words matches Ok(found) ==> shell_split(command@) == Some(texts(found@)),
        is_plain(command@) ==> words is Ok,
        is_word(command@) ==> words is Ok && texts(words->Ok_0@) == seq![command@],
{
    shell_words::split(command)
}

/// `shell_words::quote` escapes a word so that it keeps its literal meaning as
/// part of a command: behind a plain command line and a space,
/// `shell_words::split` reads it back as one more word, and so behind a single
/// plain word as the second of two.
#[verifier::external_body]
pub(crate) fn quote_word(word: &str) -> (quoted: String)
    ensures
        quoted@ == shell_quote(word@),
        forall|front: Seq<char>|
            is_plain(front) && shell_split(front) is Some ==> #[trigger] shell_split(front + " "@ + quoted@) == Some(
                shell_split(front)->0.push(word@),
            ),
        forall|front: Seq<char>|
            is_word(front) ==> #[trigger] shell_split(front + " "@ + quoted@) == Some(seq![front, word@]),
{
    shell_words::quote(word).into_owned()
}

/// A letter of the ASCII alphabet.
pub open spec fn ascii_letter(c: char) -> bool {
    'a' <= c <= 'z' || 'A' <= c <= 'Z'
}

/// A letter, a digit or an underscore.
pub open spec fn name_char(c: char) -> bool {
    ascii_letter(c) || '0' <= c <= '9' || c == '_'
}

/// A name for an environment variable: letters, digits and underscores, with
/// no digit at the beginning.
pub open spec fn environment_name(name: Seq<char>) -> bool {
    &&& name.len() > 0
    &&& ascii_letter(name[0]) || name[0] == '_'
    &&& forall|i: int| 0 <= i < name.len() ==> name_char(#[trigger] name[i])
}

/// Whether a string can name an environment variable.
pub fn is_environment_name(name: &str) -> (valid: bool)
    ensures
        valid == environment_name(name@),
{
    let chars = chars_of(name);
    if chars.len() == 0 {
        return false;
    }
    let first = chars[0];
    if !(('a' <= first && first <= 'z') || ('A' <= first && first <= 'Z') || first == '_') {
        return false;
    }
    let mut i: usize = 0;
    while i < chars.len()
        invariant
            chars@ == name@,
            i <= chars@.len(),
            forall|k: int| 0 <= k < i ==> name_char(#[trigger] name@[k]),
        decreases chars@.len() - i,
    {
        let c = chars[i];
        if !(('a' <= c && c <= 'z') || ('A' <= c && c <= 'Z') || ('0' <= c && c <= '9') || c == '_') {
            assert(!name_char(name@[i as int]));
            return false;
        }
        i += 1;
    }
    true
}

/// The variable and value that a word assigns.
pub open spec fn assignment(word: Seq<char>) -> Option<(Seq<char>, Seq<char>)> {
    match split_first(word, '=') {
        Some((name, value)) => if environment_name(name) {
            Some((name, value))
        } else {
            None
        },
        None => None,
    }
}

/// How many words at the beginning are assignments.
pub open spec fn leading_assignments(words: Seq<Seq<char>>) -> int
    decreases words.len(),
{
    if words.len() > 0 && assignment(words[0]) is Some {
        1 + leading_assignments(words.skip(1))
    } else {
        0
    }
}

proof fn leading_assignments_are(words: Seq<Seq<char>>, count: int)
    requires
        0 <= count <= words.len(),
        forall|i: int| 0 <= i < count ==> assignment(#[trigger] words[i]) is Some,
        count < words.len() ==> assignment(words[count]) is None,
    ensures
        leading_assignments(words) == count,
    decreases count,
{
    if count > 0 {
        assert(assignment(words[0]) is Some);
        let rest = words.skip(1);
        assert forall|i: int| 0 <= i < count - 1 implies assignment(#[trigger] rest[i]) is Some by {
            assert(rest[i] == words[i + 1]);
        }
        leading_assignments_are(rest, count - 1);
    }
}

/// The command that words make up: first the environment, then the program
/// and its arguments.
pub open spec fn command_of(words: Seq<Seq<char>>, parsed: ParsedCommand) -> bool {
    let count = leading_assignments(words);
    &&& 0 <= count < words.len()
    &&& parsed.program@ == words[count]
    &&& texts(parsed.args@) == words.skip(count + 1)
    &&& parsed.env@.len() == count
    &&& forall|i: int|
        0 <= i < count ==> assignment(words[i]) == Some(((#[trigger] parsed.env@[i]).0@, parsed.env@[i].1@))
}

/// The command that a list of words makes up.
pub fn parse_words(words: &Vec<String>) -> (parsed: Result<ParsedCommand, CommandError>)
    ensures
        match parsed {
            Ok(command) => command_of(texts(words@), command),
            Err(CommandError::Empty) => words@.len() == 0,
            Err(CommandError::OnlyEnvironment) => words@.len() > 0 && leading_assignments(texts(words@))
                == words@.len(),
            Err(CommandError::InvalidQuoting(_)) => false,
        },
{
    if words.len() == 0 {
        return Err(CommandError::Empty);
    }
    let ghost all = texts(words@);
    let mut env: Vec<(String, String)> = Vec::new();
    let mut start: usize = 0;
    let mut found_end = false;
    while start < words.len() && !found_end
        invariant
            all == texts(words@),
            start <= words@.len(),
            env@.len() == start,
            forall|i: int|
                0 <= i < start ==> assignment(all[i]) == Some(((#[trigger] env@[i]).0@, env@[i].1@)),
            found_end ==> start < words@.len() && assignment(all[start as int]) is None,
        decreases words@.len() - start, (if found_end { 0int } else { 1int }),
    {
        assert(all[start as int] == words@[start as int]@);
        match split_once(&words[start], '=') {
            Some((name, value)) => {
                if is_environment_name(&name) {
                    env.push((name, value));
                    start += 1;
                } else {
                    found_end = true;
                }
            },
            None => {
                found_end = true;
            },
        }
    }
    proof {
        assert forall|i: int| 0 <= i < start implies assignment(#[trigger] all[i]) is Some by {
            assert(assignment(all[i]) == Some((env@[i].0@, env@[i].1@)));
        }
        leading_assignments_are(all, start as int);
    }
    if start == words.len() {
        return Err(CommandError::OnlyEnvironment);
    }
    let mut args: Vec<String> = Vec::new();
    let mut i: usize = start + 1;
    while i < words.len()
        invariant
            start + 1 <= i <= words@.len(),
            args@ == words@.subrange(start + 1, i as int),
        decreases words@.len() - i,
    {
        args.push(words[i].clone());
        i += 1;
    }
    assert(texts(args@) =~= all.skip(start + 1));
    assert(all[start as int] == words@[start as int]@);
    Ok(ParsedCommand { program: words[start].clone(), args, env })
}

/// A program and one argument are read as that, whatever the argument holds,
/// unless the program looks like an assignment.
pub proof fn program_and_argument(program: Seq<char>, argument: Seq<char>, parsed: ParsedCommand)
    requires
        assignment(program) is None,
    ensures
        leading_assignments(seq![program, argument]) == 0,
        command_of(seq![program, argument], parsed) <==> parsed.program@ == program && texts(parsed.args@)
            == seq![argument] && parsed.env@.len() == 0,
{
    assert(seq![program, argument][0] == program);
    assert(seq![program, argument].skip(1) =~= seq![argument]);
}

/// Parse a command string. A single plain word that is no assignment is a
/// program without arguments.
pub fn parse_command(command: &str) -> (parsed: Result<ParsedCommand, CommandError>)
    ensures
        is_word(command@) ==> shell_split(command@) == Some(seq![command@]),
        match parsed {
            Ok(found) => shell_split(command@) is Some && command_of(shell_split(command@)->0, found),
            Err(CommandError::InvalidQuoting(text)) => shell_split(command@) is None && text@ == command@,
            Err(CommandError::Empty) => shell_split(command@) is Some && shell_split(command@)->0.len() == 0,
            Err(CommandError::OnlyEnvironment) => shell_split(command@) is Some && shell_split(command@)->0.len()
                > 0 && leading_assignments(shell_split(command@)->0) == shell_split(command@)->0.len(),
        },
{
    match split_words(command) {
        Ok(words) => parse_words(&words),
        Err(_) => Err(CommandError::InvalidQuoting(command.to_owned())),
    }
}

/// Quote one argument for use in an Aster target command string.
///
/// Behind a plain command line and a space, the quoted argument is read back
/// as one more argument with the same characters: behind a program alone, as
/// its only one.
pub fn quote_argument(value: &str) -> (quoted: String)
    ensures
        quoted@ == shell_quote(value@),
        forall|front: Seq<char>|
            is_plain(front) && shell_split(front) is Some ==> #[trigger] shell_split(front + " "@ + quoted@) == Some(
                shell_split(front)->0.push(value@),
            ),
        forall|program: Seq<char>|
            is_word(program) ==> #[trigger] shell_split(program + " "@ + quoted@) == Some(seq![program, value@]),
        forall|program: Seq<char>, parsed: ParsedCommand|
            is_word(program) && assignment(program) is None && #[trigger] command_of(
                shell_split(program + " "@ + quoted@)->0,
                parsed,
            ) ==> parsed.program@ == program && texts(parsed.args@) == seq![value@] && parsed.env@.len() == 0,
{
    let quoted = quote_word(value);
    proof {
        assert forall|program: Seq<char>, parsed: ParsedCommand|
            is_word(program) && assignment(program) is None && #[trigger] command_of(
                shell_split(program + " "@ + quoted@)->0,
                parsed,
            ) implies parsed.program@ == program && texts(parsed.args@) == seq![value@] && parsed.env@.len() == 0 by {
            program_and_argument(program, value@, parsed);
        }
    }
    quoted
}

/// Quote one argument for use in an Aster target command string.
pub fn quote_command_argument(value: &str) -> (quoted: String)
    ensures
        quoted@ == shell_quote(value@),
        forall|front: Seq<char>|
            is_plain(front) && shell_split(front) is Some ==> #[trigger] shell_split(front + " "@ + quoted@) == Some(
                shell_split(front)->0.push(value@),
            ),
        forall|program: Seq<char>|
            is_word(program) ==> #[trigger] shell_split(program + " "@ + quoted@) == Some(seq![program, value@]),
        forall|program: Seq<char>, parsed: ParsedCommand|
            is_word(program) && assignment(program) is None && #[trigger] command_of(
                shell_split(program + " "@ + quoted@)->0,
                parsed,
            ) ==> parsed.program@ == program && texts(parsed.args@) == seq![value@] && parsed.env@.len() == 0,
{
    quote_argument(value)
}

/// The assignments at the beginning end at the first word that is none.
pub proof fn assignments_end_at_the_program(words: Seq<Seq<char>>)
    ensures
        0 <= leading_assignments(words) <= words.len(),
        forall|i: int| 0 <= i < leading_assignments(words) ==> assignment(#[trigger] words[i]) is Some,
        leading_assignments(words) < words.len() ==> assignment(words[leading_assignments(words)]) is None,
    decreases words.len(),
{
    if words.len() > 0 && assignment(words[0]) is Some {
        let rest = words.skip(1);
        assignments_end_at_the_program(rest);
        assert forall|i: int| 0 <= i < leading_assignments(words) implies assignment(#[trigger] words[i]) is Some by {
            if i > 0 {
                assert(rest[i - 1] == words[i]);
            }
        }
        if leading_assignments(words) < words.len() {
            assert(rest[leading_assignments(rest)] == words[leading_assignments(words)]);
        }
    }
}

/// A name and a value with an equals sign between them are an assignment of the
/// value to the name, whatever the value holds.
pub proof fn assignments_are_read(name: Seq<char>, value: Seq<char>)
    requires
        environment_name(name),
    ensures
        assignment(name + "="@ + value) == Some((name, value)),
{
    reveal_strlit("=");
    let word = name + "="@ + value;
    let at = name.len() as int;
    assert(word[at] == '=');
    assert forall|j: int| 0 <= j < at implies word[j] != '=' by {
        assert(name_char(name[j]));
        assert(word[j] == name[j]);
    }
    crate::text::split_first_at(word, '=', at);
    assert(word.take(at) =~= name);
    assert(word.skip(at + 1) =~= value);
}

/// A variable is named with letters, digits and underscores, and does not begin with a
/// digit.
pub proof fn names_of_variables(name: Seq<char>)
    ensures
        environment_name(name) <==> name.len() > 0 && !('0' <= name[0] <= '9') && forall|i: int|
            0 <= i < name.len() ==> 'a' <= #[trigger] name[i] <= 'z' || 'A' <= name[i] <= 'Z' || '0' <= name[i] <= '9'
                || name[i] == '_',
{
    if environment_name(name) {
        assert forall|i: int| 0 <= i < name.len() implies 'a' <= #[trigger] name[i] <= 'z' || 'A' <= name[i] <= 'Z' || '0'
            <= name[i] <= '9' || name[i] == '_' by {
            assert(name_char(name[i]));
        }
    } else if name.len() > 0 && !('0' <= name[0] <= '9') && forall|i: int|
        0 <= i < name.len() ==> 'a' <= #[trigger] name[i] <= 'z' || 'A' <= name[i] <= 'Z' || '0' <= name[i] <= '9'
            || name[i] == '_' {
        assert('a' <= name[0] <= 'z' || 'A' <= name[0] <= 'Z' || name[0] == '_');
        assert forall|i: int| 0 <= i < name.len() implies name_char(#[trigger] name[i]) by {}
    }
}

} // verus!
