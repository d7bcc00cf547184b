//! Environment files and the environment of services.
use vstd::prelude::*;
use crate::collections::{ascending_is_listed, listed, TextMap, value_texts};
use crate::paths::{join_path, path_join};
use crate::text::{
    chars_of, concat2, concat5, contains_char, lines_of, split_first, split_first_at, split_first_none, split_lines,
    split_once, strip_prefix, text_of, texts, trim_text, trimmed, trimming_spares_the_rest,
    trimming_takes_white_space, white_space,
};

verus! {

/// A value without the quotes around it.
pub open spec fn unquoted(value: Seq<char>) -> Seq<char> {
    if value.len() >= 2 && ((value[0] == '"' && value.last() == '"') || (value[0] == '\'' && value.last() == '\'')) {
        value.subrange(1, value.len() - 1)
    } else {
        value
    }
}

/// What a line of an environment file sets.
pub open spec fn env_entry(raw_line: Seq<char>) -> Option<(Seq<char>, Seq<char>)> {
    let line = trimmed(raw_line);
    if line.len() == 0 || line[0] == '#' {
        None
    } else {
        let rest = if "export "@.is_prefix_of(line) {
            line.skip("export "@.len() as int)
        } else {
            line
        };
        match split_first(rest, '=') {
            None => None,
            Some((key, value)) => if trimmed(key).len() == 0 {
                None
            } else {
                Some((trimmed(key), unquoted(trimmed(value))))
            },
        }
    }
}

/// What lines set. Later lines win.
pub open spec fn env_values(values: Map<Seq<char>, Seq<char>>, lines: Seq<Seq<char>>) -> Map<Seq<char>, Seq<char>>
    decreases lines.len(),
{
    if lines.len() == 0 {
        values
    } else {
        let before = env_values(values, lines.drop_last());
        match env_entry(lines.last()) {
            Some((key, value)) => before.insert(key, value),
            None => before,
        }
    }
}

/// What files set. Later files win.
pub open spec fn files_values(contents: Seq<Seq<char>>) -> Map<Seq<char>, Seq<char>>
    decreases contents.len(),
{
    if contents.len() == 0 {
        Map::empty()
    } else {
        env_values(files_values(contents.drop_last()), lines_of(contents.last()))
    }
}

fn parse_env_line(raw_line: &str) -> (entry: Option<(String, String)>)
    ensures
        entry is Some <==> env_entry(raw_line@) is Some,
        entry matches Some((key, value)) ==> env_entry(raw_line@) == Some((key@, value@)),
{
    let line = trim_text(raw_line);
    let chars = chars_of(&line);
    if chars.len() == 0 || chars[0] == '#' {
        return None;
    }
    let rest = match strip_prefix(&line, "export ") {
        Some(rest) => rest,
        None => line,
    };
    match split_once(&rest, '=') {
        None => None,
        Some((raw_key, raw_value)) => {
            let key = trim_text(&raw_key);
            if key.as_str().is_empty() {
                return None;
            }
            let value = trim_text(&raw_value);
            let letters = chars_of(&value);
            let end: usize = letters.len();
            if end >= 2 && ((letters[0] == '"' && letters[end - 1] == '"') || (letters[0] == '\'' && letters[end - 1]
                == '\'')) {
                Some((key, text_of(&letters, 1, end - 1)))
            } else {
                Some((key, value))
            }
        },
    }
}

/// Where the environment files are that a list names.
pub fn env_file_paths(workspace_root: &str, files: &Vec<String>) -> (paths: Vec<String>)
    ensures
        texts(paths@) == texts(files@).map_values(|file: Seq<char>| path_join(workspace_root@, file)),
{
    let mut paths: Vec<String> = Vec::new();
    let mut i: usize = 0;
    while i < files.len()
        invariant
            i <= files@.len(),
            paths@.len() == i,
            forall|k: int| 0 <= k < i ==> (#[trigger] paths@[k])@ == path_join(workspace_root@, files@[k]@),
        decreases files@.len() - i,
    {
        paths.push(join_path(workspace_root, &files[i]));
        i += 1;
    }
    assert(texts(paths@) =~= texts(files@).map_values(|file: Seq<char>| path_join(workspace_root@, file)));
    paths
}

/// What environment files set, given by their contents. Later files win.
pub fn load_env_files(contents: &Vec<String>) -> (values: TextMap<String>)
    ensures
        value_texts(values@) == files_values(texts(contents@)),
{
    let mut values: TextMap<String> = TextMap::new();
    let ghost all = texts(contents@);
    let mut i: usize = 0;
    assert(all.take(0) =~= Seq::<Seq<char>>::empty());
    assert(value_texts(values@) =~= Map::<Seq<char>, Seq<char>>::empty());
    while i < contents.len()
        invariant
            i <= contents@.len(),
            all == texts(contents@),
            value_texts(values@) == files_values(all.take(i as int)),
        decreases contents@.len() - i,
    {
        proof {
            assert(all.take(i + 1).drop_last() =~= all.take(i as int));
            assert(all.take(i + 1).last() == contents@[i as int]@);
        }
        let lines = split_lines(&contents[i]);
        let ghost list = texts(lines@);
        let ghost before = value_texts(values@);
        let mut j: usize = 0;
        assert(list.take(0) =~= Seq::<Seq<char>>::empty());
        while j < lines.len()
            invariant
                j <= lines@.len(),
                list == texts(lines@),
                value_texts(values@) == env_values(before, list.take(j as int)),
            decreases lines@.len() - j,
        {
            proof {
                assert(list.take(j + 1).drop_last() =~= list.take(j as int));
                assert(list.take(j + 1).last() == lines@[j as int]@);
            }
            let ghost so_far = value_texts(values@);
            if let Some((key, value)) = parse_env_line(&lines[j]) {
                let ghost entry = (key@, value@);
                values.insert(key, value);
                assert(value_texts(values@) =~= so_far.insert(entry.0, entry.1));
            }
            j += 1;
        }
        assert(list.take(list.len() as int) =~= list);
        i += 1;
    }
    assert(all.take(all.len() as int) =~= all);
    values
}

// ---------------------------------------------------------------------------
// Validation
// ---------------------------------------------------------------------------

/// A string in quotes, its special characters escaped.
pub uninterp spec fn debug_text(text: Seq<char>) -> Seq<char>;

/// The `Debug` form that the standard library gives a string: quotes around
/// it, and what cannot be printed as escapes. It is a function of the string.
#[verifier::external_body]
pub(crate) fn quote_debug(text: &str) -> (quoted: String)
    ensures
        quoted@ == debug_text(text@),
{
    format!("{:?}", text)
}

/// A name that an environment cannot have.
pub open spec fn is_bad_key(key: Seq<char>) -> bool {
    key.len() == 0 || key.contains('=') || key.contains('\0')
}

/// What is said of a name that an environment cannot have.
pub open spec fn bad_key_text(service: Seq<char>, key: Seq<char>) -> Seq<char> {
    "service '"@ + service + "' has invalid environment key "@ + debug_text(key)
}

/// What is wrong with an entry of a service's environment.
pub open spec fn entry_fault(service: Seq<char>, key: Seq<char>, value: Seq<char>) -> Option<Seq<char>> {
    if is_bad_key(key) {
        Some(bad_key_text(service, key))
    } else if value.contains('\0') {
        Some("service '"@ + service + "' environment value for '"@ + key + "' contains NUL"@)
    } else {
        None
    }
}

/// What is wrong with the first entry that something is wrong with.
pub open spec fn environment_fault(
    service: Seq<char>,
    keys: Seq<Seq<char>>,
    environment: Map<Seq<char>, Seq<char>>,
) -> Option<Seq<char>>
    decreases keys.len(),
{
    if keys.len() == 0 {
        None
    } else {
        match environment_fault(service, keys.drop_last(), environment) {
            Some(fault) => Some(fault),
            None => entry_fault(service, keys.last(), environment[keys.last()]),
        }
    }
}

/// Refuse a name that an environment cannot have.
pub fn validate_environment_key(service: &str, key: &str) -> (valid: Result<(), String>)
    ensures
        valid is Err <==> is_bad_key(key@),
        valid matches Err(message) ==> message@ == bad_key_text(service@, key@),
{
    if key.is_empty() || contains_char(key, '=') || contains_char(key, '\0') {
        let front = concat2("service '", service);
        return Err(concat2(&concat2(&front, "' has invalid environment key "), &quote_debug(key)));
    }
    Ok(())
}

/// Refuse entries that no process can be started with.
pub fn validate_environment(service: &str, environment: &TextMap<String>) -> (valid: Result<(), String>)
    ensures
        match valid {
            Ok(_) => environment_fault(service@, listed(environment@.dom()), value_texts(environment@)) is None,
            Err(message) => environment_fault(service@, listed(environment@.dom()), value_texts(environment@)) == Some(message@),
        },
{
    let ghost keys = environment.keys();
    let count = environment.len();
    let mut fault: Option<String> = None;
    let mut i: usize = 0;
    assert(keys.take(0) =~= Seq::<Seq<char>>::empty());
    assert forall|k: int| 0 <= k < keys.len() implies environment@.dom().contains(#[trigger] keys[k]) by {
        assert(keys.to_set().contains(keys[k]));
    }
    while i < count
        invariant
            i <= count,
            count == keys.len(),
            keys == environment.keys(),
            forall|k: int| 0 <= k < keys.len() ==> environment@.dom().contains(#[trigger] keys[k]),
            fault is Some <==> environment_fault(service@, keys.take(i as int), value_texts(environment@)) is Some,
            fault matches Some(message) ==> environment_fault(service@, keys.take(i as int), value_texts(environment@)) == Some(
                message@,
            ),
        decreases count - i,
    {
        proof {
            assert(keys.take(i + 1).drop_last() =~= keys.take(i as int));
            assert(keys.take(i + 1).last() == keys[i as int]);
        }
        if fault.is_none() {
            let key = environment.key_at(i);
            match validate_environment_key(service, key) {
                Err(message) => {
                    fault = Some(message);
                },
                Ok(_) => {
                    if contains_char(environment.value_at(i), '\0') {
                        fault = Some(
                            concat5("service '", service, "' environment value for '", key, "' contains NUL"),
                        );
                    }
                },
            }
        }
        i += 1;
    }
    assert(keys.take(keys.len() as int) =~= keys);
    proof {
        ascending_is_listed(keys);
    }
    match fault {
        Some(message) => Err(message),
        None => Ok(()),
    }
}

/// What the last file sets wins over the files before it, and what it does not
/// set stays as they left it.
pub proof fn later_files_win(contents: Seq<Seq<char>>, content: Seq<char>, key: Seq<char>)
    ensures
        env_values(Map::empty(), lines_of(content)).contains_key(key) ==> files_values(
            contents.push(content),
        ).contains_key(key) && files_values(contents.push(content))[key] == env_values(
            Map::empty(),
            lines_of(content),
        )[key],
        !env_values(Map::empty(), lines_of(content)).contains_key(key) ==> (files_values(
            contents.push(content),
        ).contains_key(key) <==> files_values(contents).contains_key(key)) && (files_values(contents).contains_key(
            key,
        ) ==> files_values(contents.push(content))[key] == files_values(contents)[key]),
{
    assert(contents.push(content).drop_last() =~= contents);
    later_lines_win(files_values(contents), lines_of(content), key);
}

proof fn later_lines_win(values: Map<Seq<char>, Seq<char>>, lines: Seq<Seq<char>>, key: Seq<char>)
    ensures
        ({
            let own = env_values(Map::empty(), lines);
            let all = env_values(values, lines);
            &&& own.contains_key(key) ==> all.contains_key(key) && all[key] == own[key]
            &&& !own.contains_key(key) ==> (all.contains_key(key) <==> values.contains_key(key)) && (
            values.contains_key(key) ==> all[key] == values[key])
        }),
    decreases lines.len(),
{
    if lines.len() > 0 {
        later_lines_win(values, lines.drop_last(), key);
    }
}

/// The first entry that something is wrong with is told of, and nothing is said
/// where nothing is wrong with any.
pub proof fn the_first_entry_fault_is_told(
    service: Seq<char>,
    keys: Seq<Seq<char>>,
    environment: Map<Seq<char>, Seq<char>>,
)
    ensures
        environment_fault(service, keys, environment) is None <==> forall|i: int| 0 <= i < keys.len() ==> entry_fault(service, #[trigger] keys[i], environment[keys[i]]) is None,
        environment_fault(service, keys, environment) matches Some(fault) ==> exists|i: int|
            0 <= i < keys.len() && entry_fault(service, #[trigger] keys[i], environment[keys[i]]) == Some(fault) && forall|j: int|
                0 <= j < i ==> entry_fault(service, #[trigger] keys[j], environment[keys[j]]) is None,
    decreases keys.len(),
{
    if keys.len() > 0 {
        let front = keys.drop_last();
        the_first_entry_fault_is_told(service, front, environment);
        assert(forall|i: int| 0 <= i < front.len() ==> #[trigger] front[i] == keys[i]);
        assert(keys[keys.len() - 1] == keys.last());
        match environment_fault(service, front, environment) {
            Some(fault) => {
                let i = choose|i: int|
                    0 <= i < front.len() && entry_fault(service, #[trigger] front[i], environment[front[i]]) == Some(fault) && forall|j: int|
                        0 <= j < i ==> entry_fault(service, #[trigger] front[j], environment[front[j]]) is None;
                assert(entry_fault(service, keys[i], environment[keys[i]]) == Some(fault));
                assert forall|j: int| 0 <= j < i implies entry_fault(service, #[trigger] keys[j], environment[keys[j]]) is None by {
                    assert(front[j] == keys[j]);
                }
            },
            None => {
                assert forall|i: int| 0 <= i < front.len() implies entry_fault(service, #[trigger] keys[i], environment[keys[i]]) is None by {
                    assert(front[i] == keys[i]);
                }
            },
        }
    }
}

/// Where something is wrong with an entry, it is its key, which is empty or holds
/// an equals sign or a NUL, or its value, which holds a NUL.
pub proof fn entries_at_fault(service: Seq<char>, key: Seq<char>, value: Seq<char>)
    ensures
        entry_fault(service, key, value) is None <==> key.len() > 0 && !key.contains('=') && !key.contains('\0')
            && !value.contains('\0'),
{
}

/// The last line that sets a variable decides, whatever the lines before it say.
pub proof fn the_last_line_decides(
    values: Map<Seq<char>, Seq<char>>,
    before: Seq<Seq<char>>,
    line: Seq<char>,
    behind: Seq<Seq<char>>,
    key: Seq<char>,
    value: Seq<char>,
)
    requires
        env_entry(line) == Some((key, value)),
        forall|i: int| 0 <= i < behind.len() ==> !(env_entry(#[trigger] behind[i]) matches Some((other, _)) && other == key),
    ensures
        env_values(values, before + seq![line] + behind).contains_key(key),
        env_values(values, before + seq![line] + behind)[key] == value,
    decreases behind.len(),
{
    if behind.len() == 0 {
        assert(before + seq![line] + behind =~= before.push(line));
        assert(before.push(line).drop_last() =~= before);
    } else {
        let front = behind.drop_last();
        assert forall|i: int| 0 <= i < front.len() implies !(env_entry(#[trigger] front[i]) matches Some((other, _))
            && other == key) by {
            assert(front[i] == behind[i]);
        }
        the_last_line_decides(values, before, line, front, key, value);
        assert((before + seq![line] + behind).drop_last() =~= before + seq![line] + front);
        assert(behind.last() == behind[behind.len() - 1]);
    }
}

/// What no line sets stays as it was.
pub proof fn lines_set_nothing_else(values: Map<Seq<char>, Seq<char>>, lines: Seq<Seq<char>>, key: Seq<char>)
    requires
        forall|i: int| 0 <= i < lines.len() ==> !(env_entry(#[trigger] lines[i]) matches Some((other, _)) && other == key),
    ensures
        env_values(values, lines).contains_key(key) <==> values.contains_key(key),
        values.contains_key(key) ==> env_values(values, lines)[key] == values[key],
    decreases lines.len(),
{
    if lines.len() > 0 {
        let front = lines.drop_last();
        assert forall|i: int| 0 <= i < front.len() implies !(env_entry(#[trigger] front[i]) matches Some((other, _))
            && other == key) by {
            assert(front[i] == lines[i]);
        }
        lines_set_nothing_else(values, front, key);
        assert(lines.last() == lines[lines.len() - 1]);
    }
}

/// A name and a value with an equals sign between them set the name to the value,
/// with or without `export` in front; quotes around the value are taken off.
pub proof fn assignments_are_entries(key: Seq<char>, value: Seq<char>)
    requires
        key.len() > 0,
        key[0] != '#',
        forall|i: int| 0 <= i < key.len() ==> !white_space(#[trigger] key[i]) && key[i] != '=',
        value.len() > 0,
        !white_space(value.first()),
        !white_space(value.last()),
    ensures
        env_entry(key + "="@ + value) == Some((key, unquoted(value))),
        env_entry("export "@ + key + "="@ + value) == Some((key, unquoted(value))),
{
    reveal_strlit("=");
    reveal_strlit("export ");
    let line = key + "="@ + value;
    let exported = "export "@ + key + "="@ + value;
    let at = key.len() as int;
    assert(key.first() == key[0] && key.last() == key[at - 1]);
    assert(line.first() == key[0]);
    assert(line.last() == value.last());
    trimming_spares_the_rest(line);
    trimming_spares_the_rest(key);
    trimming_spares_the_rest(value);
    assert(exported.first() == 'e');
    assert(!white_space('e')) by {
        assert('e' as u32 == 0x65);
    }
    assert(exported.last() == value.last());
    trimming_spares_the_rest(exported);
    assert(line[at] == '=');
    assert forall|j: int| 0 <= j < at implies line[j] != '=' by {
        assert(line[j] == key[j]);
    }
    split_first_at(line, '=', at);
    assert(line.take(at) =~= key);
    assert(line.skip(at + 1) =~= value);
    if "export "@.is_prefix_of(line) {
        assert(line.take(7) == "export "@);
        assert(line.take(7)[6] == ' ' && line[6] == ' ');
        assert(white_space(' ')) by {
            assert(' ' as u32 == 0x20);
        }
        if at > 6 {
            assert(key[6] == ' ');
        } else {
            assert(line[at] == line.take(7)[at]);
            assert(line.take(7)[at] == "export "@[at]);
        }
    }
    assert("export "@ =~= exported.take(7));
    assert("export "@.is_prefix_of(exported));
    assert(exported.skip(7) =~= line);
}

/// A comment, and a line without an equals sign, set nothing.
pub proof fn comments_set_nothing(rest: Seq<char>, plain: Seq<char>)
    requires
        !plain.contains('='),
    ensures
        env_entry("#"@ + rest) is None,
        env_entry(plain) is None,
{
    reveal_strlit("#");
    reveal_strlit("export ");
    let line = "#"@ + rest;
    trimming_takes_white_space(line);
    let kept = trimmed(line);
    let (before, behind) = choose|before: Seq<char>, behind: Seq<char>|
        line == #[trigger] (before + kept + behind) && (forall|i: int|
            0 <= i < before.len() ==> white_space(#[trigger] before[i])) && (forall|i: int|
            0 <= i < behind.len() ==> white_space(#[trigger] behind[i]));
    assert(!white_space('#')) by {
        assert('#' as u32 == 0x23);
    }
    assert(line[0] == '#');
    if before.len() > 0 {
        assert(line[0] == before[0]);
    } else if kept.len() > 0 {
        assert(line[0] == kept[0]);
    }
    trimming_takes_white_space(plain);
    let left = trimmed(plain);
    let (front, back) = choose|before: Seq<char>, behind: Seq<char>|
        plain == #[trigger] (before + left + behind) && (forall|i: int|
            0 <= i < before.len() ==> white_space(#[trigger] before[i])) && (forall|i: int|
            0 <= i < behind.len() ==> white_space(#[trigger] behind[i]));
    let text = if "export "@.is_prefix_of(left) {
        left.skip(7)
    } else {
        left
    };
    assert forall|j: int| 0 <= j < text.len() implies text[j] != '=' by {
        let shift = left.len() - text.len();
        assert(text[j] == left[j + shift]);
        assert(plain[front.len() + j + shift] == left[j + shift]);
        assert(plain.contains(plain[front.len() + j + shift]));
    }
    split_first_none(text, '=');
}

/// Quotes of one kind around a value are taken off, once, and nothing else is.
pub proof fn quotes_are_taken_off(value: Seq<char>)
    ensures
        unquoted(seq!['"'] + value + seq!['"']) == value,
        unquoted(seq!['\''] + value + seq!['\'']) == value,
        value.len() > 0 && value[0] != '"' && value[0] != '\'' ==> unquoted(value) == value,
{
    let double = seq!['"'] + value + seq!['"'];
    let single = seq!['\''] + value + seq!['\''];
    assert(double.subrange(1, double.len() - 1) =~= value);
    assert(single.subrange(1, single.len() - 1) =~= value);
}

/// Quotes that do not match, and a single one, stay.
pub proof fn unmatched_quotes_stay(value: Seq<char>)
    ensures
        value.len() < 2 ==> unquoted(value) == value,
        value.len() >= 2 && value[0] != value.last() ==> unquoted(value) == value,
{
}

} // verus!
