//! The log files of services, which never grow beyond a limit.
use vstd::prelude::*;
use vstd::utf8::encode_utf8;
use crate::collections::TextMap;
use crate::config::workspace::DevWorkspaceConfig;
use crate::dev::process::LogEvent;
use crate::executor::command::{shell_split, split_words};
use crate::paths::{
    is_absolute, join_path, joined_paths_lie_under_their_base, lying_under_is_an_order, parts_of, path_join, path_parts, path_under,
};
use crate::text::{byte_count, byte_length, byte_length_sum, concat2, concat3, concat4, join_texts, joined, same_text, texts};

verus! {

/// The size that no log file exceeds.
pub const SERVICE_LOG_MAX_BYTES: u64 = 10485760;

/// What begins a log file that was cut.
pub const TRUNCATION_NOTICE: &'static str = "[aster] log truncated after reaching the 10 MiB limit\n";

/// What a log file holds in place of a line that is too long.
pub const OVERSIZED_LINE_NOTICE: &'static str = "[aster] log line omitted because it exceeds the 10 MiB limit\n";

// ---------------------------------------------------------------------------
// Paths
// ---------------------------------------------------------------------------

/// A hexadecimal digit.
pub open spec fn hex_digit(value: int) -> char {
    if value < 10 {
        (48 + value) as char
    } else {
        (55 + value) as char
    }
}

/// A byte that stands for itself in the name of a directory.
pub open spec fn is_plain_byte(byte: u8) -> bool {
    48 <= byte <= 57 || 65 <= byte <= 90 || 97 <= byte <= 122 || byte == 45 || byte == 95 || byte == 46
}

/// A byte in the name of a directory: itself, or its number behind a percent sign.
pub open spec fn byte_code(byte: u8) -> Seq<char> {
    if is_plain_byte(byte) {
        seq![byte as char]
    } else {
        seq!['%', hex_digit(byte as int / 16), hex_digit(byte as int % 16)]
    }
}

/// Bytes in the name of a directory.
pub open spec fn byte_codes(bytes: Seq<u8>) -> Seq<char>
    decreases bytes.len(),
{
    if bytes.len() == 0 {
        Seq::empty()
    } else {
        byte_codes(bytes.drop_last()) + byte_code(bytes.last())
    }
}

/// A string as the name of one directory.
pub open spec fn path_component(value: Seq<char>) -> Seq<char> {
    let codes = byte_codes(encode_utf8(value));
    if codes.len() == 0 {
        "default"@
    } else if codes == "."@ {
        "%2E"@
    } else if codes == ".."@ {
        "%2E%2E"@
    } else {
        codes
    }
}

fn push_byte_code(text: &mut String, byte: u8)
    ensures
        final(text)@ == old(text)@ + byte_code(byte),
{
    let ghost before = text@;
    if (48 <= byte && byte <= 57) || (65 <= byte && byte <= 90) || (97 <= byte && byte <= 122) || byte == 45 || byte
        == 95 || byte == 46 {
        text.push(byte as char);
    } else {
        let high: u8 = byte / 16;
        let low: u8 = byte % 16;
        text.push('%');
        if high < 10 {
            text.push((48 + high) as char);
        } else {
            text.push((55 + high) as char);
        }
        if low < 10 {
            text.push((48 + low) as char);
        } else {
            text.push((55 + low) as char);
        }
    }
    assert(text@ =~= before + byte_code(byte));
}

/// A string as the name of one directory.
pub fn encode_path_component(value: &str) -> (name: String)
    ensures
        name@ == path_component(value@),
{
    let bytes = value.as_bytes();
    let ghost all = encode_utf8(value@);
    let mut name = String::new();
    let mut i: usize = 0;
    assert(all.take(0) =~= Seq::<u8>::empty());
    while i < bytes.len()
        invariant
            bytes@ == all,
            i <= bytes@.len(),
            name@ == byte_codes(all.take(i as int)),
        decreases bytes@.len() - i,
    {
        proof {
            assert(all.take(i + 1).drop_last() =~= all.take(i as int));
            assert(all.take(i + 1).last() == all[i as int]);
        }
        push_byte_code(&mut name, bytes[i]);
        i += 1;
    }
    assert(all.take(all.len() as int) =~= all);
    if name.as_str().is_empty() {
        "default".to_owned()
    } else if same_text(&name, ".") {
        "%2E".to_owned()
    } else if same_text(&name, "..") {
        "%2E%2E".to_owned()
    } else {
        name
    }
}

/// A character that may stand in the name of a directory.
pub open spec fn is_component_char(c: char) -> bool {
    '0' <= c <= '9' || 'A' <= c <= 'Z' || 'a' <= c <= 'z' || c == '-' || c == '_' || c == '.' || c == '%'
}

proof fn code_characters(bytes: Seq<u8>)
    ensures
        forall|i: int| 0 <= i < byte_codes(bytes).len() ==> is_component_char(#[trigger] byte_codes(bytes)[i]),
    decreases bytes.len(),
{
    if bytes.len() > 0 {
        code_characters(bytes.drop_last());
        let front = byte_codes(bytes.drop_last());
        let code = byte_code(bytes.last());
        let all = byte_codes(bytes);
        assert(0 <= bytes.last() as int / 16 < 16 && 0 <= bytes.last() as int % 16 < 16);
        assert forall|i: int| 0 <= i < all.len() implies is_component_char(#[trigger] all[i]) by {
            if i < front.len() {
                assert(all[i] == front[i]);
            } else {
                assert(all[i] == code[i - front.len()]);
            }
        }
    }
}

/// The name of a directory names one directory, below the one it stands in:
/// it is not empty, is made of letters, digits, `-`, `_`, `.` and `%`, has no
/// slash and is neither `.` nor `..`.
pub proof fn component_is_safe(value: Seq<char>)
    ensures
        path_component(value).len() > 0,
        forall|i: int|
            0 <= i < path_component(value).len() ==> is_component_char(#[trigger] path_component(value)[i]),
        !path_component(value).contains('/'),
        path_component(value) != "."@,
        path_component(value) != ".."@,
{
    code_characters(encode_utf8(value));
    reveal_strlit("default");
    reveal_strlit("%2E");
    reveal_strlit("%2E%2E");
    reveal_strlit(".");
    reveal_strlit("..");
    assert("default"@ =~= seq!['d', 'e', 'f', 'a', 'u', 'l', 't']);
    assert("%2E"@ =~= seq!['%', '2', 'E']);
    assert("%2E%2E"@ =~= seq!['%', '2', 'E', '%', '2', 'E']);
    let name = path_component(value);
    assert forall|i: int| 0 <= i < name.len() implies is_component_char(#[trigger] name[i]) by {}
    if name.contains('/') {
        let i = choose|i: int| 0 <= i < name.len() && name[i] == '/';
        assert(is_component_char(name[i]));
    }
}

proof fn codes_from_first(bytes: Seq<u8>)
    requires
        bytes.len() > 0,
    ensures
        byte_codes(bytes) == byte_code(bytes[0]) + byte_codes(bytes.skip(1)),
    decreases bytes.len(),
{
    let rest = bytes.skip(1);
    if bytes.len() == 1 {
        assert(bytes.drop_last() =~= Seq::<u8>::empty());
        assert(rest =~= Seq::<u8>::empty());
        assert(byte_codes(bytes) =~= byte_code(bytes[0]) + byte_codes(rest));
    } else {
        let front = bytes.drop_last();
        codes_from_first(front);
        assert(front.skip(1) =~= rest.drop_last());
        assert(byte_codes(bytes) =~= byte_code(bytes[0]) + byte_codes(rest));
    }
}

/// Which byte comes first can be told from the characters.
proof fn first_code_tells(one: u8, rest: Seq<char>, two: u8, other: Seq<char>)
    requires
        byte_code(one) + rest == byte_code(two) + other,
    ensures
        one == two,
        rest == other,
{
    let all = byte_code(one) + rest;
    let same = byte_code(two) + other;
    assert(all[0] == byte_code(one)[0]);
    assert(same[0] == byte_code(two)[0]);
    if !is_plain_byte(one) && !is_plain_byte(two) {
        assert(all[1] == byte_code(one)[1] && all[2] == byte_code(one)[2]);
        assert(same[1] == byte_code(two)[1] && same[2] == byte_code(two)[2]);
        assert(0 <= one as int / 16 < 16 && 0 <= one as int % 16 < 16);
        assert(0 <= two as int / 16 < 16 && 0 <= two as int % 16 < 16);
        assert(one as int / 16 == two as int / 16);
        assert(one as int % 16 == two as int % 16);
    }
    assert(one == two);
    assert(all.skip(byte_code(one).len() as int) =~= rest);
    assert(same.skip(byte_code(two).len() as int) =~= other);
}

proof fn codes_tell_bytes(one: Seq<u8>, two: Seq<u8>)
    requires
        byte_codes(one) == byte_codes(two),
    ensures
        one == two,
    decreases one.len(),
{
    if one.len() > 0 {
        codes_from_first(one);
    }
    if two.len() > 0 {
        codes_from_first(two);
    }
    if one.len() > 0 && two.len() > 0 {
        first_code_tells(one[0], byte_codes(one.skip(1)), two[0], byte_codes(two.skip(1)));
        codes_tell_bytes(one.skip(1), two.skip(1));
        assert(one =~= seq![one[0]] + one.skip(1));
        assert(two =~= seq![two[0]] + two.skip(1));
    } else {
        assert(byte_codes(one).len() == 0);
        assert(one =~= two);
    }
}

/// A dot is never written as its number, but for the two names of dots alone.
proof fn dot_stands_for_itself(bytes: Seq<u8>)
    ensures
        !seq!['%', '2', 'E'].is_prefix_of(byte_codes(bytes)),
{
    let codes = byte_codes(bytes);
    if seq!['%', '2', 'E'].is_prefix_of(codes) {
        codes_from_first(bytes);
        let first = bytes[0];
        assert(codes.take(3)[0] == '%' && codes.take(3)[1] == '2' && codes.take(3)[2] == 'E');
        assert(codes[0] == byte_code(first)[0]);
        assert(!is_plain_byte(first));
        assert(codes[1] == byte_code(first)[1] && codes[2] == byte_code(first)[2]);
        assert(0 <= first as int / 16 < 16 && 0 <= first as int % 16 < 16);
        assert(first as int / 16 == 2 && first as int % 16 == 14);
        assert(first == 46);
    }
}

proof fn plain_codes(value: Seq<char>)
    requires
        vstd::utf8::is_ascii_chars(value),
        forall|i: int| 0 <= i < value.len() ==> is_plain_byte((#[trigger] value[i]) as u8),
    ensures
        byte_codes(encode_utf8(value)) == value,
    decreases value.len(),
{
    if value.len() > 0 {
        let rest = value.drop_first();
        assert forall|i: int| 0 <= i < rest.len() implies '\0' <= #[trigger] rest[i] <= '\u{7f}' && is_plain_byte(
            rest[i] as u8,
        ) by {
            assert(rest[i] == value[i + 1]);
        }
        plain_codes(rest);
        let bytes = encode_utf8(value);
        vstd::utf8::is_ascii_chars_encode_utf8(value);
        vstd::utf8::is_ascii_chars_encode_utf8(rest);
        assert(bytes[0] == value[0] as u8);
        assert(bytes.skip(1) =~= encode_utf8(rest)) by {
            assert forall|i: int| 0 <= i < rest.len() implies bytes.skip(1)[i] == encode_utf8(rest)[i] by {
                assert(bytes[i + 1] == value[i + 1] as u8);
                assert(encode_utf8(rest)[i] == rest[i] as u8);
            }
        }
        codes_from_first(bytes);
        assert('\0' <= value[0] <= '\u{7f}');
        assert((value[0] as u8) as char == value[0]);
        assert(byte_codes(bytes) =~= value);
    }
}

/// Different strings give different names, but for the empty one, which gives
/// the name `default`.
pub proof fn components_stay_apart(one: Seq<char>, two: Seq<char>)
    requires
        one != two,
    ensures
        path_component(one) == path_component(two) <==> (one.len() == 0 && two == "default"@) || (one == "default"@
            && two.len() == 0),
{
    let first = byte_codes(encode_utf8(one));
    let second = byte_codes(encode_utf8(two));
    vstd::utf8::encode_utf8_decode_utf8(one);
    vstd::utf8::encode_utf8_decode_utf8(two);
    if first == second {
        codes_tell_bytes(encode_utf8(one), encode_utf8(two));
    }
    dot_stands_for_itself(encode_utf8(one));
    dot_stands_for_itself(encode_utf8(two));
    reveal_strlit("default");
    reveal_strlit("%2E");
    reveal_strlit("%2E%2E");
    reveal_strlit(".");
    reveal_strlit("..");
    assert("default"@ =~= seq!['d', 'e', 'f', 'a', 'u', 'l', 't']);
    assert("%2E"@.take(3) =~= seq!['%', '2', 'E']);
    assert("%2E%2E"@.take(3) =~= seq!['%', '2', 'E']);
    assert("%2E"@[0] == '%' && "%2E%2E"@[0] == '%' && "default"@[0] == 'd');
    plain_codes("default"@);
    plain_codes(Seq::empty());
    if first == "default"@ {
        codes_tell_bytes(encode_utf8(one), encode_utf8("default"@));
        vstd::utf8::encode_utf8_decode_utf8("default"@);
    }
    if second == "default"@ {
        codes_tell_bytes(encode_utf8(two), encode_utf8("default"@));
        vstd::utf8::encode_utf8_decode_utf8("default"@);
    }
    if first.len() == 0 {
        assert(first =~= byte_codes(encode_utf8(Seq::empty())));
        codes_tell_bytes(encode_utf8(one), encode_utf8(Seq::empty()));
        vstd::utf8::encode_utf8_decode_utf8(Seq::empty());
    }
    if second.len() == 0 {
        assert(second =~= byte_codes(encode_utf8(Seq::empty())));
        codes_tell_bytes(encode_utf8(two), encode_utf8(Seq::empty()));
        vstd::utf8::encode_utf8_decode_utf8(Seq::empty());
    }
    if one.len() == 0 {
        assert(one =~= Seq::<char>::empty());
    }
    if two.len() == 0 {
        assert(two =~= Seq::<char>::empty());
    }
}

/// The name of the workspace's own directory.
pub open spec fn worktree(workspace_root: Seq<char>) -> Seq<char> {
    let parts = path_parts(workspace_root);
    if parts.len() == 0 || parts.last() == ".."@ || parts.last() == "."@ {
        "default"@
    } else {
        parts.last()
    }
}

/// The name of the workspace's own directory.
pub fn worktree_name(workspace_root: &str) -> (name: String)
    ensures
        name@ == worktree(workspace_root@),
{
    let parts = parts_of(workspace_root);
    assert(texts(parts@).len() == parts@.len());
    if parts.len() == 0 {
        return "default".to_owned();
    }
    let last = &parts[parts.len() - 1];
    assert(texts(parts@).last() == last@);
    if same_text(last, "..") || same_text(last, ".") {
        "default".to_owned()
    } else {
        last.clone()
    }
}

/// The directory of the log of a service.
pub open spec fn log_directory(workspace_root: Seq<char>, service: Seq<char>) -> Seq<char> {
    path_join(
        path_join(
            path_join(path_join(workspace_root, ".aster"@), "logs"@),
            path_component(worktree(workspace_root)),
        ),
        path_component(service),
    )
}

/// The directory of the log of a service.
pub fn service_log_directory(workspace_root: &str, service: &str) -> (path: String)
    ensures
        path@ == log_directory(workspace_root@, service@),
{
    let logs = join_path(&join_path(workspace_root, ".aster"), "logs");
    let base = join_path(&logs, &encode_path_component(&worktree_name(workspace_root)));
    join_path(&base, &encode_path_component(service))
}

/// Where the log of a service is.
pub fn service_log_path(workspace_root: &str, service: &str) -> (path: String)
    ensures
        path@ == path_join(log_directory(workspace_root@, service@), "logs.txt"@),
{
    join_path(&service_log_directory(workspace_root, service), "logs.txt")
}

// ---------------------------------------------------------------------------
// Writing
// ---------------------------------------------------------------------------

/// What is written to a file: a new content, or more behind what it holds.
#[derive(Debug)]
pub struct LogWrite {
    /// The file is emptied first
    pub replace: bool,
    pub text: String,
}

/// The size of a file after something is written to it.
pub open spec fn length_after(before: int, write: LogWrite) -> int {
    (if write.replace {
        0
    } else {
        before
    }) + byte_length(write.text@)
}

/// A log file by its size and limit.
#[derive(Debug)]
pub struct CappedLogFile {
    pub len: u64,
    pub max_bytes: u64,
}

/// A message that fits in a file of its own, or nothing.
pub open spec fn fitting(message: Seq<char>, max_bytes: int) -> Seq<char> {
    if byte_length(message) <= max_bytes {
        message
    } else {
        Seq::empty()
    }
}

/// What is written for a line.
pub open spec fn line_write(len: int, max_bytes: int, line: Seq<char>) -> (bool, Seq<char>) {
    let size = byte_length(line) + 1;
    if size > max_bytes {
        (true, fitting(OVERSIZED_LINE_NOTICE@, max_bytes))
    } else if len + size > max_bytes {
        if byte_length(TRUNCATION_NOTICE@) + size <= max_bytes {
            (true, TRUNCATION_NOTICE@ + line + "\n"@)
        } else {
            (true, line + "\n"@)
        }
    } else {
        (false, line + "\n"@)
    }
}

proof fn newline_size()
    ensures
        byte_length("\n"@) == 1,
{
    reveal_strlit("\n");
    assert("\n"@ =~= seq!['\n']);
    assert(seq!['\n'].drop_first() =~= Seq::<char>::empty());
    assert(encode_utf8(Seq::<char>::empty()).len() == 0);
    assert(vstd::utf8::encode_scalar('\n' as u32).len() == 1);
}

impl CappedLogFile {
    /// The file is within its limit.
    pub open spec fn well_formed(&self) -> bool {
        self.len <= self.max_bytes
    }

    /// Begin with a file of the given size: it is cut where it is beyond the
    /// limit.
    pub fn open(len: u64, max_bytes: u64) -> (opened: (CappedLogFile, Option<LogWrite>))
        ensures
            opened.0.well_formed(),
            opened.0.max_bytes == max_bytes,
            opened.1 is Some <==> len > max_bytes,
            opened.1 matches Some(write) ==> write.replace && write.text@ == fitting(
                TRUNCATION_NOTICE@,
                max_bytes as int,
            ) && opened.0.len == byte_length(write.text@),
            opened.1 is None ==> opened.0.len == len,
    {
        if len <= max_bytes {
            return (CappedLogFile { len, max_bytes }, None);
        }
        let (text, size) = fit_notice(TRUNCATION_NOTICE, max_bytes);
        (CappedLogFile { len: size, max_bytes }, Some(LogWrite { replace: true, text }))
    }

    /// What is written for a line. The file never exceeds its limit.
    pub fn write_line(&mut self, line: &str) -> (write: LogWrite)
        requires
            old(self).well_formed(),
        ensures
            final(self).well_formed(),
            final(self).max_bytes == old(self).max_bytes,
            (write.replace, write.text@) == line_write(old(self).len as int, old(self).max_bytes as int, line@),
            final(self).len == length_after(old(self).len as int, write),
            length_after(old(self).len as int, write) <= old(self).max_bytes,
    {
        let size: u64 = byte_count(line);
        proof {
            newline_size();
            byte_length_sum(line@, "\n"@);
            byte_length_sum(TRUNCATION_NOTICE@ + line@, "\n"@);
            byte_length_sum(TRUNCATION_NOTICE@, line@);
        }
        if size >= self.max_bytes {
            let (text, length) = fit_notice(OVERSIZED_LINE_NOTICE, self.max_bytes);
            self.len = length;
            return LogWrite { replace: true, text };
        }
        let line_bytes: u64 = size + 1;
        if line_bytes > self.max_bytes - self.len {
            let notice: u64 = byte_count(TRUNCATION_NOTICE);
            if notice <= self.max_bytes - line_bytes {
                self.len = notice + line_bytes;
                return LogWrite { replace: true, text: concat3(TRUNCATION_NOTICE, line, "\n") };
            }
            self.len = line_bytes;
            return LogWrite { replace: true, text: concat2(line, "\n") };
        }
        self.len = self.len + line_bytes;
        LogWrite { replace: false, text: concat2(line, "\n") }
    }
}

fn fit_notice(notice: &str, max_bytes: u64) -> (fit: (String, u64))
    ensures
        fit.0@ == fitting(notice@, max_bytes as int),
        fit.1 == byte_length(fit.0@),
        fit.1 <= max_bytes,
{
    let size: u64 = byte_count(notice);
    if size <= max_bytes {
        (notice.to_owned(), size)
    } else {
        let empty = String::new();
        assert(empty@ =~= Seq::<char>::empty());
        assert(encode_utf8(Seq::<char>::empty()).len() == 0);
        (empty, 0)
    }
}

/// The log files of a run.
#[derive(Debug)]
pub struct ServiceLogFiles {
    pub files: TextMap<CappedLogFile>,
}

impl ServiceLogFiles {
    /// Every file is within its limit.
    pub open spec fn well_formed(&self) -> bool {
        forall|name: Seq<char>| #[trigger] self.files@.contains_key(name) ==> self.files@[name].well_formed()
    }

    /// No files.
    pub fn new() -> (files: ServiceLogFiles)
        ensures
            files.well_formed(),
            files.files@ == Map::<Seq<char>, CappedLogFile>::empty(),
    {
        ServiceLogFiles { files: TextMap::new() }
    }

    /// Add the file of a service, given by its size.
    pub fn add(&mut self, service: &str, len: u64, max_bytes: u64) -> (write: Option<LogWrite>)
        requires
            old(self).well_formed(),
        ensures
            final(self).well_formed(),
            final(self).files@.dom() == old(self).files@.dom().insert(service@),
            final(self).files@.remove(service@) == old(self).files@.remove(service@),
            final(self).files@[service@].max_bytes == max_bytes,
            write is Some <==> len > max_bytes,
            write matches Some(cut) ==> cut.replace && cut.text@ == fitting(TRUNCATION_NOTICE@, max_bytes as int)
                && final(self).files@[service@].len == byte_length(cut.text@),
            write is None ==> final(self).files@[service@].len == len,
    {
        let (file, write) = CappedLogFile::open(len, max_bytes);
        let ghost before = self.files@;
        self.files.insert(service.to_owned(), file);
        assert(self.files@.dom() =~= before.dom().insert(service@));
        assert(self.files@.remove(service@) =~= before.remove(service@));
        write
    }

    /// What is written for a line of a service, and to which service's file.
    pub fn write(&mut self, event: &LogEvent) -> (write: Option<LogWrite>)
        requires
            old(self).well_formed(),
        ensures
            final(self).well_formed(),
            write is Some <==> old(self).files@.contains_key(event.service@),
            write matches Some(text) ==> {
                let file = old(self).files@[event.service@];
                &&& (text.replace, text.text@) == line_write(file.len as int, file.max_bytes as int, event.line@)
                &&& final(self).files@[event.service@].len == length_after(file.len as int, text)
                &&& final(self).files@[event.service@].max_bytes == file.max_bytes
                &&& length_after(file.len as int, text) <= file.max_bytes
            },
            final(self).files@.dom() == old(self).files@.dom(),
            final(self).files@.remove(event.service@) == old(self).files@.remove(event.service@),
    {
        let ghost before = self.files@;
        match self.files.remove(&event.service) {
            None => {
                assert(self.files@ =~= before);
                None
            },
            Some(taken) => {
                let mut file = taken;
                let write = file.write_line(&event.line);
                self.files.insert(event.service.clone(), file);
                assert(self.files@.dom() =~= before.dom());
                assert(self.files@.remove(event.service@) =~= before.remove(event.service@));
                Some(write)
            },
        }
    }
}

/// Whatever is written, a log file never exceeds its limit.
pub proof fn log_stays_within_limit(len: int, max_bytes: int, line: Seq<char>)
    requires
        0 <= len <= max_bytes,
    ensures
        ({
            let write = line_write(len, max_bytes, line);
            (if write.0 {
                0
            } else {
                len
            }) + byte_length(write.1) <= max_bytes
        }),
{
    newline_size();
    byte_length_sum(line, "\n"@);
    byte_length_sum(TRUNCATION_NOTICE@ + line, "\n"@);
    byte_length_sum(TRUNCATION_NOTICE@, line);
    assert(encode_utf8(Seq::<char>::empty()).len() == 0);
}

// ---------------------------------------------------------------------------
// Reading
// ---------------------------------------------------------------------------

/// What is said of a service that is not configured.
pub open spec fn unknown_service_text(service: Seq<char>, known: Seq<Seq<char>>) -> Seq<char> {
    if known.len() == 0 {
        "unknown service '"@ + service + "'; no services are configured"@
    } else {
        "unknown service '"@ + service + "'; configured services: "@ + joined(known, ", "@)
    }
}

/// Where the log of a configured service is.
pub fn find_service_log(workspace_root: &str, config: &DevWorkspaceConfig, service: &str) -> (path: Result<
    String,
    String,
>)
    ensures
        path is Ok <==> config.services@.contains_key(service@),
        path matches Ok(found) ==> found@ == path_join(log_directory(workspace_root@, service@), "logs.txt"@),
        path matches Err(message) ==> message@ == unknown_service_text(service@, config.services.keys()),
{
    if config.services.contains_key(service) {
        return Ok(service_log_path(workspace_root, service));
    }
    let mut known: Vec<String> = Vec::new();
    let count = config.services.len();
    let mut i: usize = 0;
    while i < count
        invariant
            i <= count,
            count == config.services.keys().len(),
            known@.len() == i,
            forall|k: int| 0 <= k < i ==> (#[trigger] known@[k])@ == config.services.keys()[k],
        decreases count - i,
    {
        known.push(config.services.key_at(i).clone());
        i += 1;
    }
    assert(texts(known@) =~= config.services.keys());
    if known.len() == 0 {
        Err(concat3("unknown service '", service, "'; no services are configured"))
    } else {
        Err(concat4("unknown service '", service, "'; configured services: ", &join_texts(&known, ", ")))
    }
}

/// What is said where a service has no log yet.
pub fn missing_log_text(service: &str, path: &str) -> (message: String)
    ensures
        message@ == "no logs found for service '"@ + service@ + "' at "@ + path@
            + "; run `aster services up` first"@,
{
    concat2(&concat4("no logs found for service '", service, "' at ", path), "; run `aster services up` first")
}

/// The command that shows a log: the configured pager, or none where that is
/// blank.
pub fn pager_command(pager: &str) -> (command: Result<Option<Vec<String>>, String>)
    ensures
        match command {
            Ok(Some(words)) => shell_split(pager@) == Some(texts(words@)) && words@.len() > 0,
            Ok(None) => shell_split(pager@) is Some && shell_split(pager@)->0.len() == 0,
            Err(message) => shell_split(pager@) is None && message@ == "failed to parse PAGER"@,
        },
{
    match split_words(pager) {
        Err(_) => Err("failed to parse PAGER".to_owned()),
        Ok(words) => {
            assert(texts(words@).len() == words@.len());
            if words.len() == 0 {
                Ok(None)
            } else {
                Ok(Some(words))
            }
        },
    }
}

/// A line that can be kept is written whole: behind the others as long as there is
/// room, and at the beginning of a new file where there is none. Only a line that no
/// file can hold is left out.
pub proof fn lines_are_written_whole(len: int, max_bytes: int, line: Seq<char>)
    requires
        0 <= len <= max_bytes,
    ensures
        len + byte_length(line) + 1 <= max_bytes ==> line_write(len, max_bytes, line) == (false, line + "\n"@),
        byte_length(line) + 1 <= max_bytes < len + byte_length(line) + 1 ==> line_write(len, max_bytes, line).0 && (line
            + "\n"@).is_suffix_of(line_write(len, max_bytes, line).1),
        byte_length(line) + 1 > max_bytes ==> line_write(len, max_bytes, line).0 && (byte_length(OVERSIZED_LINE_NOTICE@)
            <= max_bytes ==> line_write(len, max_bytes, line).1 == OVERSIZED_LINE_NOTICE@),
{
    let text = line + "\n"@;
    let cut = TRUNCATION_NOTICE@ + line + "\n"@;
    assert(text =~= cut.skip(cut.len() - text.len()));
    assert(text.skip(0) =~= text);
    assert(text.is_suffix_of(text));
}

/// The log of a service lies in the workspace, and those of different services lie in
/// different directories.
pub proof fn logs_lie_in_the_workspace(root: Seq<char>, one: Seq<char>, two: Seq<char>)
    ensures
        path_under(log_directory(root, one), root),
        path_component(one) != path_component(two) ==> log_directory(root, one) != log_directory(root, two),
{
    reveal_strlit(".aster");
    reveal_strlit("logs");
    let first = path_join(root, ".aster"@);
    let second = path_join(first, "logs"@);
    let own = path_component(worktree(root));
    let third = path_join(second, own);
    component_is_safe(worktree(root));
    component_is_safe(one);
    component_is_safe(two);
    not_absolute(own);
    not_absolute(path_component(one));
    not_absolute(path_component(two));
    joined_paths_lie_under_their_base(root, ".aster"@);
    joined_paths_lie_under_their_base(first, "logs"@);
    joined_paths_lie_under_their_base(second, own);
    joined_paths_lie_under_their_base(third, path_component(one));
    let all = log_directory(root, one);
    lying_under_is_an_order(all, third, second);
    lying_under_is_an_order(all, second, first);
    lying_under_is_an_order(all, first, root);
    let other = log_directory(root, two);
    assert(third.len() > 0);
    if all == other {
        let start = all.len() - path_component(one).len();
        let begin = other.len() - path_component(two).len();
        assert(start == begin);
        assert(all.skip(start) =~= path_component(one));
        assert(other.skip(begin) =~= path_component(two));
    }
}

proof fn not_absolute(name: Seq<char>)
    requires
        !name.contains('/'),
    ensures
        !is_absolute(name),
{
    if name.len() > 0 {
        assert(name.contains(name[0]));
    }
}

} // verus!
