//! Terminal control sequences in the output of services.
use vstd::prelude::*;
use crate::text::chars_of;

verus! {

/// The character that begins a control sequence.
pub const ESCAPE: char = '\x1b';

/// The character that may end an operating system command.
pub const BELL: char = '\x07';

/// Behind a control sequence that ends with its first letter or sign.
pub open spec fn after_control(s: Seq<char>) -> Seq<char>
    decreases s.len(),
{
    if s.len() == 0 {
        s
    } else if '@' <= s[0] <= '~' {
        s.skip(1)
    } else {
        after_control(s.skip(1))
    }
}

/// Behind a string that ends with an escape and a backslash, or with a bell
/// where that is allowed.
pub open spec fn after_string(s: Seq<char>, bell: bool) -> Seq<char>
    decreases s.len(),
{
    if s.len() == 0 {
        s
    } else if bell && s[0] == BELL {
        s.skip(1)
    } else if s[0] == ESCAPE && s.len() > 1 && s[1] == '\\' {
        s.skip(2)
    } else {
        after_string(s.skip(1), bell)
    }
}

/// What follows is no longer.
pub proof fn after_is_shorter(s: Seq<char>, bell: bool)
    ensures
        after_control(s).len() <= s.len(),
        after_string(s, bell).len() <= s.len(),
    decreases s.len(),
{
    if s.len() > 0 {
        after_is_shorter(s.skip(1), bell);
    }
}

/// The text without control sequences.
pub open spec fn stripped(s: Seq<char>) -> Seq<char>
    decreases s.len(),
{
    if s.len() == 0 {
        Seq::empty()
    } else if s[0] != ESCAPE {
        seq![s[0]] + stripped(s.skip(1))
    } else if s.len() == 1 {
        Seq::empty()
    } else if s[1] > '\x7f' {
        stripped(s.skip(1))
    } else {
        proof {
            after_is_shorter(s.skip(2), true);
            after_is_shorter(s.skip(2), false);
        }
        if s[1] == '[' {
            stripped(after_control(s.skip(2)))
        } else if s[1] == ']' {
            stripped(after_string(s.skip(2), true))
        } else if s[1] == 'P' || s[1] == 'X' || s[1] == '^' || s[1] == '_' {
            stripped(after_string(s.skip(2), false))
        } else {
            stripped(s.skip(2))
        }
    }
}

fn skip_control(chars: &Vec<char>, from: usize) -> (to: usize)
    requires
        from <= chars@.len(),
    ensures
        from <= to <= chars@.len(),
        chars@.skip(to as int) == after_control(chars@.skip(from as int)),
{
    let mut at: usize = from;
    while at < chars.len()
        invariant
            from <= at <= chars@.len(),
            after_control(chars@.skip(from as int)) == after_control(chars@.skip(at as int)),
        decreases chars@.len() - at,
    {
        let c = chars[at];
        assert(chars@.skip(at as int)[0] == c);
        assert(chars@.skip(at as int).skip(1) =~= chars@.skip(at + 1));
        at += 1;
        if '@' <= c && c <= '~' {
            return at;
        }
    }
    at
}

fn skip_string(chars: &Vec<char>, from: usize, bell: bool) -> (to: usize)
    requires
        from <= chars@.len(),
    ensures
        from <= to <= chars@.len(),
        chars@.skip(to as int) == after_string(chars@.skip(from as int), bell),
{
    let end: usize = chars.len();
    let mut at: usize = from;
    while at < end
        invariant
            end == chars@.len(),
            from <= at <= end,
            after_string(chars@.skip(from as int), bell) == after_string(chars@.skip(at as int), bell),
        decreases end - at,
    {
        let c = chars[at];
        proof {
            let rest = chars@.skip(at as int);
            assert(rest[0] == c);
            assert(rest.skip(1) =~= chars@.skip(at + 1));
            if rest.len() > 1 {
                assert(rest[1] == chars@[at + 1]);
                assert(rest.skip(2) =~= chars@.skip(at + 2));
            }
        }
        at += 1;
        if bell && c == BELL {
            return at;
        }
        if c == ESCAPE && at < end && chars[at] == '\\' {
            return at + 1;
        }
    }
    at
}

/// Remove terminal control sequences from a line of output.
///
/// An escape can be followed by ordinary characters in malformed output: one
/// outside ASCII is kept.
pub fn strip_ansi_sequences(input: &str) -> (output: String)
    ensures
        output@ == stripped(input@),
{
    let chars = chars_of(input);
    let end: usize = chars.len();
    let mut output = String::new();
    let mut index: usize = 0;
    assert(input@.skip(0) =~= input@);
    assert(output@ + stripped(input@.skip(0)) =~= stripped(input@));
    while index < end
        invariant
            end == chars@.len(),
            chars@ == input@,
            index <= end,
            output@ + stripped(input@.skip(index as int)) == stripped(input@),
        decreases end - index,
    {
        let ghost rest = input@.skip(index as int);
        let ghost before = output@;
        let c = chars[index];
        proof {
            assert(rest[0] == c);
            assert(rest.skip(1) =~= input@.skip(index + 1));
            if rest.len() > 1 {
                assert(rest[1] == chars@[index + 1]);
                assert(rest.skip(2) =~= input@.skip(index + 2));
            }
        }
        if c != ESCAPE {
            output.push(c);
            index += 1;
            assert(output@ + stripped(input@.skip(index as int)) =~= before + stripped(rest));
        } else if index + 1 == end {
            index += 1;
            assert(input@.skip(index as int).len() == 0);
        } else {
            let kind = chars[index + 1];
            if kind > '\x7f' {
                index += 1;
            } else if kind == '[' {
                index = skip_control(&chars, index + 2);
            } else if kind == ']' {
                index = skip_string(&chars, index + 2, true);
            } else if kind == 'P' || kind == 'X' || kind == '^' || kind == '_' {
                index = skip_string(&chars, index + 2, false);
            } else {
                index += 2;
            }
        }
    }
    assert(input@.skip(index as int).len() == 0);
    assert(output@ =~= output@ + stripped(input@.skip(index as int)));
    output
}

/// No escape is left, and a text without one is kept as it is.
pub proof fn stripping_removes_escapes(s: Seq<char>)
    ensures
        !stripped(s).contains(ESCAPE),
        !s.contains(ESCAPE) ==> stripped(s) == s,
    decreases s.len(),
{
    if s.len() > 0 {
        let rest = s.skip(1);
        if s[0] != ESCAPE {
            stripping_removes_escapes(rest);
            let all = stripped(s);
            if all.contains(ESCAPE) {
                let i = choose|i: int| 0 <= i < all.len() && all[i] == ESCAPE;
                assert(stripped(rest)[i - 1] == ESCAPE);
            }
            if !s.contains(ESCAPE) {
                if rest.contains(ESCAPE) {
                    let i = choose|i: int| 0 <= i < rest.len() && rest[i] == ESCAPE;
                    assert(s[i + 1] == ESCAPE);
                }
                assert(seq![s[0]] + rest =~= s);
            }
        } else {
            assert(s.contains(s[0]));
            if s.len() > 1 {
                after_is_shorter(s.skip(2), true);
                after_is_shorter(s.skip(2), false);
                stripping_removes_escapes(rest);
                stripping_removes_escapes(after_control(s.skip(2)));
                stripping_removes_escapes(after_string(s.skip(2), true));
                stripping_removes_escapes(after_string(s.skip(2), false));
                stripping_removes_escapes(s.skip(2));
            }
        }
    }
}

/// What stands in front of a control sequence is kept, and what stands behind it is
/// read on as if the sequence were not there.
pub proof fn only_the_sequence_is_taken(front: Seq<char>, inner: Seq<char>, end: char, rest: Seq<char>)
    requires
        !front.contains(ESCAPE),
        forall|i: int| 0 <= i < inner.len() ==> !('@' <= #[trigger] inner[i] <= '~'),
        '@' <= end <= '~',
    ensures
        stripped(front + rest) == front + stripped(rest),
        stripped(front + seq![ESCAPE, '['] + inner + seq![end] + rest) == front + stripped(rest),
{
    text_in_front_is_kept(front, rest);
    let sequence = seq![ESCAPE, '['] + inner + seq![end] + rest;
    assert(front + seq![ESCAPE, '['] + inner + seq![end] + rest =~= front + sequence);
    text_in_front_is_kept(front, sequence);
    assert(sequence[0] == ESCAPE && sequence[1] == '[');
    assert(sequence.skip(2) =~= inner + seq![end] + rest);
    control_ends(inner, end, rest);
}

proof fn text_in_front_is_kept(front: Seq<char>, rest: Seq<char>)
    requires
        !front.contains(ESCAPE),
    ensures
        stripped(front + rest) == front + stripped(rest),
    decreases front.len(),
{
    let all = front + rest;
    if front.len() == 0 {
        assert(all =~= rest);
        assert(front + stripped(rest) =~= stripped(rest));
    } else {
        let shorter = front.skip(1);
        assert(front.contains(front[0]));
        assert forall|i: int| 0 <= i < shorter.len() implies shorter[i] != ESCAPE by {
            assert(front.contains(front[i + 1]));
        }
        text_in_front_is_kept(shorter, rest);
        assert(all.skip(1) =~= shorter + rest);
        assert(seq![front[0]] + (shorter + stripped(rest)) =~= front + stripped(rest));
    }
}

proof fn control_ends(inner: Seq<char>, end: char, rest: Seq<char>)
    requires
        forall|i: int| 0 <= i < inner.len() ==> !('@' <= #[trigger] inner[i] <= '~'),
        '@' <= end <= '~',
    ensures
        after_control(inner + seq![end] + rest) == rest,
    decreases inner.len(),
{
    let all = inner + seq![end] + rest;
    if inner.len() == 0 {
        assert(all[0] == end);
        assert(all.skip(1) =~= rest);
    } else {
        let shorter = inner.skip(1);
        assert(all[0] == inner[0]);
        assert forall|i: int| 0 <= i < shorter.len() implies !('@' <= #[trigger] shorter[i] <= '~') by {
            assert(shorter[i] == inner[i + 1]);
        }
        control_ends(shorter, end, rest);
        assert(all.skip(1) =~= shorter + seq![end] + rest);
    }
}

/// A string that an escape begins ends with a bell or with an escape and a backslash,
/// and what stands behind it is read on.
pub proof fn strings_end_at_their_end(inner: Seq<char>, rest: Seq<char>)
    requires
        !inner.contains(ESCAPE),
        !inner.contains(BELL),
    ensures
        after_string(inner + seq![BELL] + rest, true) == rest,
        after_string(inner + seq![ESCAPE, '\\'] + rest, true) == rest,
        after_string(inner + seq![ESCAPE, '\\'] + rest, false) == rest,
    decreases inner.len(),
{
    let rung = inner + seq![BELL] + rest;
    let ended = inner + seq![ESCAPE, '\\'] + rest;
    if inner.len() == 0 {
        assert(rung[0] == BELL);
        assert(rung.skip(1) =~= rest);
        assert(ended[0] == ESCAPE && ended[1] == '\\');
        assert(ended.skip(2) =~= rest);
        assert(ESCAPE != BELL);
    } else {
        let shorter = inner.skip(1);
        assert(inner.contains(inner[0]));
        assert forall|i: int| 0 <= i < shorter.len() implies shorter[i] != ESCAPE && shorter[i] != BELL by {
            assert(inner.contains(inner[i + 1]));
        }
        strings_end_at_their_end(shorter, rest);
        assert(rung[0] == inner[0] && ended[0] == inner[0]);
        assert(rung.skip(1) =~= shorter + seq![BELL] + rest);
        assert(ended.skip(1) =~= shorter + seq![ESCAPE, '\\'] + rest);
    }
}

} // verus!
