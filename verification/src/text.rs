//! Strings as sequences of characters: comparing, searching, splitting and joining.
use vstd::prelude::*;
use vstd::utf8::{decode_utf8, encode_utf8, valid_utf8};

verus! {

/// `String::push` appends one character at the end.
pub assume_specification[ String::push ](s: &mut String, c: char)
    ensures
        final(s)@ == old(s)@.push(c),
;

/// `str`'s `==` compares two strings character by character.
pub assume_specification[ <str as PartialEq>::eq ](a: &str, b: &str) -> (same: bool)
    ensures
        same == (a@ == b@),
;

/// The characters of each string of a list.
pub open spec fn texts(items: Seq<String>) -> Seq<Seq<char>> {
    items.map_values(|item: String| item@)
}

/// The characters of a string that may be missing.
pub open spec fn text_option(item: Option<String>) -> Option<Seq<char>> {
    match item {
        Some(text) => Some(text@),
        None => None,
    }
}

/// Whether two strings hold the same characters.
pub fn same_text(a: &str, b: &str) -> (same: bool)
    ensures
        same == (a@ == b@),
{
    *a == *b
}

/// The characters of a string, in order.
pub fn chars_of(s: &str) -> (chars: Vec<char>)
    ensures
        chars@ == s@,
{
    let mut chars: Vec<char> = Vec::new();
    for c in it: s.chars()
        invariant
            chars@ == s@.take(it.index() as int),
            it.seq() == s@,
    {
        chars.push(c);
    }
    chars
}

/// The string made of `chars[from..to]`.
pub fn text_of(chars: &Vec<char>, from: usize, to: usize) -> (text: String)
    requires
        from <= to <= chars@.len(),
    ensures
        text@ == chars@.subrange(from as int, to as int),
{
    let mut text = String::new();
    let mut i: usize = from;
    while i < to
        invariant
            from <= i <= to <= chars@.len(),
            text@ == chars@.subrange(from as int, i as int),
        decreases to - i,
    {
        text.push(chars[i]);
        i += 1;
    }
    text
}

/// `first` followed by `second`.
pub fn concat2(first: &str, second: &str) -> (text: String)
    ensures
        text@ == first@ + second@,
{
    let mut text = first.to_owned();
    text.append(second);
    text
}

/// The three strings one after another.
pub fn concat3(first: &str, second: &str, third: &str) -> (text: String)
    ensures
        text@ == first@ + second@ + third@,
{
    let mut text = first.to_owned();
    text.append(second);
    text.append(third);
    text
}

/// The four strings one after another.
pub fn concat4(first: &str, second: &str, third: &str, fourth: &str) -> (text: String)
    ensures
        text@ == first@ + second@ + third@ + fourth@,
{
    let mut text = first.to_owned();
    text.append(second);
    text.append(third);
    text.append(fourth);
    text
}

/// The five strings one after another.
pub fn concat5(first: &str, second: &str, third: &str, fourth: &str, fifth: &str) -> (text: String)
    ensures
        text@ == first@ + second@ + third@ + fourth@ + fifth@,
{
    let mut text = first.to_owned();
    text.append(second);
    text.append(third);
    text.append(fourth);
    text.append(fifth);
    text
}

// ---------------------------------------------------------------------------
// Order
// ---------------------------------------------------------------------------

/// `a` and `b` agree on their first `k` characters, and there `a` either ends
/// or holds a smaller character.
pub open spec fn lt_at(a: Seq<char>, b: Seq<char>, k: int) -> bool {
    &&& 0 <= k <= a.len()
    &&& k < b.len()
    &&& forall|i: int| 0 <= i < k ==> a[i] == b[i]
    &&& k == a.len() || a[k] < b[k]
}

/// The lexicographic order of strings by code point.
pub open spec fn text_lt(a: Seq<char>, b: Seq<char>) -> bool {
    exists|k: int| lt_at(a, b, k)
}

/// No string is smaller than itself, and of two strings only one can be smaller.
pub proof fn text_lt_asymmetric(a: Seq<char>, b: Seq<char>)
    requires
        text_lt(a, b),
    ensures
        !text_lt(b, a),
        a != b,
{
    let k = choose|k: int| lt_at(a, b, k);
    if text_lt(b, a) {
        let m = choose|m: int| lt_at(b, a, m);
        if k < m {
            assert(b[k] == a[k]);
        } else if m < k {
            assert(a[m] == b[m]);
        }
    }
}

/// The order is transitive.
pub proof fn text_lt_transitive(a: Seq<char>, b: Seq<char>, c: Seq<char>)
    requires
        text_lt(a, b),
        text_lt(b, c),
    ensures
        text_lt(a, c),
{
    let k = choose|k: int| lt_at(a, b, k);
    let m = choose|m: int| lt_at(b, c, m);
    if k <= m {
        assert(lt_at(a, c, k));
    } else {
        assert(lt_at(a, c, m));
    }
}

proof fn text_lt_total_from(a: Seq<char>, b: Seq<char>, k: int)
    requires
        0 <= k <= a.len(),
        k <= b.len(),
        forall|i: int| 0 <= i < k ==> a[i] == b[i],
    ensures
        text_lt(a, b) || text_lt(b, a) || a == b,
    decreases a.len() - k,
{
    if k == a.len() {
        if k == b.len() {
            assert(a =~= b);
        } else {
            assert(lt_at(a, b, k));
        }
    } else if k == b.len() {
        assert(lt_at(b, a, k));
    } else if a[k] == b[k] {
        text_lt_total_from(a, b, k + 1);
    } else if a[k] < b[k] {
        assert(lt_at(a, b, k));
    } else {
        assert(lt_at(b, a, k));
    }
}

/// Of two different strings one is smaller.
pub proof fn text_lt_total(a: Seq<char>, b: Seq<char>)
    ensures
        text_lt(a, b) || text_lt(b, a) || a == b,
{
    text_lt_total_from(a, b, 0);
}

/// Whether `a` comes before `b` in the lexicographic order.
pub fn text_less(a: &str, b: &str) -> (less: bool)
    ensures
        less == text_lt(a@, b@),
{
    let left = chars_of(a);
    let right = chars_of(b);
    let mut i: usize = 0;
    while i < left.len() && i < right.len() && left[i] == right[i]
        invariant
            0 <= i <= left@.len(),
            i <= right@.len(),
            forall|j: int| 0 <= j < i ==> left@[j] == right@[j],
        decreases left@.len() - i,
    {
        i += 1;
    }
    if i == right.len() {
        proof {
            if i == left@.len() {
                assert(left@ =~= right@);
                if text_lt(a@, b@) {
                    text_lt_asymmetric(a@, b@);
                }
            } else {
                assert(lt_at(b@, a@, i as int));
                text_lt_asymmetric(b@, a@);
            }
        }
        false
    } else if i == left.len() {
        assert(lt_at(a@, b@, i as int));
        true
    } else if left[i] < right[i] {
        assert(lt_at(a@, b@, i as int));
        true
    } else {
        assert(lt_at(b@, a@, i as int));
        proof {
            text_lt_asymmetric(b@, a@);
        }
        false
    }
}

// ---------------------------------------------------------------------------
// Searching
// ---------------------------------------------------------------------------

/// `pattern` stands in `s` at position `at`.
pub open spec fn occurs_at(s: Seq<char>, pattern: Seq<char>, at: int) -> bool {
    0 <= at && at + pattern.len() <= s.len() && s.subrange(at, at + pattern.len()) == pattern
}

/// Whether `pattern` stands in `chars` at position `at`.
pub fn matches_at(chars: &Vec<char>, pattern: &Vec<char>, at: usize) -> (found: bool)
    ensures
        found == occurs_at(chars@, pattern@, at as int),
{
    if at > chars.len() || pattern.len() > chars.len() - at {
        return false;
    }
    let mut i: usize = 0;
    while i < pattern.len()
        invariant
            at + pattern@.len() <= chars.len(),
            i <= pattern@.len(),
            forall|j: int| 0 <= j < i ==> chars@[at + j] == pattern@[j],
        decreases pattern@.len() - i,
    {
        if chars[at + i] != pattern[i] {
            assert(chars@.subrange(at as int, at + pattern@.len())[i as int] != pattern@[i as int]);
            return false;
        }
        i += 1;
    }
    assert(chars@.subrange(at as int, at + pattern@.len()) =~= pattern@);
    true
}

/// Whether `s` begins with `prefix`.
pub fn starts_with(s: &str, prefix: &str) -> (found: bool)
    ensures
        found == prefix@.is_prefix_of(s@),
{
    let found = matches_at(&chars_of(s), &chars_of(prefix), 0);
    assert(found == prefix@.is_prefix_of(s@)) by {
        if prefix@.len() <= s@.len() {
            assert(s@.subrange(0int, 0int + prefix@.len()) =~= s@.subrange(0, prefix@.len() as int));
        }
    }
    found
}

/// Whether `s` ends with `suffix`.
pub fn ends_with(s: &str, suffix: &str) -> (found: bool)
    ensures
        found == suffix@.is_suffix_of(s@),
{
    let chars = chars_of(s);
    let tail = chars_of(suffix);
    if tail.len() > chars.len() {
        return false;
    }
    let at: usize = chars.len() - tail.len();
    let found = matches_at(&chars, &tail, at);
    assert(s@.subrange(at as int, at + suffix@.len()) =~= s@.subrange(
        (s@.len() - suffix@.len()) as int,
        s@.len() as int,
    ));
    found
}

/// What follows `prefix` in `s`, where `s` begins with it.
pub fn strip_prefix(s: &str, prefix: &str) -> (rest: Option<String>)
    ensures
        rest is Some <==> prefix@.is_prefix_of(s@),
        rest is Some ==> rest->0@ == s@.skip(prefix@.len() as int),
{
    if !starts_with(s, prefix) {
        return None;
    }
    let chars = chars_of(s);
    let skipped: usize = chars_of(prefix).len();
    let rest = text_of(&chars, skipped, chars.len());
    assert(rest@ =~= s@.skip(prefix@.len() as int));
    Some(rest)
}

/// The position of the first `c` at or behind `from`.
pub fn find_char(chars: &Vec<char>, c: char, from: usize) -> (found: Option<usize>)
    requires
        from <= chars@.len(),
    ensures
        found matches Some(at) ==> from <= at < chars@.len() && chars@[at as int] == c && (forall|j: int|
            from <= j < at ==> chars@[j] != c),
        found is None ==> forall|j: int| from <= j < chars@.len() ==> chars@[j] != c,
{
    let mut i: usize = from;
    while i < chars.len()
        invariant
            from <= i <= chars@.len(),
            forall|j: int| from <= j < i ==> chars@[j] != c,
        decreases chars@.len() - i,
    {
        if chars[i] == c {
            return Some(i);
        }
        i += 1;
    }
    None
}

/// The position of the last `c`.
pub fn rfind_char(chars: &Vec<char>, c: char) -> (found: Option<usize>)
    ensures
        found matches Some(at) ==> at < chars@.len() && chars@[at as int] == c && (forall|j: int|
            at < j < chars@.len() ==> chars@[j] != c),
        found is None ==> forall|j: int| 0 <= j < chars@.len() ==> chars@[j] != c,
{
    let mut i: usize = chars.len();
    while i > 0
        invariant
            i <= chars@.len(),
            forall|j: int| i <= j < chars@.len() ==> chars@[j] != c,
        decreases i,
    {
        i -= 1;
        if chars[i] == c {
            return Some(i);
        }
    }
    None
}

/// Whether `c` stands in `s`.
pub fn contains_char(s: &str, c: char) -> (found: bool)
    ensures
        found == s@.contains(c),
{
    let chars = chars_of(s);
    match find_char(&chars, c, 0) {
        Some(at) => {
            assert(s@[at as int] == c);
            true
        },
        None => false,
    }
}

/// `pattern` stands somewhere in `s`.
pub open spec fn contains_text(s: Seq<char>, pattern: Seq<char>) -> bool {
    exists|at: int| occurs_at(s, pattern, at)
}

/// The position of the first place at or behind `from` where `pattern` stands.
pub fn find_text(chars: &Vec<char>, pattern: &Vec<char>, from: usize) -> (found: Option<usize>)
    requires
        from <= chars@.len(),
    ensures
        found matches Some(at) ==> from <= at && occurs_at(chars@, pattern@, at as int) && (forall|j: int|
            from <= j < at ==> !occurs_at(chars@, pattern@, j)),
        found is None ==> forall|j: int| from <= j ==> !occurs_at(chars@, pattern@, j),
{
    let mut i: usize = from;
    while i < chars.len()
        invariant
            from <= i <= chars@.len(),
            forall|j: int| from <= j < i ==> !occurs_at(chars@, pattern@, j),
        decreases chars@.len() - i,
    {
        if matches_at(chars, pattern, i) {
            return Some(i);
        }
        i += 1;
    }
    if matches_at(chars, pattern, i) {
        return Some(i);
    }
    None
}

/// Whether `pattern` stands somewhere in `s`.
pub fn has_text(s: &str, pattern: &str) -> (found: bool)
    ensures
        found == contains_text(s@, pattern@),
{
    let chars = chars_of(s);
    let wanted = chars_of(pattern);
    match find_text(&chars, &wanted, 0) {
        Some(at) => true,
        None => false,
    }
}

/// Whether `wanted` is one of the strings of a list.
pub fn contains_item(items: &Vec<String>, wanted: &str) -> (found: bool)
    ensures
        found == texts(items@).contains(wanted@),
{
    let mut i: usize = 0;
    while i < items.len()
        invariant
            i <= items@.len(),
            forall|j: int| 0 <= j < i ==> items@[j]@ != wanted@,
        decreases items@.len() - i,
    {
        if same_text(&items[i], wanted) {
            assert(texts(items@)[i as int] == wanted@);
            return true;
        }
        i += 1;
    }
    assert forall|j: int| 0 <= j < texts(items@).len() implies texts(items@)[j] != wanted@ by {
        assert(items@[j]@ != wanted@);
    }
    false
}

// ---------------------------------------------------------------------------
// Splitting and joining
// ---------------------------------------------------------------------------

/// The parts of `s` between the places where `c` stands.
pub open spec fn split_on(s: Seq<char>, c: char) -> Seq<Seq<char>>
    decreases s.len(),
{
    if s.len() == 0 {
        seq![Seq::<char>::empty()]
    } else {
        let front = split_on(s.drop_last(), c);
        if s.last() == c {
            front.push(Seq::<char>::empty())
        } else {
            front.update(front.len() - 1, front.last().push(s.last()))
        }
    }
}

/// `split_on` gives at least one part.
pub proof fn split_on_nonempty(s: Seq<char>, c: char)
    ensures
        split_on(s, c).len() >= 1,
    decreases s.len(),
{
    if s.len() > 0 {
        split_on_nonempty(s.drop_last(), c);
    }
}

/// No part holds the separator.
pub proof fn split_on_parts_free(s: Seq<char>, c: char)
    ensures
        forall|i: int| 0 <= i < split_on(s, c).len() ==> !(#[trigger] split_on(s, c)[i]).contains(c),
    decreases s.len(),
{
    if s.len() > 0 {
        split_on_parts_free(s.drop_last(), c);
        split_on_nonempty(s.drop_last(), c);
        let front = split_on(s.drop_last(), c);
        if s.last() != c {
            let part = front.last().push(s.last());
            assert(!front.last().contains(c));
            if part.contains(c) {
                let j = choose|j: int| 0 <= j < part.len() && part[j] == c;
                assert(j < front.last().len());
                assert(front.last()[j] == c);
            }
        }
    }
}

/// The parts of `s` between the places where `c` stands.
pub fn split_text(s: &str, c: char) -> (parts: Vec<String>)
    ensures
        texts(parts@) == split_on(s@, c),
{
    let chars = chars_of(s);
    let mut parts: Vec<String> = Vec::new();
    let mut current = String::new();
    let mut i: usize = 0;
    assert(texts(parts@).push(current@) =~= split_on(s@.take(0), c));
    while i < chars.len()
        invariant
            chars@ == s@,
            i <= chars@.len(),
            texts(parts@).push(current@) == split_on(s@.take(i as int), c),
        decreases chars@.len() - i,
    {
        let ghost before = texts(parts@);
        let ghost part = current@;
        assert(s@.take(i + 1).drop_last() =~= s@.take(i as int));
        if chars[i] == c {
            parts.push(current);
            current = String::new();
            assert(texts(parts@) =~= before.push(part));
        } else {
            current.push(chars[i]);
            assert(texts(parts@).push(current@) =~= before.push(part).update(
                before.push(part).len() - 1,
                part.push(chars@[i as int]),
            ));
        }
        i += 1;
    }
    assert(s@.take(s@.len() as int) =~= s@);
    let ghost before = texts(parts@);
    let ghost part = current@;
    parts.push(current);
    assert(texts(parts@) =~= before.push(part));
    parts
}

/// The strings with `separator` between each two of them.
pub open spec fn joined(parts: Seq<Seq<char>>, separator: Seq<char>) -> Seq<char>
    decreases parts.len(),
{
    if parts.len() == 0 {
        Seq::empty()
    } else if parts.len() == 1 {
        parts[0]
    } else {
        joined(parts.drop_last(), separator) + separator + parts.last()
    }
}

/// The strings with `separator` between each two of them.
pub fn join_texts(parts: &Vec<String>, separator: &str) -> (text: String)
    ensures
        text@ == joined(texts(parts@), separator@),
{
    let mut text = String::new();
    let mut i: usize = 0;
    assert(texts(parts@).take(0) =~= Seq::<Seq<char>>::empty());
    while i < parts.len()
        invariant
            i <= parts@.len(),
            text@ == joined(texts(parts@).take(i as int), separator@),
        decreases parts@.len() - i,
    {
        assert(texts(parts@).take(i + 1).drop_last() =~= texts(parts@).take(i as int));
        assert(texts(parts@).take(i + 1).last() == parts@[i as int]@);
        if i > 0 {
            text.append(separator);
        }
        let ghost before = text@;
        text.append(&parts[i]);
        if i == 0 {
            assert(before + parts@[0]@ =~= parts@[0]@);
        }
        i += 1;
    }
    assert(texts(parts@).take(parts@.len() as int) =~= texts(parts@));
    text
}

/// Splitting at a character and joining with it again gives the string back.
pub proof fn split_then_join(s: Seq<char>, c: char)
    ensures
        joined(split_on(s, c), seq![c]) == s,
    decreases s.len(),
{
    if s.len() > 0 {
        let front = split_on(s.drop_last(), c);
        split_then_join(s.drop_last(), c);
        split_on_nonempty(s.drop_last(), c);
        let whole = split_on(s, c);
        if s.last() == c {
            assert(whole.drop_last() =~= front);
            assert(joined(whole, seq![c]) =~= s);
        } else {
            assert(whole.drop_last() =~= front.drop_last());
            assert(whole.last() == front.last().push(s.last()));
            assert(joined(whole, seq![c]) =~= joined(front, seq![c]).push(s.last()));
            assert(s.drop_last().push(s.last()) =~= s);
        }
    }
}

/// What stands before and behind the first `c`.
pub open spec fn split_first(s: Seq<char>, c: char) -> Option<(Seq<char>, Seq<char>)>
    decreases s.len(),
{
    if s.len() == 0 {
        None
    } else if s[0] == c {
        Some((Seq::empty(), s.skip(1)))
    } else {
        match split_first(s.skip(1), c) {
            Some((front, back)) => Some((seq![s[0]] + front, back)),
            None => None,
        }
    }
}

/// `split_first` divides at the first place where the character stands.
pub proof fn split_first_at(s: Seq<char>, c: char, at: int)
    requires
        0 <= at < s.len(),
        s[at] == c,
        forall|j: int| 0 <= j < at ==> s[j] != c,
    ensures
        split_first(s, c) == Some((s.take(at), s.skip(at + 1))),
    decreases at,
{
    if at == 0 {
        assert(s.take(0) =~= Seq::<char>::empty());
    } else {
        let rest = s.skip(1);
        assert(rest[at - 1] == c);
        assert forall|j: int| 0 <= j < at - 1 implies rest[j] != c by {
            assert(s[j + 1] != c);
        }
        split_first_at(rest, c, at - 1);
        assert(seq![s[0]] + rest.take(at - 1) =~= s.take(at));
        assert(rest.skip(at) =~= s.skip(at + 1));
    }
}

/// Where the character does not stand, there is nothing to divide.
pub proof fn split_first_none(s: Seq<char>, c: char)
    requires
        forall|j: int| 0 <= j < s.len() ==> s[j] != c,
    ensures
        split_first(s, c) is None,
    decreases s.len(),
{
    if s.len() > 0 {
        assert forall|j: int| 0 <= j < s.len() - 1 implies s.skip(1)[j] != c by {
            assert(s[j + 1] != c);
        }
        split_first_none(s.skip(1), c);
    }
}

/// What stands before and behind the first `c`.
pub fn split_once(s: &str, c: char) -> (parts: Option<(String, String)>)
    ensures
        parts is Some <==> split_first(s@, c) is Some,
        parts matches Some((front, back)) ==> split_first(s@, c) == Some((front@, back@)),
{
    let chars = chars_of(s);
    let end: usize = chars.len();
    match find_char(&chars, c, 0) {
        Some(at) => {
            proof {
                split_first_at(s@, c, at as int);
                assert(s@.subrange(0, at as int) =~= s@.take(at as int));
                assert(s@.subrange(at + 1, s@.len() as int) =~= s@.skip(at + 1));
            }
            Some((text_of(&chars, 0, at), text_of(&chars, at + 1, end)))
        },
        None => {
            proof {
                split_first_none(s@, c);
            }
            None
        },
    }
}

/// A line without the carriage return of its ending.
pub open spec fn without_return(line: Seq<char>) -> Seq<char> {
    if line.len() > 0 && line.last() == '\r' {
        line.drop_last()
    } else {
        line
    }
}

/// The lines of a text. A line ends with a newline, with or without a
/// carriage return before it; the last line may lack its ending.
pub open spec fn lines_of(s: Seq<char>) -> Seq<Seq<char>> {
    let parts = split_on(s, '\n');
    let ended = parts.drop_last().map_values(|part: Seq<char>| without_return(part));
    if parts.last().len() == 0 {
        ended
    } else {
        ended.push(parts.last())
    }
}

/// The lines of a text.
pub fn split_lines(s: &str) -> (lines: Vec<String>)
    ensures
        texts(lines@) == lines_of(s@),
{
    let parts = split_text(s, '\n');
    let ghost all = texts(parts@);
    proof {
        split_on_nonempty(s@, '\n');
    }
    let last: usize = parts.len() - 1;
    let ghost ended = all.drop_last().map_values(|part: Seq<char>| without_return(part));
    let mut lines: Vec<String> = Vec::new();
    let mut i: usize = 0;
    assert(texts(lines@) =~= ended.take(0));
    while i < last
        invariant
            i <= last,
            last == parts@.len() - 1,
            all == texts(parts@),
            ended == all.drop_last().map_values(|part: Seq<char>| without_return(part)),
            texts(lines@) == ended.take(i as int),
        decreases last - i,
    {
        let chars = chars_of(&parts[i]);
        let mut end: usize = chars.len();
        if end > 0 && chars[end - 1] == '\r' {
            end -= 1;
        }
        let line = text_of(&chars, 0, end);
        proof {
            assert(all.drop_last()[i as int] == parts@[i as int]@);
            assert(line@ =~= without_return(parts@[i as int]@));
            assert(ended[i as int] == line@);
            assert(ended.take(i + 1) =~= ended.take(i as int).push(line@));
        }
        let ghost before = texts(lines@);
        let ghost text = line@;
        lines.push(line);
        assert(texts(lines@) =~= before.push(text));
        i += 1;
    }
    assert(ended.take(ended.len() as int) =~= ended);
    assert(all.last() == parts@[last as int]@);
    if !parts[last].as_str().is_empty() {
        let ghost before = texts(lines@);
        lines.push(parts[last].clone());
        assert(texts(lines@) =~= before.push(all.last()));
    }
    lines
}

// ---------------------------------------------------------------------------
// Whitespace and case
// ---------------------------------------------------------------------------

/// Unicode's `White_Space` property.
pub open spec fn white_space(c: char) -> bool {
    let point = c as u32;
    ||| 0x9 <= point <= 0xd
    ||| point == 0x20
    ||| point == 0x85
    ||| point == 0xa0
    ||| point == 0x1680
    ||| 0x2000 <= point <= 0x200a
    ||| point == 0x2028
    ||| point == 0x2029
    ||| point == 0x202f
    ||| point == 0x205f
    ||| point == 0x3000
}

/// Whether a character has Unicode's `White_Space` property.
pub fn is_white_space(c: char) -> (white: bool)
    ensures
        white == white_space(c),
{
    let point: u32 = c as u32;
    (0x9 <= point && point <= 0xd) || point == 0x20 || point == 0x85 || point == 0xa0 || point == 0x1680
        || (0x2000 <= point && point <= 0x200a) || point == 0x2028 || point == 0x2029 || point == 0x202f
        || point == 0x205f || point == 0x3000
}

/// `s` without the white space at its beginning.
pub open spec fn trimmed_start(s: Seq<char>) -> Seq<char>
    decreases s.len(),
{
    if s.len() > 0 && white_space(s.first()) {
        trimmed_start(s.skip(1))
    } else {
        s
    }
}

/// `s` without the white space at its end.
pub open spec fn trimmed_end(s: Seq<char>) -> Seq<char>
    decreases s.len(),
{
    if s.len() > 0 && white_space(s.last()) {
        trimmed_end(s.drop_last())
    } else {
        s
    }
}

/// `s` without the white space at both ends.
pub open spec fn trimmed(s: Seq<char>) -> Seq<char> {
    trimmed_end(trimmed_start(s))
}

/// `s` without the white space at both ends.
pub fn trim_text(s: &str) -> (text: String)
    ensures
        text@ == trimmed(s@),
{
    let chars = chars_of(s);
    let mut from: usize = 0;
    assert(s@.skip(0) =~= s@);
    while from < chars.len() && is_white_space(chars[from])
        invariant
            chars@ == s@,
            from <= chars@.len(),
            trimmed_start(s@) == trimmed_start(s@.skip(from as int)),
        decreases chars@.len() - from,
    {
        assert(s@.skip(from as int).skip(1) =~= s@.skip(from + 1));
        from += 1;
    }
    let ghost rest = s@.skip(from as int);
    assert(trimmed_start(s@) == rest);
    let mut to: usize = chars.len();
    assert(rest.take((to - from) as int) =~= rest);
    while to > from && is_white_space(chars[to - 1])
        invariant
            chars@ == s@,
            from <= to <= chars@.len(),
            rest == s@.skip(from as int),
            trimmed_end(rest) == trimmed_end(rest.take((to - from) as int)),
        decreases to,
    {
        assert(rest.take((to - from) as int).drop_last() =~= rest.take((to - from - 1) as int));
        to -= 1;
    }
    let text = text_of(&chars, from, to);
    assert(text@ =~= rest.take((to - from) as int));
    text
}

/// The words that are over after `s`, and the one that goes on.
pub open spec fn word_parts(s: Seq<char>) -> (Seq<Seq<char>>, Seq<char>)
    decreases s.len(),
{
    if s.len() == 0 {
        (Seq::empty(), Seq::empty())
    } else {
        let (done, word) = word_parts(s.drop_last());
        if !white_space(s.last()) {
            (done, word.push(s.last()))
        } else if word.len() > 0 {
            (done.push(word), Seq::empty())
        } else {
            (done, word)
        }
    }
}

/// The words of a text, with white space between them.
pub open spec fn words_of(s: Seq<char>) -> Seq<Seq<char>> {
    let (done, word) = word_parts(s);
    if word.len() > 0 {
        done.push(word)
    } else {
        done
    }
}

/// The words of a text, with white space between them.
pub fn words_in(s: &str) -> (words: Vec<String>)
    ensures
        texts(words@) == words_of(s@),
{
    let chars = chars_of(s);
    let mut words: Vec<String> = Vec::new();
    let mut from: usize = 0;
    let mut i: usize = 0;
    assert(s@.take(0) =~= Seq::<char>::empty());
    assert(texts(words@) =~= Seq::<Seq<char>>::empty());
    assert(s@.subrange(0, 0) =~= Seq::<char>::empty());
    while i < chars.len()
        invariant
            from <= i <= chars@.len(),
            chars@ == s@,
            word_parts(s@.take(i as int)) == (texts(words@), s@.subrange(from as int, i as int)),
        decreases chars@.len() - i,
    {
        proof {
            assert(s@.take(i + 1).drop_last() =~= s@.take(i as int));
            assert(s@.take(i + 1).last() == s@[i as int]);
            assert(s@.subrange(from as int, i + 1) =~= s@.subrange(from as int, i as int).push(s@[i as int]));
            assert(s@.subrange(i + 1, i + 1) =~= Seq::<char>::empty());
        }
        if is_white_space(chars[i]) {
            if from < i {
                let ghost before = texts(words@);
                words.push(text_of(&chars, from, i));
                assert(texts(words@) =~= before.push(s@.subrange(from as int, i as int)));
            } else {
                assert(s@.subrange(from as int, i as int) =~= Seq::<char>::empty());
            }
            from = i + 1;
        }
        i += 1;
    }
    assert(s@.take(i as int) =~= s@);
    if from < i {
        let ghost before = texts(words@);
        words.push(text_of(&chars, from, i));
        assert(texts(words@) =~= before.push(s@.subrange(from as int, i as int)));
    }
    words
}

/// The lower-case letter of an ASCII capital; any other character itself.
pub open spec fn ascii_lower(c: char) -> char {
    if 'A' <= c <= 'Z' {
        ((c as u32 + 32) as u32) as char
    } else {
        c
    }
}

/// The string with its ASCII capitals in lower case.
pub open spec fn lowered(s: Seq<char>) -> Seq<char> {
    s.map_values(|c: char| ascii_lower(c))
}

/// The string with its ASCII capitals in lower case.
pub fn lower_text(s: &str) -> (text: String)
    ensures
        text@ == lowered(s@),
{
    let chars = chars_of(s);
    let mut text = String::new();
    let mut i: usize = 0;
    while i < chars.len()
        invariant
            chars@ == s@,
            i <= chars@.len(),
            text@ == lowered(s@).take(i as int),
        decreases chars@.len() - i,
    {
        let c = chars[i];
        if 'A' <= c && c <= 'Z' {
            text.push(((c as u8) + 32) as char);
        } else {
            text.push(c);
        }
        assert(lowered(s@).take(i + 1) =~= lowered(s@).take(i as int).push(ascii_lower(c)));
        i += 1;
    }
    assert(lowered(s@).take(s@.len() as int) =~= lowered(s@));
    text
}

// ---------------------------------------------------------------------------
// Sizes
// ---------------------------------------------------------------------------

/// The size of a text in bytes.
pub open spec fn byte_length(text: Seq<char>) -> nat {
    encode_utf8(text).len()
}

/// The size of two texts, one behind the other.
pub proof fn byte_length_sum(one: Seq<char>, other: Seq<char>)
    ensures
        byte_length(one + other) == byte_length(one) + byte_length(other),
    decreases one.len(),
{
    if one.len() == 0 {
        assert(one + other =~= other);
    } else {
        byte_length_sum(one.drop_first(), other);
        assert((one + other).drop_first() =~= one.drop_first() + other);
        assert((one + other)[0] == one[0]);
    }
}

/// The size of a text in bytes.
pub fn byte_count(text: &str) -> (count: u64)
    ensures
        count == byte_length(text@),
{
    let bytes = text.as_bytes();
    bytes.len() as u64
}

// ---------------------------------------------------------------------------
// Bytes that need not be text
// ---------------------------------------------------------------------------

/// The text of bytes that need not be UTF-8.
pub uninterp spec fn lossy_text(bytes: Seq<u8>) -> Seq<char>;

/// `String::from_utf8_lossy`: the text that the bytes encode, or where they
/// are no UTF-8, with a replacement character for what is none.
#[verifier::external_body]
pub(crate) fn decode_lossy(bytes: &[u8]) -> (text: String)
    ensures
        text@ == lossy_text(bytes@),
        valid_utf8(bytes@) ==> text@ == decode_utf8(bytes@),
{
    String::from_utf8_lossy(bytes).into_owned()
}

/// What a command printed, without the white space around it.
pub fn output_text(bytes: &[u8]) -> (text: String)
    ensures
        text@ == trimmed(lossy_text(bytes@)),
        valid_utf8(bytes@) ==> text@ == trimmed(decode_utf8(bytes@)),
{
    trim_text(&decode_lossy(bytes))
}

/// Trimming takes white space away at both ends, all of it, and nothing else.
pub proof fn trimming_takes_white_space(s: Seq<char>)
    ensures
        trimmed(s).len() > 0 ==> !white_space(trimmed(s).first()) && !white_space(trimmed(s).last()),
        exists|before: Seq<char>, behind: Seq<char>|
            s == #[trigger] (before + trimmed(s) + behind) && (forall|i: int|
                0 <= i < before.len() ==> white_space(#[trigger] before[i])) && (forall|i: int|
                0 <= i < behind.len() ==> white_space(#[trigger] behind[i])),
{
    let before = trimming_the_start(s);
    let rest = trimmed_start(s);
    let behind = trimming_the_end(rest);
    assert(s =~= before + trimmed(s) + behind);
    if trimmed(s).len() > 0 {
        assert(trimmed(s).first() == rest.first());
    }
}

proof fn trimming_the_start(s: Seq<char>) -> (before: Seq<char>)
    ensures
        s == before + trimmed_start(s),
        forall|i: int| 0 <= i < before.len() ==> white_space(#[trigger] before[i]),
        trimmed_start(s).len() > 0 ==> !white_space(trimmed_start(s).first()),
    decreases s.len(),
{
    if s.len() > 0 && white_space(s.first()) {
        let rest = trimming_the_start(s.skip(1));
        let before = seq![s.first()] + rest;
        assert(s.skip(1) == rest + trimmed_start(s));
        assert(s =~= seq![s.first()] + s.skip(1));
        assert(s =~= before + trimmed_start(s));
        assert forall|i: int| 0 <= i < before.len() implies white_space(#[trigger] before[i]) by {
            if i > 0 {
                assert(before[i] == rest[i - 1]);
            }
        }
        before
    } else {
        assert(s =~= Seq::<char>::empty() + s);
        Seq::empty()
    }
}

proof fn trimming_the_end(s: Seq<char>) -> (behind: Seq<char>)
    ensures
        s == trimmed_end(s) + behind,
        forall|i: int| 0 <= i < behind.len() ==> white_space(#[trigger] behind[i]),
        trimmed_end(s).len() > 0 ==> !white_space(trimmed_end(s).last()),
    decreases s.len(),
{
    if s.len() > 0 && white_space(s.last()) {
        let rest = trimming_the_end(s.drop_last());
        let behind = rest.push(s.last());
        assert(s.drop_last() == trimmed_end(s) + rest);
        assert(s =~= s.drop_last().push(s.last()));
        assert(s =~= trimmed_end(s) + behind);
        behind
    } else {
        assert(s =~= s + Seq::<char>::empty());
        Seq::empty()
    }
}

/// A text that neither begins nor ends with white space is kept as it is.
pub proof fn trimming_spares_the_rest(s: Seq<char>)
    requires
        s.len() > 0,
        !white_space(s.first()),
        !white_space(s.last()),
    ensures
        trimmed(s) == s,
{
}

/// What was joined of two lists is what was joined of each, with the separator
/// between them.
pub proof fn joined_in_turn(one: Seq<Seq<char>>, two: Seq<Seq<char>>, separator: Seq<char>)
    requires
        one.len() > 0,
        two.len() > 0,
    ensures
        joined(one + two, separator) == joined(one, separator) + separator + joined(two, separator),
    decreases two.len(),
{
    let all = one + two;
    assert(all.last() == two.last());
    if two.len() == 1 {
        assert(all.drop_last() =~= one);
        assert(two.last() == two[0]);
    } else {
        joined_in_turn(one, two.drop_last(), separator);
        assert(all.drop_last() =~= one + two.drop_last());
        assert(joined(all, separator) =~= joined(one, separator) + separator + joined(two, separator));
    }
}

/// A text is divided at the character wherever it stands: what is in front of it
/// and what is behind it are divided apart.
pub proof fn split_in_turn(one: Seq<char>, two: Seq<char>, c: char)
    ensures
        split_on(one + seq![c] + two, c) == split_on(one, c) + split_on(two, c),
    decreases two.len(),
{
    let all = one + seq![c] + two;
    if two.len() == 0 {
        assert(all =~= one.push(c));
        assert(one.push(c).drop_last() =~= one);
        assert(split_on(all, c) =~= split_on(one, c) + split_on(two, c));
    } else {
        let front = two.drop_last();
        split_in_turn(one, front, c);
        split_on_nonempty(front, c);
        assert(all.drop_last() =~= one + seq![c] + front);
        assert(all.last() == two.last());
        assert(split_on(all, c) =~= split_on(one, c) + split_on(two, c));
    }
}

/// A text without the character is a single part.
pub proof fn split_of_one_part(s: Seq<char>, c: char)
    requires
        !s.contains(c),
    ensures
        split_on(s, c) == seq![s],
    decreases s.len(),
{
    if s.len() == 0 {
        assert(s =~= Seq::<char>::empty());
    } else {
        let front = s.drop_last();
        assert forall|i: int| 0 <= i < front.len() implies front[i] != c by {
            assert(s.contains(s[i]));
        }
        split_of_one_part(front, c);
        assert(s.contains(s[s.len() - 1]));
        assert(front.push(s.last()) =~= s);
        assert(split_on(s, c) =~= seq![s]);
    }
}

/// Joining with a character that no part holds and dividing at it gives the parts
/// back.
pub proof fn join_then_split(parts: Seq<Seq<char>>, c: char)
    requires
        parts.len() > 0,
        forall|i: int| 0 <= i < parts.len() ==> !(#[trigger] parts[i]).contains(c),
    ensures
        split_on(joined(parts, seq![c]), c) == parts,
    decreases parts.len(),
{
    if parts.len() == 1 {
        split_of_one_part(parts[0], c);
        assert(parts =~= seq![parts[0]]);
    } else {
        let front = parts.drop_last();
        assert forall|i: int| 0 <= i < front.len() implies !(#[trigger] front[i]).contains(c) by {
            assert(front[i] == parts[i]);
        }
        join_then_split(front, c);
        assert(parts.last() == parts[parts.len() - 1]);
        split_of_one_part(parts.last(), c);
        split_in_turn(joined(front, seq![c]), parts.last(), c);
        assert(parts =~= front + seq![parts.last()]);
    }
}

/// A line ends at the first newline, and the lines behind it are those of the
/// rest.
pub proof fn lines_end_at_newlines(line: Seq<char>, rest: Seq<char>)
    requires
        !line.contains('\n'),
    ensures
        lines_of(line + seq!['\n'] + rest) == seq![without_return(line)] + lines_of(rest),
        line.len() > 0 ==> lines_of(line) == seq![line],
        lines_of(Seq::empty()) == Seq::<Seq<char>>::empty(),
{
    split_in_turn(line, rest, '\n');
    split_of_one_part(line, '\n');
    split_on_nonempty(rest, '\n');
    let parts = split_on(line + seq!['\n'] + rest, '\n');
    let tail = split_on(rest, '\n');
    assert(parts == seq![line] + tail);
    assert(parts.last() == tail.last());
    let ended = parts.drop_last().map_values(|part: Seq<char>| without_return(part));
    let tail_ended = tail.drop_last().map_values(|part: Seq<char>| without_return(part));
    assert(ended =~= seq![without_return(line)] + tail_ended);
    assert(lines_of(line + seq!['\n'] + rest) =~= seq![without_return(line)] + lines_of(rest));
    assert(lines_of(line) =~= if line.len() > 0 {
        seq![line]
    } else {
        Seq::empty()
    });
    let nothing = Seq::<char>::empty();
    assert(!nothing.contains('\n'));
    split_of_one_part(nothing, '\n');
    assert(lines_of(nothing) =~= Seq::<Seq<char>>::empty());
}

/// White space parts the words: those in front of it and those behind it are the
/// words of what is there.
pub proof fn words_stand_apart(one: Seq<char>, space: char, two: Seq<char>)
    requires
        white_space(space),
    ensures
        words_of(one + seq![space] + two) == words_of(one) + words_of(two),
{
    words_go_on(one, space, two);
    assert(words_of(one + seq![space] + two) =~= words_of(one) + words_of(two));
}

proof fn words_go_on(one: Seq<char>, space: char, two: Seq<char>)
    requires
        white_space(space),
    ensures
        word_parts(one + seq![space] + two).0 == words_of(one) + word_parts(two).0,
        word_parts(one + seq![space] + two).1 == word_parts(two).1,
    decreases two.len(),
{
    let all = one + seq![space] + two;
    if two.len() == 0 {
        assert(all =~= one.push(space));
        assert(one.push(space).drop_last() =~= one);
        assert(word_parts(all).0 =~= words_of(one) + word_parts(two).0);
        assert(word_parts(all).1 =~= word_parts(two).1);
    } else {
        words_go_on(one, space, two.drop_last());
        assert(all.drop_last() =~= one + seq![space] + two.drop_last());
        assert(all.last() == two.last());
        assert(word_parts(all).0 =~= words_of(one) + word_parts(two).0);
    }
}

/// A text without white space is a single word, and one without anything has none.
pub proof fn a_single_word(s: Seq<char>)
    requires
        forall|i: int| 0 <= i < s.len() ==> !white_space(#[trigger] s[i]),
    ensures
        words_of(s) == (if s.len() == 0 {
            Seq::empty()
        } else {
            seq![s]
        }),
{
    word_goes_on(s);
    assert(words_of(s) =~= (if s.len() == 0 {
        Seq::empty()
    } else {
        seq![s]
    }));
}

proof fn word_goes_on(s: Seq<char>)
    requires
        forall|i: int| 0 <= i < s.len() ==> !white_space(#[trigger] s[i]),
    ensures
        word_parts(s).0 == Seq::<Seq<char>>::empty(),
        word_parts(s).1 == s,
    decreases s.len(),
{
    if s.len() > 0 {
        let front = s.drop_last();
        assert forall|i: int| 0 <= i < front.len() implies !white_space(#[trigger] front[i]) by {
            assert(front[i] == s[i]);
        }
        word_goes_on(front);
        assert(s.last() == s[s.len() - 1]);
        assert(front.push(s.last()) =~= s);
    } else {
        assert(s =~= Seq::<char>::empty());
    }
}

/// Letters from A to Z are lowered, and nothing else is changed.
pub proof fn only_capitals_are_lowered(s: Seq<char>, at: int)
    requires
        0 <= at < s.len(),
    ensures
        lowered(s).len() == s.len(),
        'A' <= s[at] <= 'Z' ==> lowered(s)[at] as nat == s[at] as nat + 32,
        !('A' <= s[at] <= 'Z') ==> lowered(s)[at] == s[at],
{
}

/// A text stands in front of what continues it, and where two texts differ the smaller
/// character stands in front.
pub proof fn smaller_texts_stand_in_front(common: Seq<char>, one: char, two: char, first: Seq<char>, second: Seq<char>)
    ensures
        text_lt(common, common + seq![one] + first),
        one < two ==> text_lt(common + seq![one] + first, common + seq![two] + second),
        one > two ==> !text_lt(common + seq![one] + first, common + seq![two] + second),
{
    let at = common.len() as int;
    let a = common + seq![one] + first;
    let b = common + seq![two] + second;
    assert(lt_at(common, a, at));
    assert(a[at] == one && b[at] == two);
    if one < two {
        assert(lt_at(a, b, at));
    }
    if one > two {
        assert(lt_at(b, a, at));
        text_lt_asymmetric(b, a);
    }
}

/// Of the end of a line one carriage return is taken, and nothing else.
pub proof fn one_return_is_taken(line: Seq<char>)
    ensures
        without_return(line.push('\r')) == line,
        line.len() > 0 && line.last() != '\r' ==> without_return(line) == line,
        without_return(Seq::empty()) == Seq::<char>::empty(),
{
    assert(line.push('\r').drop_last() =~= line);
}

} // verus!
