//! Values that name ports.
use vstd::prelude::*;
use crate::collections::TextMap;
use crate::numbers::{decimal, decimal_text};
use crate::text::{chars_of, concat2, concat3, contains_text, find_char, find_text, has_text, matches_at, occurs_at, text_of};

verus! {

/// The string with every `pattern`, found from left to right, replaced.
pub open spec fn replaced(s: Seq<char>, pattern: Seq<char>, by: Seq<char>) -> Seq<char>
    decreases s.len(),
{
    if s.len() == 0 || pattern.len() == 0 {
        s
    } else if pattern.is_prefix_of(s) {
        by + replaced(s.skip(pattern.len() as int), pattern, by)
    } else {
        seq![s[0]] + replaced(s.skip(1), pattern, by)
    }
}

/// The string with every `pattern`, found from left to right, replaced.
pub fn replace_text(s: &str, pattern: &str, by: &str) -> (text: String)
    requires
        pattern@.len() > 0,
    ensures
        text@ == replaced(s@, pattern@, by@),
{
    let chars = chars_of(s);
    let wanted = chars_of(pattern);
    let end: usize = chars.len();
    let mut text = String::new();
    let mut i: usize = 0;
    assert(s@.skip(0) =~= s@);
    assert(text@ + replaced(s@.skip(0), pattern@, by@) =~= replaced(s@, pattern@, by@));
    while i < end
        invariant
            chars@ == s@,
            wanted@ == pattern@,
            pattern@.len() > 0,
            end == s@.len(),
            i <= end,
            text@ + replaced(s@.skip(i as int), pattern@, by@) == replaced(s@, pattern@, by@),
        decreases end - i,
    {
        let ghost rest = s@.skip(i as int);
        let ghost before = text@;
        if matches_at(&chars, &wanted, i) {
            proof {
                assert(s@.subrange(i as int, i + pattern@.len()) =~= rest.subrange(0, pattern@.len() as int));
                assert(pattern@.is_prefix_of(rest));
                assert(rest.skip(pattern@.len() as int) =~= s@.skip(i + pattern@.len()));
            }
            text.append(by);
            assert(text@ + replaced(s@.skip(i + pattern@.len()), pattern@, by@) =~= before + replaced(
                rest,
                pattern@,
                by@,
            ));
            i += wanted.len();
        } else {
            proof {
                if pattern@.is_prefix_of(rest) {
                    assert(s@.subrange(i as int, i + pattern@.len()) =~= rest.subrange(0, pattern@.len() as int));
                    assert(occurs_at(s@, pattern@, i as int));
                }
                assert(rest.skip(1) =~= s@.skip(i + 1));
            }
            text.push(chars[i]);
            assert(text@ + replaced(s@.skip(i + 1), pattern@, by@) =~= before + replaced(rest, pattern@, by@));
            i += 1;
        }
    }
    assert(s@.skip(i as int).len() == 0);
    assert(text@ =~= text@ + replaced(s@.skip(i as int), pattern@, by@));
    text
}

/// The string from the first place of `pattern` on.
pub open spec fn from_first(s: Seq<char>, pattern: Seq<char>) -> Seq<char>
    decreases s.len(),
{
    if s.len() == 0 || pattern.is_prefix_of(s) {
        s
    } else {
        from_first(s.skip(1), pattern)
    }
}

/// The string up to and with the first `c`.
pub open spec fn through(s: Seq<char>, c: char) -> Seq<char>
    decreases s.len(),
{
    if s.len() == 0 {
        s
    } else if s[0] == c {
        seq![c]
    } else {
        seq![s[0]] + through(s.skip(1), c)
    }
}

proof fn first_place(s: Seq<char>, pattern: Seq<char>, at: int)
    requires
        occurs_at(s, pattern, at),
        forall|j: int| 0 <= j < at ==> !occurs_at(s, pattern, j),
    ensures
        from_first(s, pattern) == s.skip(at),
    decreases at,
{
    if at == 0 {
        assert(s.subrange(0, pattern.len() as int) == pattern);
        assert(s.skip(0) =~= s);
    } else {
        assert(!occurs_at(s, pattern, 0));
        if pattern.is_prefix_of(s) {
            assert(s.subrange(0, pattern.len() as int) =~= pattern);
        }
        let rest = s.skip(1);
        assert(rest.subrange(at - 1, at - 1 + pattern.len()) =~= s.subrange(at, at + pattern.len()));
        assert forall|j: int| 0 <= j < at - 1 implies !occurs_at(rest, pattern, j) by {
            if occurs_at(rest, pattern, j) {
                assert(rest.subrange(j, j + pattern.len()) =~= s.subrange(j + 1, j + 1 + pattern.len()));
                assert(occurs_at(s, pattern, j + 1));
            }
        }
        first_place(rest, pattern, at - 1);
        assert(rest.skip(at - 1) =~= s.skip(at));
    }
}

proof fn through_place(s: Seq<char>, c: char, at: int)
    requires
        0 <= at <= s.len(),
        forall|j: int| 0 <= j < at ==> s[j] != c,
        at < s.len() ==> s[at] == c,
    ensures
        at < s.len() ==> through(s, c) == s.take(at + 1),
        at == s.len() ==> through(s, c) == s,
    decreases at,
{
    if at > 0 {
        let rest = s.skip(1);
        assert forall|j: int| 0 <= j < at - 1 implies rest[j] != c by {
            assert(s[j + 1] != c);
        }
        through_place(rest, c, at - 1);
        if at < s.len() {
            assert(s.take(at + 1) =~= seq![s[0]] + rest.take(at));
        } else {
            assert(s =~= seq![s[0]] + rest);
        }
    } else if s.len() > 0 {
        assert(s.take(1) =~= seq![c]);
    }
}

/// How a value names a port.
pub open spec fn placeholder(name: Seq<char>) -> Seq<char> {
    "{ports."@ + name + "}"@
}

/// The value with the names of ports replaced by their numbers.
pub open spec fn with_ports(value: Seq<char>, names: Seq<Seq<char>>, ports: Map<Seq<char>, u16>) -> Seq<char>
    decreases names.len(),
{
    if names.len() == 0 {
        value
    } else {
        replaced(
            with_ports(value, names.drop_last(), ports),
            placeholder(names.last()),
            decimal(ports[names.last()] as nat),
        )
    }
}

/// A value with the service's own port filled in, or why that cannot be.
pub open spec fn with_own_port(value: Seq<char>, service_port: Option<u16>) -> Result<Seq<char>, Seq<char>> {
    if !contains_text(value, "{port}"@) {
        Ok(value)
    } else {
        match service_port {
            Some(port) => Ok(replaced(value, "{port}"@, decimal(port as nat))),
            None => Err("uses {port} but the service has no configured port"@),
        }
    }
}

/// A value with its ports filled in, or what is wrong with it.
pub open spec fn expanded(value: Seq<char>, service_port: Option<u16>, ports: TextMap<u16>) -> Result<
    Seq<char>,
    Seq<char>,
> {
    match with_own_port(value, service_port) {
        Err(message) => Err(message),
        Ok(own) => {
            let text = with_ports(own, ports.keys(), ports@);
            if contains_text(text, "{ports."@) {
                Err("references unknown port template "@ + through(from_first(text, "{ports."@), '}'))
            } else {
                Ok(text)
            }
        },
    }
}

/// Fill the ports into a value: `{port}` is the service's own, `{ports.<name>}`
/// a named one.
pub fn expand_template(value: &str, service_port: Option<u16>, ports: &TextMap<u16>) -> (text: Result<String, String>)
    ensures
        match text {
            Ok(filled) => expanded(value@, service_port, *ports) == Ok::<Seq<char>, Seq<char>>(filled@),
            Err(message) => expanded(value@, service_port, *ports) == Err::<Seq<char>, Seq<char>>(message@),
        },
{
    let mut text = value.to_owned();
    if has_text(value, "{port}") {
        match service_port {
            None => return Err("uses {port} but the service has no configured port".to_owned()),
            Some(port) => {
                proof {
                    reveal_strlit("{port}");
                }
                text = replace_text(value, "{port}", &decimal_text(port as u128));
            },
        }
    }
    let ghost own = text@;
    let ghost names = ports.keys();
    let count = ports.len();
    let mut i: usize = 0;
    assert(names.take(0) =~= Seq::<Seq<char>>::empty());
    while i < count
        invariant
            i <= count,
            count == names.len(),
            names == ports.keys(),
            text@ == with_ports(own, names.take(i as int), ports@),
        decreases count - i,
    {
        proof {
            assert(names.take(i + 1).drop_last() =~= names.take(i as int));
            assert(names.take(i + 1).last() == names[i as int]);
            reveal_strlit("{ports.");
        }
        let pattern = concat3("{ports.", ports.key_at(i), "}");
        text = replace_text(&text, &pattern, &decimal_text(*ports.value_at(i) as u128));
        i += 1;
    }
    assert(names.take(names.len() as int) =~= names);
    let chars = chars_of(&text);
    let wanted = chars_of("{ports.");
    let end: usize = chars.len();
    match find_text(&chars, &wanted, 0) {
        None => Ok(text),
        Some(at) => {
            let close: usize = match find_char(&chars, '}', at) {
                Some(place) => place + 1,
                None => end,
            };
            let part = text_of(&chars, at, close);
            proof {
                first_place(text@, "{ports."@, at as int);
                let rest = text@.skip(at as int);
                if close < end || chars@[end - 1] == '}' {
                    assert(forall|j: int| 0 <= j < rest.len() ==> rest[j] == #[trigger] chars@[at + j]);
                }
                if exists|j: int| at <= j < end && chars@[j] == '}' {
                    through_place(rest, '}', close - 1 - at);
                    assert(part@ =~= rest.take(close - at));
                } else {
                    through_place(rest, '}', rest.len() as int);
                    assert(part@ =~= rest);
                }
            }
            Err(concat2("references unknown port template ", &part))
        },
    }
}

// ---------------------------------------------------------------------------
// What filling in does
// ---------------------------------------------------------------------------

/// The strings have no character in common.
pub open spec fn shares_nothing(one: Seq<char>, two: Seq<char>) -> bool {
    forall|i: int, j: int| 0 <= i < one.len() && 0 <= j < two.len() ==> (#[trigger] one[i]) != (#[trigger] two[j])
}

/// As far as a replaced string holds nothing of the replacement, it is the
/// string itself.
proof fn kept_before_replacement(s: Seq<char>, pattern: Seq<char>, by: Seq<char>, count: int)
    requires
        by.len() > 0,
        0 <= count <= replaced(s, pattern, by).len(),
        shares_nothing(replaced(s, pattern, by).take(count), by),
    ensures
        count <= s.len(),
        s.take(count) == replaced(s, pattern, by).take(count),
    decreases s.len(),
{
    let result = replaced(s, pattern, by);
    if count > 0 && s.len() > 0 && pattern.len() > 0 {
        if pattern.is_prefix_of(s) {
            assert(result.take(count)[0] == by[0]);
        } else {
            let rest = replaced(s.skip(1), pattern, by);
            assert forall|i: int, j: int| 0 <= i < count - 1 && 0 <= j < by.len() implies (#[trigger] rest.take(
                count - 1,
            )[i]) != (#[trigger] by[j]) by {
                assert(result.take(count)[i + 1] == rest[i]);
            }
            kept_before_replacement(s.skip(1), pattern, by, count - 1);
            assert(s.take(count) =~= seq![s[0]] + s.skip(1).take(count - 1));
            assert(result.take(count) =~= seq![s[0]] + rest.take(count - 1));
        }
    } else {
        assert(s.take(count) =~= result.take(count));
    }
}

/// Replacing makes up nothing: a string that has no character in common with
/// the replacement stands in the result only where it stood before, and then
/// is not what was replaced.
pub proof fn replacing_makes_up_nothing(
    s: Seq<char>,
    pattern: Seq<char>,
    by: Seq<char>,
    other: Seq<char>,
    at: int,
)
    requires
        pattern.len() > 0,
        by.len() > 0,
        other.len() > 0,
        shares_nothing(other, by),
        occurs_at(replaced(s, pattern, by), other, at),
    ensures
        other != pattern,
        contains_text(s, other),
    decreases s.len(),
{
    let result = replaced(s, pattern, by);
    let size = other.len() as int;
    assert(result.subrange(at, at + size) == other);
    if s.len() > 0 {
        if pattern.is_prefix_of(s) {
            let n = pattern.len() as int;
            let rest = replaced(s.skip(n), pattern, by);
            if at < by.len() {
                assert(result.subrange(at, at + size)[0] == by[at]);
                assert(other[0] != by[at]);
            } else {
                assert(rest.subrange(at - by.len(), at - by.len() + size) =~= result.subrange(at, at + size));
                replacing_makes_up_nothing(s.skip(n), pattern, by, other, at - by.len());
                let j = choose|j: int| #[trigger] occurs_at(s.skip(n), other, j);
                assert(s.subrange(j + n, j + n + size) =~= s.skip(n).subrange(j, j + size));
                assert(occurs_at(s, other, j + n));
            }
        } else if at == 0 {
            assert(result.take(size) =~= other);
            kept_before_replacement(s, pattern, by, size);
            assert(s.subrange(0, size) =~= other);
            assert(occurs_at(s, other, 0));
            if other == pattern {
                assert(pattern =~= s.subrange(0, size));
            }
        } else {
            let rest = replaced(s.skip(1), pattern, by);
            assert(rest.subrange(at - 1, at - 1 + size) =~= result.subrange(at, at + size));
            replacing_makes_up_nothing(s.skip(1), pattern, by, other, at - 1);
            let j = choose|j: int| #[trigger] occurs_at(s.skip(1), other, j);
            assert(s.subrange(j + 1, j + 1 + size) =~= s.skip(1).subrange(j, j + size));
            assert(occurs_at(s, other, j + 1));
        }
    }
}

/// Replacing leaves nothing: a pattern that has no character in common with
/// the replacement does not stand in the result.
pub proof fn replacing_leaves_nothing(s: Seq<char>, pattern: Seq<char>, by: Seq<char>)
    requires
        pattern.len() > 0,
        by.len() > 0,
        shares_nothing(pattern, by),
    ensures
        !contains_text(replaced(s, pattern, by), pattern),
{
    if contains_text(replaced(s, pattern, by), pattern) {
        let at = choose|at: int| #[trigger] occurs_at(replaced(s, pattern, by), pattern, at);
        replacing_makes_up_nothing(s, pattern, by, pattern, at);
    }
}

/// A string without the pattern stays as it is.
pub proof fn replacing_spares_the_rest(s: Seq<char>, pattern: Seq<char>, by: Seq<char>)
    requires
        !contains_text(s, pattern),
    ensures
        replaced(s, pattern, by) == s,
    decreases s.len(),
{
    if s.len() > 0 && pattern.len() > 0 {
        if pattern.is_prefix_of(s) {
            assert(s.subrange(0, pattern.len() as int) =~= pattern);
            assert(occurs_at(s, pattern, 0));
        }
        let rest = s.skip(1);
        if contains_text(rest, pattern) {
            let j = choose|j: int| #[trigger] occurs_at(rest, pattern, j);
            assert(s.subrange(j + 1, j + 1 + pattern.len()) =~= rest.subrange(j, j + pattern.len()));
            assert(occurs_at(s, pattern, j + 1));
        }
        replacing_spares_the_rest(rest, pattern, by);
        assert(s =~= seq![s[0]] + rest);
    }
}

/// A part of a value.
pub enum Piece {
    /// Text without braces
    Plain(Seq<char>),
    /// The service's own port
    Own,
    /// A named port
    Named(Seq<char>),
}

/// How a part of a value is written.
pub open spec fn piece_text(piece: Piece) -> Seq<char> {
    match piece {
        Piece::Plain(text) => text,
        Piece::Own => "{port}"@,
        Piece::Named(name) => "{ports."@ + name + "}"@,
    }
}

/// How a value is written, part by part.
pub open spec fn written(pieces: Seq<Piece>) -> Seq<char>
    decreases pieces.len(),
{
    if pieces.len() == 0 {
        Seq::empty()
    } else {
        piece_text(pieces[0]) + written(pieces.skip(1))
    }
}

/// The parts are texts without opening braces, and names without braces.
pub open spec fn are_pieces(pieces: Seq<Piece>) -> bool {
    forall|i: int|
        0 <= i < pieces.len() ==> match #[trigger] pieces[i] {
            Piece::Plain(text) => !text.contains('{'),
            Piece::Own => true,
            Piece::Named(name) => !name.contains('{') && !name.contains('}'),
        }
}

/// A part with the own port, and those of the names of a set, filled in.
pub open spec fn filled_piece(
    piece: Piece,
    service_port: Option<u16>,
    names: Set<Seq<char>>,
    ports: Map<Seq<char>, u16>,
) -> Piece {
    match piece {
        Piece::Own if service_port is Some => Piece::Plain(decimal(service_port->0 as nat)),
        Piece::Named(name) if names.contains(name) => Piece::Plain(decimal(ports[name] as nat)),
        other => other,
    }
}

/// The parts with the own port, and those of the names of a set, filled in.
pub open spec fn filled_pieces(
    pieces: Seq<Piece>,
    service_port: Option<u16>,
    names: Set<Seq<char>>,
    ports: Map<Seq<char>, u16>,
) -> Seq<Piece> {
    pieces.map_values(|piece: Piece| filled_piece(piece, service_port, names, ports))
}

proof fn decimals_have_no_brace(value: nat)
    ensures
        !decimal(value).contains('{'),
        decimal(value).len() > 0,
    decreases value,
{
    crate::numbers::decimal_digits(value);
    let text = decimal(value);
    if text.contains('{') {
        let i = choose|i: int| 0 <= i < text.len() && text[i] == '{';
        assert('0' <= text[i] <= '9');
    }
}

/// A text without an opening brace is passed over.
proof fn replaced_behind_plain(text: Seq<char>, rest: Seq<char>, pattern: Seq<char>, by: Seq<char>)
    requires
        !text.contains('{'),
        pattern.len() > 0,
        pattern[0] == '{',
    ensures
        replaced(text + rest, pattern, by) == text + replaced(rest, pattern, by),
    decreases text.len(),
{
    if text.len() == 0 {
        assert(text + rest =~= rest);
        assert(text + replaced(rest, pattern, by) =~= replaced(rest, pattern, by));
    } else {
        let all = text + rest;
        assert(text[0] != '{') by {
            assert(text.contains(text[0]));
        }
        if pattern.is_prefix_of(all) {
            assert(all.subrange(0, pattern.len() as int)[0] == text[0]);
        }
        assert forall|i: int| 0 <= i < text.skip(1).len() implies text.skip(1)[i] != '{' by {
            assert(text.contains(text[i + 1]));
        }
        replaced_behind_plain(text.skip(1), rest, pattern, by);
        assert(all.skip(1) =~= text.skip(1) + rest);
        assert(text + replaced(rest, pattern, by) =~= seq![text[0]] + (text.skip(1) + replaced(rest, pattern, by)));
    }
}

/// A placeholder that is not meant is passed over.
proof fn replaced_behind_other(other: Seq<char>, rest: Seq<char>, pattern: Seq<char>, by: Seq<char>)
    requires
        other.len() > 0,
        !other.skip(1).contains('{'),
        pattern.len() > 0,
        pattern[0] == '{',
        !pattern.is_prefix_of(other + rest),
    ensures
        replaced(other + rest, pattern, by) == other + replaced(rest, pattern, by),
{
    replaced_behind_plain(other.skip(1), rest, pattern, by);
    assert((other + rest).skip(1) =~= other.skip(1) + rest);
    assert(other + replaced(rest, pattern, by) =~= seq![other[0]] + (other.skip(1) + replaced(rest, pattern, by)));
}

proof fn own_is_no_name(name: Seq<char>, rest: Seq<char>)
    ensures
        !"{port}"@.is_prefix_of("{ports."@ + name + "}"@ + rest),
        !("{ports."@ + name + "}"@).is_prefix_of("{port}"@ + rest),
{
    reveal_strlit("{port}");
    reveal_strlit("{ports.");
    reveal_strlit("}");
    let named = "{ports."@ + name + "}"@;
    let all = named + rest;
    if "{port}"@.is_prefix_of(all) {
        assert(all.subrange(0, 6)[5] == 's');
        assert("{port}"@[5] == '}');
    }
    let own = "{port}"@ + rest;
    if named.is_prefix_of(own) {
        assert(own.subrange(0, named.len() as int)[5] == own[5]);
        assert(own[5] == '}');
        assert(named[5] == 's');
    }
}

proof fn names_are_told_apart(one: Seq<char>, two: Seq<char>, rest: Seq<char>)
    requires
        one != two,
        !one.contains('}'),
        !two.contains('}'),
    ensures
        !("{ports."@ + one + "}"@).is_prefix_of("{ports."@ + two + "}"@ + rest),
{
    reveal_strlit("{ports.");
    reveal_strlit("}");
    let pattern = "{ports."@ + one + "}"@;
    let all = "{ports."@ + two + "}"@ + rest;
    if pattern.is_prefix_of(all) {
        let head = all.subrange(0, pattern.len() as int);
        assert(head == pattern);
        assert forall|i: int| 0 <= i < pattern.len() implies pattern[i] == all[i] by {
            assert(head[i] == all[i]);
        }
        if one.len() < two.len() {
            assert(pattern[7 + one.len() as int] == '}');
            assert(all[7 + one.len() as int] == two[one.len() as int]);
            assert(two.contains(two[one.len() as int]));
        } else if one.len() > two.len() {
            assert(all[7 + two.len() as int] == '}');
            assert(pattern[7 + two.len() as int] == one[two.len() as int]);
            assert(one.contains(one[two.len() as int]));
        } else {
            assert forall|i: int| 0 <= i < one.len() implies one[i] == two[i] by {
                assert(pattern[7 + i] == one[i] && all[7 + i] == two[i]);
            }
            assert(one =~= two);
        }
    }
}

proof fn placeholder_shapes(name: Seq<char>)
    requires
        !name.contains('{'),
    ensures
        "{port}"@.len() == 6,
        "{port}"@[0] == '{',
        !"{port}"@.skip(1).contains('{'),
        ("{ports."@ + name + "}"@).len() == name.len() + 8,
        ("{ports."@ + name + "}"@)[0] == '{',
        !("{ports."@ + name + "}"@).skip(1).contains('{'),
{
    reveal_strlit("{port}");
    reveal_strlit("{ports.");
    reveal_strlit("}");
    let own = "{port}"@.skip(1);
    assert forall|i: int| 0 <= i < own.len() implies own[i] != '{' by {
        assert(own[i] == "{port}"@[i + 1]);
    }
    let named = "{ports."@ + name + "}"@;
    let tail = named.skip(1);
    assert forall|i: int| 0 <= i < tail.len() implies tail[i] != '{' by {
        assert(tail[i] == named[i + 1]);
        if 6 <= i < 6 + name.len() {
            assert(named[i + 1] == name[i - 6]);
            assert(name.contains(name[i - 6]));
        }
    }
}

/// Filling in one placeholder fills in that part of a value and no other.
proof fn replaced_pieces(pieces: Seq<Piece>, meant: Piece, by: Seq<char>)
    requires
        are_pieces(pieces),
        are_pieces(seq![meant]),
        !(meant is Plain),
        !by.contains('{'),
    ensures
        replaced(written(pieces), piece_text(meant), by) == written(
            pieces.map_values(|piece: Piece| if piece == meant { Piece::Plain(by) } else { piece }),
        ),
    decreases pieces.len(),
{
    let pattern = piece_text(meant);
    let change = |piece: Piece| if piece == meant { Piece::Plain(by) } else { piece };
    let changed = pieces.map_values(change);
    assert(seq![meant][0] == meant);
    if let Piece::Named(name) = meant {
        placeholder_shapes(name);
    } else {
        placeholder_shapes(Seq::empty());
    }
    if pieces.len() > 0 {
        let first = pieces[0];
        let rest = pieces.skip(1);
        assert forall|i: int| 0 <= i < rest.len() implies match #[trigger] rest[i] {
            Piece::Plain(text) => !text.contains('{'),
            Piece::Own => true,
            Piece::Named(name) => !name.contains('{') && !name.contains('}'),
        } by {
            assert(rest[i] == pieces[i + 1]);
        }
        replaced_pieces(rest, meant, by);
        assert(changed.skip(1) =~= rest.map_values(change));
        let tail = written(rest);
        let text = piece_text(first);
        if first == meant {
            let all = pattern + tail;
            assert(all.subrange(0, pattern.len() as int) =~= pattern);
            assert(pattern.is_prefix_of(all));
            assert(all.skip(pattern.len() as int) =~= tail);
        } else {
            match first {
                Piece::Plain(_) => {
                    replaced_behind_plain(text, tail, pattern, by);
                },
                Piece::Own => {
                    if let Piece::Named(name) = meant {
                        own_is_no_name(name, tail);
                    }
                    placeholder_shapes(Seq::empty());
                    replaced_behind_other(text, tail, pattern, by);
                },
                Piece::Named(two) => {
                    placeholder_shapes(two);
                    match meant {
                        Piece::Named(one) => {
                            names_are_told_apart(one, two, tail);
                        },
                        _ => {
                            own_is_no_name(two, tail);
                        },
                    }
                    replaced_behind_other(text, tail, pattern, by);
                },
            }
        }
    } else {
        assert(changed =~= Seq::<Piece>::empty());
    }
}

proof fn named_pieces(pieces: Seq<Piece>, names: Seq<Seq<char>>, ports: Map<Seq<char>, u16>)
    requires
        are_pieces(pieces),
        forall|i: int| 0 <= i < names.len() ==> !(#[trigger] names[i]).contains('{') && !names[i].contains('}'),
    ensures
        with_ports(written(pieces), names, ports) == written(filled_pieces(pieces, None, names.to_set(), ports)),
    decreases names.len(),
{
    let fill = |piece: Piece| filled_piece(piece, None, names.to_set(), ports);
    if names.len() == 0 {
        assert(pieces.map_values(fill) =~= pieces);
    } else {
        let front = names.drop_last();
        let last = names.last();
        assert forall|i: int| 0 <= i < front.len() implies !(#[trigger] front[i]).contains('{') && !front[i].contains(
            '}',
        ) by {
            assert(front[i] == names[i]);
        }
        assert(last == names[names.len() - 1]);
        named_pieces(pieces, front, ports);
        let before = filled_pieces(pieces, None, front.to_set(), ports);
        assert forall|i: int| 0 <= i < before.len() implies match #[trigger] before[i] {
            Piece::Plain(text) => !text.contains('{'),
            Piece::Own => true,
            Piece::Named(name) => !name.contains('{') && !name.contains('}'),
        } by {
            assert(before[i] == filled_piece(pieces[i], None, front.to_set(), ports));
            if let Piece::Named(name) = pieces[i] {
                decimals_have_no_brace(ports[name] as nat);
            }
        }
        let by = decimal(ports[last] as nat);
        decimals_have_no_brace(ports[last] as nat);
        replaced_pieces(before, Piece::Named(last), by);
        let change = |piece: Piece| if piece == Piece::Named(last) { Piece::Plain(by) } else { piece };
        assert(before.map_values(change) =~= pieces.map_values(fill)) by {
            assert forall|i: int| 0 <= i < pieces.len() implies change(before[i]) == fill(pieces[i]) by {
                assert(before[i] == filled_piece(pieces[i], None, front.to_set(), ports));
                if let Piece::Named(name) = pieces[i] {
                    assert(names =~= front.push(last));
                    if front.contains(name) {
                        let k = choose|k: int| 0 <= k < front.len() && front[k] == name;
                        assert(names[k] == name);
                    }
                    if names.contains(name) {
                        let k = choose|k: int| 0 <= k < names.len() && names[k] == name;
                        if k < front.len() {
                            assert(front[k] == name);
                        }
                    }
                    assert(names[names.len() - 1] == last);
                }
            }
        }
    }
}

/// What a value without opening braces but in front of `{ports.` begins with.
proof fn first_name_is_found(text: Seq<char>, name: Seq<char>, rest: Seq<char>)
    requires
        !text.contains('{'),
        !name.contains('}'),
    ensures
        contains_text(text + ("{ports."@ + name + "}"@) + rest, "{ports."@),
        through(from_first(text + ("{ports."@ + name + "}"@) + rest, "{ports."@), '}') == "{ports."@ + name + "}"@,
{
    reveal_strlit("{ports.");
    reveal_strlit("}");
    let named = "{ports."@ + name + "}"@;
    let all = text + named + rest;
    let at = text.len() as int;
    assert(all.subrange(at, at + 7) =~= "{ports."@);
    assert(occurs_at(all, "{ports."@, at));
    assert forall|j: int| 0 <= j < at implies !occurs_at(all, "{ports."@, j) by {
        if occurs_at(all, "{ports."@, j) {
            assert(all.subrange(j, j + 7)[0] == text[j]);
            assert(text.contains(text[j]));
        }
    }
    first_place(all, "{ports."@, at);
    let tail = all.skip(at);
    assert forall|j: int| 0 <= j < name.len() + 7 implies tail[j] != '}' by {
        if j >= 7 {
            assert(tail[j] == name[j - 7]);
            assert(name.contains(name[j - 7]));
        } else {
            assert(tail[j] == "{ports."@[j]);
        }
    }
    through_place(tail, '}', name.len() as int + 7);
    assert(tail.take(name.len() as int + 8) =~= named);
}

proof fn written_sum(one: Seq<Piece>, two: Seq<Piece>)
    ensures
        written(one + two) == written(one) + written(two),
    decreases one.len(),
{
    if one.len() == 0 {
        assert(one + two =~= two);
        assert(written(one) + written(two) =~= written(two));
    } else {
        written_sum(one.skip(1), two);
        assert((one + two).skip(1) =~= one.skip(1) + two);
        assert((one + two)[0] == one[0]);
        assert(written(one) + written(two) =~= piece_text(one[0]) + (written(one.skip(1)) + written(two)));
    }
}

proof fn plain_is_without_braces(pieces: Seq<Piece>)
    requires
        forall|i: int| 0 <= i < pieces.len() ==> (#[trigger] pieces[i]) is Plain && !pieces[i]->Plain_0.contains('{'),
    ensures
        !written(pieces).contains('{'),
    decreases pieces.len(),
{
    if pieces.len() > 0 {
        let rest = pieces.skip(1);
        assert forall|i: int| 0 <= i < rest.len() implies (#[trigger] rest[i]) is Plain && !rest[i]->Plain_0.contains(
            '{',
        ) by {
            assert(rest[i] == pieces[i + 1]);
        }
        plain_is_without_braces(rest);
        let all = written(pieces);
        let first = piece_text(pieces[0]);
        if all.contains('{') {
            let k = choose|k: int| 0 <= k < all.len() && all[k] == '{';
            if k < first.len() {
                assert(first.contains(first[k]));
            } else {
                assert(written(rest).contains(written(rest)[k - first.len()]));
            }
        }
    }
}

proof fn without_brace_no_name(text: Seq<char>, pattern: Seq<char>)
    requires
        !text.contains('{'),
        pattern.len() > 0,
        pattern[0] == '{',
    ensures
        !contains_text(text, pattern),
{
    if contains_text(text, pattern) {
        let at = choose|at: int| #[trigger] occurs_at(text, pattern, at);
        assert(text.subrange(at, at + pattern.len())[0] == text[at]);
        assert(text.contains(text[at]));
    }
}

proof fn own_piece_occurs(pieces: Seq<Piece>, at: int)
    requires
        0 <= at < pieces.len(),
        pieces[at] is Own,
    ensures
        contains_text(written(pieces), "{port}"@),
{
    let front = pieces.take(at);
    let back = pieces.skip(at);
    assert(pieces =~= front + back);
    written_sum(front, back);
    let all = written(pieces);
    let place = written(front).len() as int;
    assert(all.subrange(place, place + "{port}"@.len()) =~= "{port}"@);
    assert(occurs_at(all, "{port}"@, place));
}

/// Only `{port}` itself is read as the own port.
proof fn no_own_piece(pieces: Seq<Piece>)
    requires
        are_pieces(pieces),
        forall|i: int| 0 <= i < pieces.len() ==> !((#[trigger] pieces[i]) is Own),
    ensures
        !contains_text(written(pieces), "{port}"@),
{
    let by = "0"@;
    reveal_strlit("0");
    reveal_strlit("{port}");
    assert(!by.contains('{'));
    assert(are_pieces(seq![Piece::Own]));
    replaced_pieces(pieces, Piece::Own, by);
    let change = |piece: Piece| if piece == Piece::Own { Piece::Plain(by) } else { piece };
    assert(pieces.map_values(change) =~= pieces);
    assert(replaced(written(pieces), "{port}"@, by) == written(pieces));
    assert(shares_nothing("{port}"@, by));
    replacing_leaves_nothing(written(pieces), "{port}"@, by);
}

/// A value that is written with `{port}` and the names of known ports has each
/// of them filled in, wherever and however often it stands, and nothing else is
/// changed.
pub proof fn known_ports_are_filled_in(pieces: Seq<Piece>, service_port: Option<u16>, ports: TextMap<u16>)
    requires
        are_pieces(pieces),
        ports@.dom() == ports.keys().to_set(),
        forall|i: int|
            0 <= i < ports.keys().len() ==> !(#[trigger] ports.keys()[i]).contains('{') && !ports.keys()[i].contains(
                '}',
            ),
        forall|i: int|
            0 <= i < pieces.len() ==> match #[trigger] pieces[i] {
                Piece::Plain(_) => true,
                Piece::Own => service_port is Some,
                Piece::Named(name) => ports@.contains_key(name),
            },
    ensures
        expanded(written(pieces), service_port, ports) == Ok::<Seq<char>, Seq<char>>(
            written(filled_pieces(pieces, service_port, ports@.dom(), ports@)),
        ),
        forall|i: int|
            0 <= i < pieces.len() ==> (#[trigger] filled_pieces(
                pieces,
                service_port,
                ports@.dom(),
                ports@,
            )[i]) is Plain,
{
    let own = own_filled(pieces, service_port);
    let done = filled_pieces(pieces, service_port, ports@.dom(), ports@);
    own_port_is_filled_in(pieces, service_port);
    named_pieces(own, ports.keys(), ports@);
    let filled = filled_pieces(own, None, ports.keys().to_set(), ports@);
    assert forall|i: int| 0 <= i < pieces.len() implies filled[i] == #[trigger] done[i] && done[i] is Plain
        && !done[i]->Plain_0.contains('{') by {
        assert(filled[i] == filled_piece(own[i], None, ports.keys().to_set(), ports@));
        match pieces[i] {
            Piece::Own => {
                decimals_have_no_brace(service_port->0 as nat);
            },
            Piece::Named(name) => {
                decimals_have_no_brace(ports@[name] as nat);
            },
            _ => {},
        }
    }
    assert(filled =~= done);
    plain_is_without_braces(done);
    reveal_strlit("{ports.");
    without_brace_no_name(written(done), "{ports."@);
}

/// The parts with the own port filled in.
spec fn own_filled(pieces: Seq<Piece>, service_port: Option<u16>) -> Seq<Piece> {
    filled_pieces(pieces, service_port, Set::empty(), Map::empty())
}

proof fn own_port_is_filled_in(pieces: Seq<Piece>, service_port: Option<u16>)
    requires
        are_pieces(pieces),
        forall|i: int| 0 <= i < pieces.len() && (#[trigger] pieces[i]) is Own ==> service_port is Some,
    ensures
        with_own_port(written(pieces), service_port) == Ok::<Seq<char>, Seq<char>>(
            written(own_filled(pieces, service_port)),
        ),
        are_pieces(own_filled(pieces, service_port)),
{
    let own = own_filled(pieces, service_port);
    assert forall|i: int| 0 <= i < own.len() implies match #[trigger] own[i] {
        Piece::Plain(text) => !text.contains('{'),
        Piece::Own => true,
        Piece::Named(name) => !name.contains('{') && !name.contains('}'),
    } by {
        assert(own[i] == filled_piece(pieces[i], service_port, Set::empty(), Map::empty()));
        if service_port is Some {
            decimals_have_no_brace(service_port->0 as nat);
        }
    }
    if exists|i: int| 0 <= i < pieces.len() && (#[trigger] pieces[i]) is Own {
        let at = choose|i: int| 0 <= i < pieces.len() && (#[trigger] pieces[i]) is Own;
        own_piece_occurs(pieces, at);
        let by = decimal(service_port->0 as nat);
        decimals_have_no_brace(service_port->0 as nat);
        assert(are_pieces(seq![Piece::Own]));
        replaced_pieces(pieces, Piece::Own, by);
        let change = |piece: Piece| if piece == Piece::Own { Piece::Plain(by) } else { piece };
        assert(pieces.map_values(change) =~= own);
    } else {
        no_own_piece(pieces);
        assert(own =~= pieces);
    }
}

/// A value that names a port that is not known is refused, and the first such
/// name is said.
pub proof fn unknown_ports_are_refused(
    pieces: Seq<Piece>,
    service_port: Option<u16>,
    ports: TextMap<u16>,
    at: int,
)
    requires
        are_pieces(pieces),
        ports@.dom() == ports.keys().to_set(),
        forall|i: int|
            0 <= i < ports.keys().len() ==> !(#[trigger] ports.keys()[i]).contains('{') && !ports.keys()[i].contains(
                '}',
            ),
        forall|i: int| 0 <= i < pieces.len() && (#[trigger] pieces[i]) is Own ==> service_port is Some,
        0 <= at < pieces.len(),
        pieces[at] is Named && !ports@.contains_key(pieces[at]->Named_0),
        forall|i: int|
            0 <= i < at ==> ((#[trigger] pieces[i]) matches Piece::Named(name) ==> ports@.contains_key(name)),
    ensures
        expanded(written(pieces), service_port, ports) == Err::<Seq<char>, Seq<char>>(
            "references unknown port template "@ + ("{ports."@ + pieces[at]->Named_0 + "}"@),
        ),
{
    let own = own_filled(pieces, service_port);
    own_port_is_filled_in(pieces, service_port);
    named_pieces(own, ports.keys(), ports@);
    let filled = filled_pieces(own, None, ports.keys().to_set(), ports@);
    let front = filled.take(at);
    let back = filled.skip(at);
    assert forall|i: int| 0 <= i < front.len() implies (#[trigger] front[i]) is Plain && !front[i]->Plain_0.contains(
        '{',
    ) by {
        assert(front[i] == filled_piece(own[i], None, ports.keys().to_set(), ports@));
        match pieces[i] {
            Piece::Own => {
                decimals_have_no_brace(service_port->0 as nat);
            },
            Piece::Named(name) => {
                decimals_have_no_brace(ports@[name] as nat);
            },
            _ => {},
        }
    }
    plain_is_without_braces(front);
    assert(filled =~= front + back);
    written_sum(front, back);
    let name = pieces[at]->Named_0;
    assert(back[0] == Piece::Named(name));
    first_name_is_found(written(front), name, written(back.skip(1)));
    assert(written(filled) =~= written(front) + ("{ports."@ + name + "}"@) + written(back.skip(1)));
}

/// A value with `{port}` is refused where the service has no port, and only
/// such a value.
pub proof fn own_port_has_to_be_known(pieces: Seq<Piece>, ports: TextMap<u16>)
    requires
        are_pieces(pieces),
        exists|i: int| 0 <= i < pieces.len() && (#[trigger] pieces[i]) is Own,
    ensures
        expanded(written(pieces), None, ports) == Err::<Seq<char>, Seq<char>>(
            "uses {port} but the service has no configured port"@,
        ),
{
    let at = choose|i: int| 0 <= i < pieces.len() && (#[trigger] pieces[i]) is Own;
    own_piece_occurs(pieces, at);
}

/// A value that could be filled in holds no placeholder: none for a named port
/// and, where the service has a port, none for that.
pub proof fn filled_values_hold_no_placeholder(value: Seq<char>, service_port: Option<u16>, ports: TextMap<u16>)
    requires
        expanded(value, service_port, ports) is Ok,
    ensures
        !contains_text(expanded(value, service_port, ports)->Ok_0, "{ports."@),
        !contains_text(expanded(value, service_port, ports)->Ok_0, "{port}"@),
        !contains_text(value, "{port}"@) && !contains_text(value, "{ports."@) ==> expanded(
            value,
            service_port,
            ports,
        )->Ok_0 == value,
{
    let own = with_own_port(value, service_port)->Ok_0;
    reveal_strlit("{port}");
    reveal_strlit("{ports.");
    if contains_text(value, "{port}"@) {
        let by = decimal(service_port->0 as nat);
        digits_are_no_letters(service_port->0 as nat);
        replacing_leaves_nothing(value, "{port}"@, by);
    }
    ports_leave_the_own_port(own, ports.keys(), ports@);
    if !contains_text(value, "{port}"@) && !contains_text(value, "{ports."@) {
        ports_spare_the_rest(value, ports.keys(), ports@);
    }
}

proof fn digits_are_no_letters(value: nat)
    ensures
        decimal(value).len() > 0,
        shares_nothing("{port}"@, decimal(value)),
{
    reveal_strlit("{port}");
    crate::numbers::decimal_digits(value);
    let text = decimal(value);
    assert forall|i: int, j: int| 0 <= i < "{port}"@.len() && 0 <= j < text.len() implies (#[trigger] "{port}"@[i])
        != (#[trigger] text[j]) by {
        assert('0' <= text[j] <= '9');
    }
}

proof fn ports_leave_the_own_port(value: Seq<char>, names: Seq<Seq<char>>, ports: Map<Seq<char>, u16>)
    requires
        !contains_text(value, "{port}"@),
    ensures
        !contains_text(with_ports(value, names, ports), "{port}"@),
    decreases names.len(),
{
    if names.len() > 0 {
        let before = with_ports(value, names.drop_last(), ports);
        ports_leave_the_own_port(value, names.drop_last(), ports);
        let by = decimal(ports[names.last()] as nat);
        digits_are_no_letters(ports[names.last()] as nat);
        reveal_strlit("{port}");
        reveal_strlit("{ports.");
        let result = with_ports(value, names, ports);
        if contains_text(result, "{port}"@) {
            let at = choose|at: int| #[trigger] occurs_at(result, "{port}"@, at);
            replacing_makes_up_nothing(before, placeholder(names.last()), by, "{port}"@, at);
        }
    }
}

proof fn ports_spare_the_rest(value: Seq<char>, names: Seq<Seq<char>>, ports: Map<Seq<char>, u16>)
    requires
        !contains_text(value, "{ports."@),
    ensures
        with_ports(value, names, ports) == value,
    decreases names.len(),
{
    if names.len() > 0 {
        ports_spare_the_rest(value, names.drop_last(), ports);
        let pattern = placeholder(names.last());
        if contains_text(value, pattern) {
            let at = choose|at: int| #[trigger] occurs_at(value, pattern, at);
            assert(value.subrange(at, at + "{ports."@.len()) =~= value.subrange(at, at + pattern.len()).take(
                "{ports."@.len() as int,
            ));
            assert(pattern.take("{ports."@.len() as int) =~= "{ports."@);
            assert(occurs_at(value, "{ports."@, at));
        }
        replacing_spares_the_rest(value, pattern, decimal(ports[names.last()] as nat));
    }
}

/// What is told of an unknown port is its placeholder, up to the brace that closes it.
pub proof fn placeholders_are_told_whole(front: Seq<char>, inner: Seq<char>, rest: Seq<char>)
    requires
        !front.contains('{'),
        !inner.contains('}'),
    ensures
        through(inner + seq!['}'] + rest, '}') == inner + seq!['}'],
        from_first(front + "{ports."@ + rest, "{ports."@) == "{ports."@ + rest,
    decreases front.len() + inner.len(),
{
    reveal_strlit("{ports.");
    let closed = inner + seq!['}'] + rest;
    if inner.len() == 0 {
        assert(closed[0] == '}');
        assert(through(closed, '}') =~= inner + seq!['}']);
    } else {
        let shorter = inner.skip(1);
        assert(inner.contains(inner[0]));
        assert forall|i: int| 0 <= i < shorter.len() implies shorter[i] != '}' by {
            assert(inner.contains(inner[i + 1]));
        }
        placeholders_are_told_whole(front, shorter, rest);
        assert(closed.skip(1) =~= shorter + seq!['}'] + rest);
        assert(closed[0] == inner[0]);
        assert(through(closed, '}') =~= inner + seq!['}']);
    }
    let all = front + "{ports."@ + rest;
    if front.len() == 0 {
        assert(all =~= "{ports."@ + rest);
        assert("{ports."@ =~= all.take(7));
    } else {
        let shorter = front.skip(1);
        assert(front.contains(front[0]));
        assert forall|i: int| 0 <= i < shorter.len() implies shorter[i] != '{' by {
            assert(front.contains(front[i + 1]));
        }
        placeholders_are_told_whole(shorter, Seq::empty(), rest);
        assert(all.skip(1) =~= shorter + "{ports."@ + rest);
        if "{ports."@.is_prefix_of(all) {
            assert(all.take(7)[0] == '{');
        }
    }
}

} // verus!
