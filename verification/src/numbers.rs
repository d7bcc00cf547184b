//! Numbers in decimal and hexadecimal notation.
use vstd::prelude::*;
use crate::text::chars_of;

verus! {

/// The character of a decimal digit.
pub open spec fn digit_char(digit: nat) -> char {
    (48 + digit) as char
}

/// A number in decimal notation.
pub open spec fn decimal(number: nat) -> Seq<char>
    decreases number,
{
    if number < 10 {
        seq![digit_char(number)]
    } else {
        decimal(number / 10).push(digit_char(number % 10))
    }
}

/// A number in decimal notation.
pub fn decimal_text(number: u128) -> (text: String)
    ensures
        text@ == decimal(number as nat),
    decreases number,
{
    let mut text = if number < 10 {
        String::new()
    } else {
        decimal_text(number / 10)
    };
    let digit: u8 = (number % 10) as u8;
    text.push((48 + digit) as char);
    assert(text@ =~= decimal(number as nat));
    text
}

/// A number is written in decimal digits, without a zero in front unless it is
/// zero.
pub proof fn decimal_digits(number: nat)
    ensures
        decimal(number).len() > 0,
        forall|i: int| 0 <= i < decimal(number).len() ==> '0' <= #[trigger] decimal(number)[i] <= '9',
        decimal(number)[0] == '0' ==> number == 0 && decimal(number).len() == 1,
    decreases number,
{
    if number >= 10 {
        decimal_digits(number / 10);
        let front = decimal(number / 10);
        assert forall|i: int| 0 <= i < decimal(number).len() implies '0' <= #[trigger] decimal(number)[i] <= '9' by {
            if i < front.len() {
                assert(decimal(number)[i] == front[i]);
            }
        }
        assert(decimal(number)[0] == front[0]);
    }
}

/// A number in decimal notation, with a sign where it is negative.
pub open spec fn signed_decimal(number: int) -> Seq<char> {
    if number < 0 {
        "-"@ + decimal((-number) as nat)
    } else {
        decimal(number as nat)
    }
}

/// A number in decimal notation, with a sign where it is negative.
pub fn signed_text(number: i32) -> (text: String)
    ensures
        text@ == signed_decimal(number as int),
{
    if number < 0 {
        let positive: i64 = -(number as i64);
        crate::text::concat2("-", &decimal_text(positive as u128))
    } else {
        decimal_text(number as u128)
    }
}

/// The value of a decimal digit.
pub open spec fn digit_value(c: char) -> Option<nat> {
    if '0' <= c <= '9' {
        Some((c as nat - 48) as nat)
    } else {
        None
    }
}

/// The value of a hexadecimal digit.
pub open spec fn hex_value(c: char) -> Option<nat> {
    if '0' <= c <= '9' {
        Some((c as nat - 48) as nat)
    } else if 'a' <= c <= 'f' {
        Some((c as nat - 87) as nat)
    } else if 'A' <= c <= 'F' {
        Some((c as nat - 55) as nat)
    } else {
        None
    }
}

/// The number that digits of a base write; none where a character is no digit.
pub open spec fn digits_value(digits: Seq<char>, hexadecimal: bool) -> Option<nat>
    decreases digits.len(),
{
    if digits.len() == 0 {
        Some(0)
    } else {
        let front = digits_value(digits.drop_last(), hexadecimal);
        let last = if hexadecimal {
            hex_value(digits.last())
        } else {
            digit_value(digits.last())
        };
        if front is Some && last is Some {
            Some(front->0 * (if hexadecimal {
                16nat
            } else {
                10nat
            }) + last->0)
        } else {
            None
        }
    }
}

/// The number up to `limit` that a string writes, as the integer types of the
/// standard library read it: an optional plus sign and at least one digit.
pub open spec fn parsed_number(text: Seq<char>, hexadecimal: bool, limit: nat) -> Option<nat> {
    let digits = if text.len() > 0 && text[0] == '+' {
        text.skip(1)
    } else {
        text
    };
    if digits.len() == 0 {
        None
    } else {
        match digits_value(digits, hexadecimal) {
            Some(value) => if value <= limit {
                Some(value)
            } else {
                None
            },
            None => None,
        }
    }
}

proof fn longer_is_no_smaller(digits: Seq<char>, hexadecimal: bool, count: int, limit: nat)
    requires
        0 <= count <= digits.len(),
        match digits_value(digits.take(count), hexadecimal) {
            Some(value) => value > limit,
            None => true,
        },
    ensures
        match digits_value(digits, hexadecimal) {
            Some(value) => value > limit,
            None => true,
        },
    decreases digits.len() - count,
{
    if count < digits.len() {
        let next = digits.take(count + 1);
        assert(next.drop_last() =~= digits.take(count));
        longer_is_no_smaller(digits, hexadecimal, count + 1, limit);
    } else {
        assert(digits.take(count) =~= digits);
    }
}

/// The number up to `limit` that a string writes.
pub fn parse_number(text: &str, hexadecimal: bool, limit: u64) -> (number: Option<u64>)
    requires
        limit <= 0xffff_ffff,
    ensures
        number is Some <==> parsed_number(text@, hexadecimal, limit as nat) is Some,
        number matches Some(value) ==> parsed_number(text@, hexadecimal, limit as nat) == Some(value as nat),
{
    let chars = chars_of(text);
    let mut start: usize = 0;
    if chars.len() > 0 && chars[0] == '+' {
        start = 1;
    }
    let ghost digits = text@.skip(start as int);
    if start == 0 {
        assert(digits =~= text@);
    }
    if start == chars.len() {
        return None;
    }
    let base: u64 = if hexadecimal {
        16
    } else {
        10
    };
    let mut value: u64 = 0;
    let mut i: usize = start;
    assert(digits.take(0) =~= Seq::<char>::empty());
    while i < chars.len()
        invariant
            chars@ == text@,
            start <= i <= chars@.len(),
            digits == text@.skip(start as int),
            digits == (if text@.len() > 0 && text@[0] == '+' {
                text@.skip(1)
            } else {
                text@
            }),
            base == (if hexadecimal {
                16u64
            } else {
                10u64
            }),
            value <= limit <= 0xffff_ffff,
            digits_value(digits.take(i - start), hexadecimal) == Some(value as nat),
        ensures
            i == chars@.len(),
        decreases chars@.len() - i,
    {
        let c = chars[i];
        proof {
            assert(digits.take(i - start + 1).drop_last() =~= digits.take(i - start));
            assert(digits.take(i - start + 1).last() == c);
            assert(parsed_number(text@, hexadecimal, limit as nat) == (match digits_value(digits, hexadecimal) {
                Some(found) => if found <= limit as nat {
                    Some(found)
                } else {
                    None
                },
                None => None,
            }));
        }
        let digit: u64;
        if '0' <= c && c <= '9' {
            digit = (c as u32 - 48) as u64;
        } else if hexadecimal && 'a' <= c && c <= 'f' {
            digit = (c as u32 - 87) as u64;
        } else if hexadecimal && 'A' <= c && c <= 'F' {
            digit = (c as u32 - 55) as u64;
        } else {
            proof {
                longer_is_no_smaller(digits, hexadecimal, i - start + 1, limit as nat);
            }
            return None;
        }
        assert(value * base <= 0xffff_ffff * 16) by (nonlinear_arith)
            requires
                value <= 0xffff_ffff,
                base <= 16,
        ;
        value = value * base + digit;
        if value > limit {
            proof {
                longer_is_no_smaller(digits, hexadecimal, i - start + 1, limit as nat);
            }
            return None;
        }
        i += 1;
    }
    assert(digits.take(digits.len() as int) =~= digits);
    Some(value)
}

/// The 16-bit number that a string writes in decimal notation.
pub fn parse_u16(text: &str) -> (number: Option<u16>)
    ensures
        number is Some <==> parsed_number(text@, false, 0xffff) is Some,
        number matches Some(value) ==> parsed_number(text@, false, 0xffff) == Some(value as nat),
{
    match parse_number(text, false, 0xffff) {
        Some(value) => Some(value as u16),
        None => None,
    }
}

/// The 32-bit number that a string writes in decimal notation.
pub fn parse_u32(text: &str) -> (number: Option<u32>)
    ensures
        number is Some <==> parsed_number(text@, false, 0xffff_ffff) is Some,
        number matches Some(value) ==> parsed_number(text@, false, 0xffff_ffff) == Some(value as nat),
{
    match parse_number(text, false, 0xffff_ffff) {
        Some(value) => Some(value as u32),
        None => None,
    }
}

/// A number that was written in decimal notation is read back.
pub proof fn decimals_are_read_back(number: nat)
    ensures
        digits_value(decimal(number), false) == Some(number),
    decreases number,
{
    if number < 10 {
        assert(decimal(number).drop_last() =~= Seq::<char>::empty());
        assert(decimal(number).last() == digit_char(number));
        assert(digits_value(Seq::<char>::empty(), false) == Some(0nat));
        assert(digit_value(digit_char(number)) == Some(number));
    } else {
        decimals_are_read_back(number / 10);
        assert(decimal(number).drop_last() =~= decimal(number / 10));
        assert(decimal(number).last() == digit_char(number % 10));
        assert(digit_value(digit_char(number % 10)) == Some(number % 10));
    }
}

/// Digits write a number, and nothing else does.
pub proof fn only_digits_are_numbers(digits: Seq<char>)
    ensures
        digits_value(digits, false) is Some <==> forall|i: int| 0 <= i < digits.len() ==> '0' <= #[trigger] digits[i] <= '9',
        digits_value(digits, true) is Some <==> forall|i: int|
            0 <= i < digits.len() ==> '0' <= #[trigger] digits[i] <= '9' || 'a' <= digits[i] <= 'f' || 'A' <= digits[i] <= 'F',
    decreases digits.len(),
{
    if digits.len() > 0 {
        let front = digits.drop_last();
        let end = digits.len() - 1;
        only_digits_are_numbers(front);
        assert(digits[end] == digits.last());
        assert(forall|i: int| 0 <= i < front.len() ==> #[trigger] front[i] == digits[i]);
        if digits_value(front, false) is Some {
            assert forall|i: int| 0 <= i < front.len() implies '0' <= #[trigger] digits[i] <= '9' by {
                assert(front[i] == digits[i]);
            }
        } else {
            let i = choose|i: int| 0 <= i < front.len() && !('0' <= #[trigger] front[i] <= '9');
            assert(!('0' <= digits[i] <= '9'));
        }
        if digits_value(front, true) is Some {
            assert forall|i: int| 0 <= i < front.len() implies '0' <= #[trigger] digits[i] <= '9' || 'a' <= digits[i]
                <= 'f' || 'A' <= digits[i] <= 'F' by {
                assert(front[i] == digits[i]);
            }
        } else {
            let i = choose|i: int|
                0 <= i < front.len() && !('0' <= #[trigger] front[i] <= '9' || 'a' <= front[i] <= 'f' || 'A' <= front[i]
                    <= 'F');
            assert(!('0' <= digits[i] <= '9' || 'a' <= digits[i] <= 'f' || 'A' <= digits[i] <= 'F'));
        }
    }
}

/// A number in decimal notation is read where it is within the limit, with or
/// without a plus sign, and not beyond it.
pub proof fn limits_are_kept(number: nat, limit: nat)
    ensures
        parsed_number(decimal(number), false, limit) == (if number <= limit {
            Some(number)
        } else {
            None
        }),
        parsed_number("+"@ + decimal(number), false, limit) == parsed_number(decimal(number), false, limit),
{
    reveal_strlit("+");
    let digits = decimal(number);
    decimals_are_read_back(number);
    decimal_digits(number);
    only_digits_are_numbers(digits);
    assert(digits.len() > 0);
    assert('0' <= digits[0] <= '9');
    assert(("+"@ + digits).skip(1) =~= digits);
}

/// A number that is not negative is written as it is, and a negative one with a minus
/// sign in front of what is left without it.
pub proof fn signs_are_written(number: nat)
    ensures
        signed_decimal(number as int) == decimal(number),
        number > 0 ==> signed_decimal(-(number as int)) == "-"@ + decimal(number),
{
}

/// A digit counts by its place: one more behind a number makes it ten times as much
/// and the digit, in hexadecimal notation sixteen times.
pub proof fn digits_count_by_their_place(front: Seq<char>, digit: nat)
    requires
        digits_value(front, false) is Some,
        digit < 10,
    ensures
        digits_value(front.push((48 + digit) as char), false) == Some(digits_value(front, false)->0 * 10 + digit),
        digits_value(front.push((48 + digit) as char), true) == Some(digits_value(front, true)->0 * 16 + digit),
        digit < 6 ==> digits_value(front.push((97 + digit) as char), true) == Some(
            digits_value(front, true)->0 * 16 + 10 + digit,
        ) && digits_value(front.push((65 + digit) as char), true) == Some(digits_value(front, true)->0 * 16 + 10 + digit),
        digits_value(Seq::empty(), true) == Some(0nat),
{
    only_digits_are_numbers(front);
    let one = front.push((48 + digit) as char);
    let low = front.push((97 + digit) as char);
    let high = front.push((65 + digit) as char);
    assert(one.drop_last() =~= front && one.last() == (48 + digit) as char);
    assert(low.drop_last() =~= front && low.last() == (97 + digit) as char);
    assert(high.drop_last() =~= front && high.last() == (65 + digit) as char);
}

} // verus!
