//! Numbers as they are written.
use crate::text;
use vstd::prelude::*;

verus! {

/// A digit.
pub open spec fn is_digit(c: char) -> bool {
    '0' <= c && c <= '9'
}

/// The value of a row of digits.
pub open spec fn value_of(digits: Seq<char>) -> int
    decreases digits.len(),
{
    if digits.len() == 0 {
        0
    } else {
        10 * value_of(digits.drop_last()) + (digits.last() as u32 - 48)
    }
}

/// The digits of a number as it may be typed: a plus may stand before them.
pub open spec fn digits_in(text: Seq<char>) -> Seq<char> {
    if text.len() > 0 && text[0] == '+' {
        text.skip(1)
    } else {
        text
    }
}

/// The number that a text is, up to a limit.
pub open spec fn number_in(text: Seq<char>, limit: int) -> Option<int> {
    let digits = digits_in(text);
    if digits.len() > 0 && (forall|i: int| 0 <= i < digits.len() ==> is_digit(#[trigger] digits[i]))
        && value_of(digits) <= limit {
        Some(value_of(digits))
    } else {
        None
    }
}

proof fn value_grows(digits: Seq<char>, n: int)
    requires
        0 <= n <= digits.len(),
        forall|i: int| 0 <= i < digits.len() ==> is_digit(#[trigger] digits[i]),
    ensures
        0 <= value_of(digits.take(n)) <= value_of(digits),
    decreases digits.len(),
{
    if n == digits.len() {
        assert(digits.take(n) =~= digits);
        if digits.len() > 0 {
            let less = digits.drop_last();
            assert forall|i: int| 0 <= i < less.len() implies is_digit(#[trigger] less[i]) by {
                assert(digits[i] == less[i]);
            }
            value_grows(less, less.len() as int);
            assert(less.take(less.len() as int) =~= less);
            assert(is_digit(digits[digits.len() - 1]));
        }
    } else {
        let less = digits.drop_last();
        assert forall|i: int| 0 <= i < less.len() implies is_digit(#[trigger] less[i]) by {
            assert(digits[i] == less[i]);
        }
        value_grows(less, n);
        assert(less.take(n) =~= digits.take(n));
        assert(is_digit(digits[digits.len() - 1]));
    }
}

/// A number that is read is within its limit.
pub proof fn number_is_within(text: Seq<char>, limit: int)
    ensures
        match number_in(text, limit) {
            Some(number) => 0 <= number <= limit,
            None => true,
        },
{
    let digits = digits_in(text);
    if number_in(text, limit) is Some {
        value_grows(digits, digits.len() as int);
        assert(digits.take(digits.len() as int) =~= digits);
    }
}

/// Reads a number up to a limit.
pub fn read_number(source: &str, limit: usize) -> (out: Option<usize>)
    ensures
        match out {
            Some(number) => number_in(source@, limit as int) == Some(number as int),
            None => number_in(source@, limit as int) is None,
        },
{
    let chars = text::chars_of(source);
    let start: usize = if chars.len() > 0 && chars[0] == '+' {
        1
    } else {
        0
    };
    let ghost digits = digits_in(source@);
    assert(digits =~= chars@.skip(start as int));
    if chars.len() == start {
        return None;
    }
    let mut value: usize = 0;
    let mut over: bool = false;
    let mut at: usize = start;
    assert(digits.take(0) =~= Seq::empty());
    while at < chars.len()
        invariant
            start <= at <= chars@.len(),
            digits == digits_in(source@),
            digits == chars@.skip(start as int),
            forall|i: int| 0 <= i < at - start ==> is_digit(#[trigger] digits[i]),
            over ==> value_of(digits.take(at - start)) > limit,
            !over ==> value == value_of(digits.take(at - start)) && value <= limit,
        decreases chars@.len() - at,
    {
        let c = chars[at];
        assert(digits[at - start] == c);
        if !('0' <= c && c <= '9') {
            assert(!is_digit(digits[at - start]));
            return None;
        }
        let digit: usize = (c as u32 - 48) as usize;
        proof {
            let part = digits.take(at - start + 1);
            assert(part.drop_last() =~= digits.take(at - start));
            assert(part.last() == c);
            assert forall|i: int| 0 <= i < part.len() implies is_digit(#[trigger] part[i]) by {
                assert(digits[i] == part[i]);
            }
            value_grows(part, at - start);
            assert(part.take(at - start) =~= digits.take(at - start));
        }
        if !over {
            if value > limit / 10 || value * 10 > limit - digit.min(limit) || digit > limit {
                over = true;
            } else {
                value = value * 10 + digit;
            }
        }
        at += 1;
    }
    assert(digits.take(digits.len() as int) =~= digits);
    if over {
        None
    } else {
        Some(value)
    }
}

pub proof fn decimal_is_digits(number: nat)
    ensures
        text::decimal(number).len() > 0,
        forall|i: int|
            0 <= i < text::decimal(number).len() ==> is_digit(
                #[trigger] text::decimal(number)[i],
            ),
        value_of(text::decimal(number)) == number,
    decreases number,
{
    let digits = text::decimal(number);
    if number < 10 {
        assert(digits.drop_last() =~= Seq::empty());
        reveal_with_fuel(value_of, 2);
    } else {
        decimal_is_digits(number / 10);
        assert(digits.drop_last() =~= text::decimal(number / 10));
        assert forall|i: int| 0 <= i < digits.len() implies is_digit(#[trigger] digits[i]) by {
            if i < digits.len() - 1 {
                assert(digits[i] == text::decimal(number / 10)[i]);
            }
        }
    }
}

/// A number that is written reads back.
pub proof fn a_number_reads_back(number: nat, limit: int)
    requires
        number <= limit,
    ensures
        number_in(text::decimal(number), limit) == Some(number as int),
{
    decimal_is_digits(number);
    assert(is_digit(text::decimal(number)[0]));
    assert(digits_in(text::decimal(number)) == text::decimal(number));
}

/// The number that a text is, a sign before it, as an `i32` is read.
pub open spec fn signed_in(text: Seq<char>) -> Option<int> {
    if text.len() > 0 && text[0] == '-' {
        if text.len() > 1 && text[1] == '+' {
            None
        } else {
            match number_in(text.skip(1), 0x8000_0000) {
                Some(number) => Some(-number),
                None => None,
            }
        }
    } else {
        number_in(text, 0x7fff_ffff)
    }
}

/// [`signed_in`], of a string.
pub fn read_signed(source: &str) -> (out: Option<i32>)
    ensures
        match out {
            Some(number) => signed_in(source@) == Some(number as int),
            None => signed_in(source@) is None,
        },
{
    let chars = text::chars_of(source);
    if chars.len() > 0 && chars[0] == '-' {
        if chars.len() > 1 && chars[1] == '+' {
            return None;
        }
        let rest = text::string_range(&chars, 1, chars.len());
        proof {
            assert(rest@ =~= source@.skip(1));
            number_is_within(rest@, 0x8000_0000);
        }
        match read_number(rest.as_str(), 0x8000_0000) {
            Some(number) => Some((0i64 - number as i64) as i32),
            None => None,
        }
    } else {
        proof {
            number_is_within(source@, 0x7fff_ffff);
        }
        match read_number(source, 0x7fff_ffff) {
            Some(number) => Some(number as i32),
            None => None,
        }
    }
}

/// A number in decimal, with a minus before it where it is below nought.
pub open spec fn signed(number: int) -> Seq<char> {
    if number < 0 {
        seq!['-'] + text::decimal((-number) as nat)
    } else {
        text::decimal(number as nat)
    }
}

/// Appends a number in decimal.
pub fn push_signed(out: &mut String, number: i32)
    ensures
        final(out)@ == old(out)@ + signed(number as int),
{
    if number < 0 {
        out.push('-');
        text::push_decimal(out, (0i64 - number as i64) as u64);
        assert(out@ =~= old(out)@ + signed(number as int));
    } else {
        text::push_decimal(out, number as u64);
    }
}

/// A number that is written with its sign reads back.
pub proof fn a_signed_number_reads_back(number: int)
    requires
        -0x8000_0000 <= number <= 0x7fff_ffff,
    ensures
        signed_in(signed(number)) == Some(number),
        forall|i: int|
            0 <= i < signed(number).len() ==> is_digit(#[trigger] signed(number)[i]) || signed(
                number,
            )[i] == '-',
{
    if number < 0 {
        let digits = text::decimal((-number) as nat);
        a_number_reads_back((-number) as nat, 0x8000_0000);
        decimal_is_digits((-number) as nat);
        let whole = signed(number);
        assert(whole.skip(1) =~= digits);
        assert(whole[1] == digits[0]);
        assert forall|i: int| 0 <= i < whole.len() implies is_digit(#[trigger] whole[i])
            || whole[i] == '-' by {
            if i > 0 {
                assert(whole[i] == digits[i - 1]);
            }
        }
    } else {
        a_number_reads_back(number as nat, 0x7fff_ffff);
        decimal_is_digits(number as nat);
        assert(is_digit(text::decimal(number as nat)[0]));
    }
}

} // verus!
