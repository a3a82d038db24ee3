use super::ast::{Lifetime, Span};
use super::number::{lemma_digits_end, read_digits, scan_digits};
use super::render::{
    char_of_code, chars_of, decimal, digit_char, hex_number, lifetime_letter, signed_decimal,
    span_text,
};
use vstd::prelude::*;

verus! {

/// `String::push` appends one character to the string.
pub assume_specification[ String::push ](s: &mut String, c: char)
    ensures
        final(s)@ == old(s)@.push(c),
;

/// `char::from_u32` gives the character with the code `i`, and `None` where
/// `i` is no Unicode scalar value: a surrogate, or above `0x10FFFF`.
pub assume_specification[ char::from_u32 ](i: u32) -> (c: Option<char>)
    ensures
        c == (if i <= 0xD7FF || 0xE000 <= i <= 0x10FFFF {
            Some(i as char)
        } else {
            None
        }),
;

/// Appends the text of `span` in `buf`.
pub fn push_span(repr: &mut String, buf: &[u8], span: Span)
    requires
        span.start <= span.end <= buf@.len(),
    ensures
        final(repr)@ == old(repr)@ + span_text(buf@, span),
{
    let mut i: usize = span.start;
    proof {
        assert(repr@ =~= old(repr)@ + chars_of(buf@.subrange(span.start as int, i as int)));
    }
    while i < span.end
        invariant
            span.start <= i <= span.end <= buf@.len(),
            repr@ == old(repr)@ + chars_of(buf@.subrange(span.start as int, i as int)),
        decreases span.end - i,
    {
        repr.push(buf[i] as char);
        i = i + 1;
        proof {
            assert(repr@ =~= old(repr)@ + chars_of(buf@.subrange(span.start as int, i as int)));
        }
    }
}

impl Lifetime {
    /// The letter that a lifetime is shown with, if it has one.
    pub fn fmt(&self) -> (letter: Option<char>)
        ensures
            letter == lifetime_letter(*self),
    {
        let id = self.0;
        if 1 <= id && id <= 26 {
            Some(('a' as u8 + (id - 1) as u8) as char)
        } else if 27 <= id && id <= 52 {
            Some(('A' as u8 + (id - 27) as u8) as char)
        } else {
            None
        }
    }
}

/// Whether `p` is a power of ten.
pub open spec fn is_power_of_ten(p: nat) -> bool
    decreases p,
{
    p == 1 || (p >= 10 && p % 10 == 0 && is_power_of_ten(p / 10))
}

/// Appends the decimal digits of `num`. The place of the first digit is
/// found first, so that the digits come out most significant first.
pub fn fmt_unsigned(repr: &mut String, num: usize)
    ensures
        final(repr)@ == old(repr)@ + decimal(num as nat),
{
    let mut pow: usize = 1;
    while num / pow >= 10
        invariant
            pow >= 1,
            pow == 1 || pow <= num,
            is_power_of_ten(pow as nat),
        decreases num - pow,
    {
        assert(pow * 10 <= num) by (nonlinear_arith)
            requires
                num / pow >= 10,
                pow >= 1,
        ;
        pow = pow * 10;
        assert(is_power_of_ten(pow as nat));
    }
    let first = num / pow;
    let mut rest: usize = num % pow;
    let ghost mut high: nat = first as nat;
    proof {
        assert(num == high * pow + rest && rest < pow) by (nonlinear_arith)
            requires
                high == num / pow,
                rest == num % pow,
                pow >= 1,
        ;
        if pow > 1 {
            assert(high >= 1) by (nonlinear_arith)
                requires
                    high == num / pow,
                    pow <= num,
                    pow >= 1,
            ;
        }
    }
    repr.push(('0' as u8 + first as u8) as char);
    proof {
        assert(repr@ =~= old(repr)@ + decimal(high));
    }
    while pow > 1
        invariant
            pow >= 1,
            is_power_of_ten(pow as nat),
            num == high * pow + rest,
            rest < pow,
            pow > 1 ==> high >= 1,
            repr@ == old(repr)@ + decimal(high),
        decreases pow,
    {
        let ghost was = pow;
        pow = pow / 10;
        let digit = rest / pow;
        let next = rest % pow;
        proof {
            assert(was == pow * 10);
            assert(rest == digit * pow + next && next < pow && digit < 10) by (nonlinear_arith)
                requires
                    digit == rest / pow,
                    next == rest % pow,
                    rest < pow * 10,
                    pow >= 1,
            ;
            let grown: nat = high * 10 + digit as nat;
            assert(num == grown * pow + next) by (nonlinear_arith)
                requires
                    num == high * (pow * 10) + rest,
                    rest == digit * pow + next,
                    grown == high * 10 + digit,
            ;
            assert(grown / 10 == high && grown % 10 == digit);
            assert(decimal(grown) == decimal(high).push(digit_char(digit as nat)));
            high = grown;
        }
        repr.push(('0' as u8 + digit as u8) as char);
        rest = next;
        proof {
            assert(repr@ =~= old(repr)@ + decimal(high));
        }
    }
    proof {
        assert(high == num);
    }
}

/// Appends the decimal digits of `num`, behind a `-` if it is negative.
pub fn fmt_num(repr: &mut String, num: isize)
    ensures
        final(repr)@ == old(repr)@ + signed_decimal(num as int),
{
    if num < 0 {
        repr.push('-');
        let magnitude: usize = (-(num + 1)) as usize + 1;
        fmt_unsigned(repr, magnitude);
        proof {
            assert(repr@ =~= old(repr)@ + (seq!['-'] + decimal((-num) as nat)));
        }
    } else {
        fmt_unsigned(repr, num as usize);
    }
}

/// Reads the text of `span` as a hexadecimal number.
pub fn hex_value(buf: &[u8], span: Span) -> (value: Option<usize>)
    ensures
        value == hex_number(buf@, span),
{
    if !(span.start < span.end && span.end <= buf.len()) {
        return None;
    }
    let end = scan_digits(buf, span.start, 16);
    if end < span.end {
        return None;
    }
    proof {
        lemma_digits_end(buf@, span.start as int, 16);
    }
    read_digits(buf, span.start, span.end, 16)
}

/// The character with the code `code`, if there is one.
pub fn code_to_char(code: usize) -> (c: Option<char>)
    ensures
        c == char_of_code(code),
{
    if code > 0x10FFFF {
        None
    } else {
        char::from_u32(code as u32)
    }
}

} // verus!
