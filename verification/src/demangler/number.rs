use vstd::prelude::*;

verus! {

/// The value of the byte `b` as a digit of `radix`: `0`-`9`, then the
/// letters from 10 on. Base 62 tells the cases apart (`a` is 10 and `A` is
/// 36); the smaller radixes read both cases alike.
pub open spec fn digit_value(b: u8, radix: nat) -> Option<nat> {
    let v: nat = if b >= '0' as u8 && b <= '9' as u8 {
        (b - '0' as u8) as nat
    } else if b >= 'a' as u8 && b <= 'z' as u8 {
        (b - 'a' as u8 + 10) as nat
    } else if b >= 'A' as u8 && b <= 'Z' as u8 {
        if radix == 62 {
            (b - 'A' as u8 + 36) as nat
        } else {
            (b - 'A' as u8 + 10) as nat
        }
    } else {
        radix
    };
    if v < radix {
        Some(v)
    } else {
        None
    }
}

/// Where the run of `radix` digits that starts at `from` ends: the first
/// position at or after `from` that holds no digit, or the end of `s`.
pub open spec fn digits_end(s: Seq<u8>, from: int, radix: nat) -> int
    decreases s.len() - from,
{
    if 0 <= from < s.len() && digit_value(s[from], radix).is_some() {
        digits_end(s, from + 1, radix)
    } else {
        from
    }
}

/// The number that the digits `s[from..to)` write in `radix`, most
/// significant digit first, without any bound. A byte that is no digit
/// counts as 0.
pub open spec fn digits_value(s: Seq<u8>, from: int, to: int, radix: nat) -> nat
    decreases to - from,
{
    if to <= from {
        0
    } else {
        digits_value(s, from, to - 1, radix) * radix + match digit_value(s[to - 1], radix) {
            Some(d) => d,
            None => 0,
        }
    }
}

/// A run of digits lies inside the text, holds digits only, and stops at the
/// end of the text or before a byte that is no digit.
pub proof fn lemma_digits_end(s: Seq<u8>, from: int, radix: nat)
    requires
        0 <= from <= s.len(),
    ensures
        from <= digits_end(s, from, radix) <= s.len(),
        forall|j: int|
            from <= j < digits_end(s, from, radix) ==> (#[trigger] digit_value(
                s[j],
                radix,
            )).is_some(),
        digits_end(s, from, radix) < s.len() ==> digit_value(
            s[digits_end(s, from, radix)],
            radix,
        ).is_none(),
    decreases s.len() - from,
{
    if from < s.len() && digit_value(s[from], radix).is_some() {
        lemma_digits_end(s, from + 1, radix);
    }
}

/// Reading more digits never gives a smaller number.
pub proof fn lemma_digits_value_grows(s: Seq<u8>, from: int, mid: int, to: int, radix: nat)
    requires
        radix >= 1,
        mid <= to,
    ensures
        digits_value(s, from, mid, radix) <= digits_value(s, from, to, radix),
    decreases to - mid,
{
    if mid < to {
        lemma_digits_value_grows(s, from, mid, to - 1, radix);
        if to > from {
            let high = digits_value(s, from, to - 1, radix);
            assert(high <= high * radix) by (nonlinear_arith)
                requires
                    radix >= 1,
            ;
        }
    }
}

/// The digit that `b` is in `radix`, if it is one.
pub fn digit_of(b: u8, radix: usize) -> (digit: Option<usize>)
    ensures
        match digit {
            Some(d) => digit_value(b, radix as nat) == Some(d as nat),
            None => digit_value(b, radix as nat).is_none(),
        },
{
    let v: usize = if b >= '0' as u8 && b <= '9' as u8 {
        (b - '0' as u8) as usize
    } else if b >= 'a' as u8 && b <= 'z' as u8 {
        (b - 'a' as u8) as usize + 10
    } else if b >= 'A' as u8 && b <= 'Z' as u8 {
        if radix == 62 {
            (b - 'A' as u8) as usize + 36
        } else {
            (b - 'A' as u8) as usize + 10
        }
    } else {
        radix
    };
    if v < radix {
        Some(v)
    } else {
        None
    }
}

/// Finds the end of the run of `radix` digits that starts at `from`.
pub fn scan_digits(buf: &[u8], from: usize, radix: usize) -> (end: usize)
    ensures
        end == digits_end(buf@, from as int, radix as nat),
        from <= end,
        from <= buf@.len() ==> end <= buf@.len(),
{
    if from > buf.len() {
        return from;
    }
    let mut end: usize = from;
    while end < buf.len() && digit_of(buf[end], radix).is_some()
        invariant
            from <= end <= buf@.len(),
            digits_end(buf@, from as int, radix as nat) == digits_end(
                buf@,
                end as int,
                radix as nat,
            ),
        decreases buf@.len() - end,
    {
        end = end + 1;
    }
    end
}

/// The first position at or after `from` that holds `byte`; the length of
/// `s` or more if there is none.
pub open spec fn first_index(s: Seq<u8>, from: int, byte: u8) -> int
    decreases s.len() - from,
{
    if 0 <= from < s.len() && s[from] != byte {
        first_index(s, from + 1, byte)
    } else {
        from
    }
}

/// Finds the first position at or after `from` that holds `byte`.
pub fn find_byte(buf: &[u8], from: usize, byte: u8) -> (idx: usize)
    ensures
        idx == first_index(buf@, from as int, byte),
        from <= idx,
        from <= buf@.len() ==> idx <= buf@.len(),
        idx < buf@.len() ==> buf@[idx as int] == byte,
{
    if from > buf.len() {
        return from;
    }
    let mut idx: usize = from;
    while idx < buf.len() && buf[idx] != byte
        invariant
            from <= idx <= buf@.len(),
            first_index(buf@, from as int, byte) == first_index(buf@, idx as int, byte),
        decreases buf@.len() - idx,
    {
        idx = idx + 1;
    }
    idx
}

/// Reads the digits `buf[from..to)` as one number; `None` says that the
/// number does not fit a machine word. A byte that is no digit counts as 0.
pub fn read_digits(buf: &[u8], from: usize, to: usize, radix: usize) -> (value: Option<usize>)
    requires
        from <= to <= buf@.len(),
        radix >= 1,
    ensures
        match value {
            Some(v) => v == digits_value(buf@, from as int, to as int, radix as nat),
            None => digits_value(buf@, from as int, to as int, radix as nat) > usize::MAX,
        },
{
    let mut acc: usize = 0;
    let mut at: usize = from;
    while at < to
        invariant
            from <= at <= to <= buf@.len(),
            radix >= 1,
            acc == digits_value(buf@, from as int, at as int, radix as nat),
        decreases to - at,
    {
        let digit = digit_of(buf[at], radix);
        let d: usize = match digit {
            Some(d) => d,
            None => 0,
        };
        let ghost next = digits_value(buf@, from as int, at + 1, radix as nat);
        assert(next == acc * radix + d);
        if acc > (usize::MAX - d) / radix {
            proof {
                assert(acc * radix + d > usize::MAX) by (nonlinear_arith)
                    requires
                        acc > (usize::MAX - d) / (radix as int),
                        radix >= 1,
                        0 <= d <= usize::MAX,
                ;
                lemma_digits_value_grows(buf@, from as int, at + 1, to as int, radix as nat);
            }
            return None;
        }
        assert(acc * radix + d <= usize::MAX) by (nonlinear_arith)
            requires
                acc <= (usize::MAX - d) / (radix as int),
                radix >= 1,
                0 <= d <= usize::MAX,
        ;
        acc = acc * radix + d;
        at = at + 1;
    }
    Some(acc)
}

} // verus!
