//! Integers written in decimal.

use vstd::prelude::*;

use crate::text::{ascii_digit, is_ascii_digit, to_chars};

verus! {

/// The digit `d`, from `0` to `9`.
pub open spec fn digit(d: int) -> char {
    (48 + d) as char
}

/// A natural number in decimal, without leading zeros.
pub open spec fn decimal_nat(n: nat) -> Seq<char>
    decreases n,
{
    if n < 10 {
        seq![digit(n as int)]
    } else {
        decimal_nat(n / 10).push(digit((n % 10) as int))
    }
}

/// An integer in decimal, with a minus sign when it is negative.
pub open spec fn decimal(i: int) -> Seq<char> {
    if i < 0 {
        seq!['-'] + decimal_nat((-i) as nat)
    } else {
        decimal_nat(i as nat)
    }
}

/// The number that a sequence of digits stands for.
pub open spec fn digits_value(s: Seq<char>) -> nat
    decreases s.len(),
{
    if s.len() == 0 {
        0
    } else {
        digits_value(s.drop_last()) * 10 + (s.last() as int - 48) as nat
    }
}

/// Whether every character is a digit.
pub open spec fn all_digits(s: Seq<char>) -> bool {
    forall|i: int| 0 <= i < s.len() ==> is_ascii_digit(#[trigger] s[i])
}

/// What follows the sign of a number.
pub open spec fn unsigned_part(s: Seq<char>) -> Seq<char> {
    if s.len() > 0 && (s[0] == '-' || s[0] == '+') {
        s.skip(1)
    } else {
        s
    }
}

/// The integer that a text stands for, however large: an optional sign and at
/// least one digit, and nothing else.
pub open spec fn written_integer(s: Seq<char>) -> Option<int> {
    let body = unsigned_part(s);
    if body.len() > 0 && all_digits(body) {
        if s[0] == '-' {
            Some(-(digits_value(body) as int))
        } else {
            Some(digits_value(body) as int)
        }
    } else {
        None
    }
}

/// More digits never stand for a smaller number.
proof fn digits_value_grows(s: Seq<char>, n: int)
    requires
        0 <= n <= s.len(),
    ensures
        digits_value(s.take(n)) <= digits_value(s),
    decreases s.len(),
{
    if n < s.len() {
        digits_value_grows(s.drop_last(), n);
        assert(s.drop_last().take(n) =~= s.take(n));
    } else {
        assert(s.take(n) =~= s);
    }
}

/// Reads a 64-bit integer: `None` when the text is no integer, or one that does
/// not fit.
pub fn parse_i64(s: &str) -> (r: Option<i64>)
    ensures
        match r {
            Some(v) => written_integer(s@) == Some(v as int),
            None => match written_integer(s@) {
                Some(v) => v < i64::MIN || v > i64::MAX,
                None => true,
            },
        },
{
    let cs: Vec<char> = to_chars(s);
    let negative: bool = cs.len() > 0 && cs[0] == '-';
    let from: usize = if cs.len() > 0 && (cs[0] == '-' || cs[0] == '+') {
        1
    } else {
        0
    };
    let ghost body = unsigned_part(s@);
    assert(body =~= cs@.skip(from as int));
    if from == cs.len() {
        return None;
    }
    let mut i: usize = from;
    let mut value: i128 = 0;
    assert(body.take(0) =~= Seq::empty());
    let mut too_large: bool = false;
    while i < cs.len()
        invariant
            cs@ == s@,
            body == unsigned_part(s@),
            body == cs@.skip(from as int),
            from <= i <= cs@.len(),
            forall|j: int| 0 <= j < i - from ==> is_ascii_digit(#[trigger] body[j]),
            too_large ==> digits_value(body) > 0x8000_0000_0000_0000,
            !too_large ==> value == digits_value(body.take(i - from)),
            0 <= value <= 0x8000_0000_0000_0000,
        decreases cs@.len() - i,
    {
        let c = cs[i];
        assert(body[i - from] == c);
        if !ascii_digit(c) {
            return None;
        }
        if !too_large {
            let ghost before = body.take(i - from);
            let ghost now = body.take(i + 1 - from);
            assert(now.drop_last() =~= before);
            let next: i128 = value * 10 + (c as u32 as i128 - 48);
            assert(next == digits_value(now));
            if next > 0x8000_0000_0000_0000 {
                proof {
                    digits_value_grows(body, i + 1 - from);
                }
                too_large = true;
            } else {
                value = next;
            }
        }
        i += 1;
    }
    assert(body.take(body.len() as int) =~= body);
    if too_large {
        None
    } else if negative {
        Some((0 - value) as i64)
    } else if value > 0x7fff_ffff_ffff_ffff {
        None
    } else {
        Some(value as i64)
    }
}

/// Writes a natural number in decimal.
fn write_nat(n: u64, out: &mut String)
    ensures
        final(out)@ == old(out)@ + decimal_nat(n as nat),
    decreases n,
{
    if n >= 10 {
        write_nat(n / 10, out);
    }
    let d: u8 = (n % 10) as u8;
    out.push((48 + d) as char);
    assert(out@ =~= old(out)@ + decimal_nat(n as nat));
}

/// Writes an integer in decimal.
pub fn write_i64(i: i64) -> (r: String)
    ensures
        r@ == decimal(i as int),
{
    let mut r = String::new();
    if i < 0 {
        r.push('-');
        write_nat((0 - i as i128) as u64, &mut r);
    } else {
        write_nat(i as u64, &mut r);
    }
    assert(r@ =~= decimal(i as int));
    r
}

/// What is written in decimal reads back as the same number.
pub proof fn written_reads_back(i: int)
    ensures
        written_integer(decimal(i)) == Some(i),
{
    let n = if i < 0 {
        (-i) as nat
    } else {
        i as nat
    };
    written_digits_read_back(n);
    let d = decimal_nat(n);
    if i < 0 {
        assert(decimal(i).skip(1) =~= d);
    } else {
        assert(is_ascii_digit(d[0]));
    }
}

/// The digits of a number stand for it.
proof fn written_digits_read_back(n: nat)
    ensures
        decimal_nat(n).len() > 0,
        all_digits(decimal_nat(n)),
        digits_value(decimal_nat(n)) == n,
    decreases n,
{
    let d = decimal_nat(n);
    if n < 10 {
        assert(d.drop_last() =~= Seq::empty());
        assert(digits_value(d.drop_last()) == 0);
    } else {
        written_digits_read_back(n / 10);
        assert(d.drop_last() =~= decimal_nat(n / 10));
    }
}

/// The 64-bit integer that a text stands for, when it is one and fits.
pub open spec fn parsed_i64(s: Seq<char>) -> Option<i64> {
    match written_integer(s) {
        Some(v) => if i64::MIN <= v <= i64::MAX {
            Some(v as i64)
        } else {
            None
        },
        None => None,
    }
}

/// An unsigned count as a signed one of the same width: beyond the largest
/// signed number it goes on from the least.
pub open spec fn wrapped(n: u64) -> int {
    if n <= i64::MAX {
        n as int
    } else {
        n - 0x1_0000_0000_0000_0000
    }
}

/// An unsigned count as a signed one of the same width.
pub fn to_signed(n: u64) -> (r: i64)
    ensures
        r == wrapped(n),
{
    if n <= 0x7fff_ffff_ffff_ffff {
        n as i64
    } else {
        (n as i128 - 0x1_0000_0000_0000_0000) as i64
    }
}

} // verus!
