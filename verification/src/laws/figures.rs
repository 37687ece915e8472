//! Laws on numbers.

use vstd::prelude::*;

use crate::ieee::{less, less_double, no_less_than, total_rank};
use crate::numbers::{
    decimal, decimal_nat, digits_value, parsed_i64, wrapped, written_integer, written_reads_back,
};

verus! {

/// How the numbers behind the bits compare: two that are not negative as their
/// bits do, two negative ones the other way round, a negative one below one that
/// is not, unless both are zero, and what is no number not at all.
pub proof fn bits_compare_as_numbers(a: u32, b: u32)
    ensures
        a <= 0x7f80_0000 && b <= 0x7f80_0000 ==> (less(a, b) <==> a < b),
        0x8000_0000 <= a <= 0xff80_0000 && 0x8000_0000 <= b <= 0xff80_0000 ==> (less(a, b) <==> a
            > b),
        0x8000_0000 <= a <= 0xff80_0000 && b <= 0x7f80_0000 ==> (less(a, b) <==> !(a == 0x8000_0000
            && b == 0)),
        a <= 0x7f80_0000 && 0x8000_0000 <= b <= 0xff80_0000 ==> !less(a, b),
        0x7f80_0000 < a < 0x8000_0000 || a > 0xff80_0000 ==> !less(a, b) && !less(b, a),
{
}

/// The same in double precision.
pub proof fn double_bits_compare_as_numbers(a: u64, b: u64)
    ensures
        a <= 0x7ff0_0000_0000_0000 && b <= 0x7ff0_0000_0000_0000 ==> (less_double(a, b) <==> a < b),
        0x8000_0000_0000_0000 <= a <= 0xfff0_0000_0000_0000 && 0x8000_0000_0000_0000 <= b
            <= 0xfff0_0000_0000_0000 ==> (less_double(a, b) <==> a > b),
        0x8000_0000_0000_0000 <= a <= 0xfff0_0000_0000_0000 && b <= 0x7ff0_0000_0000_0000 ==> (
        less_double(a, b) <==> !(a == 0x8000_0000_0000_0000 && b == 0)),
        a <= 0x7ff0_0000_0000_0000 && 0x8000_0000_0000_0000 <= b <= 0xfff0_0000_0000_0000
            ==> !less_double(a, b),
        0x7ff0_0000_0000_0000 < a < 0x8000_0000_0000_0000 || a > 0xfff0_0000_0000_0000
            ==> !less_double(a, b) && !less_double(b, a),
{
}

/// The total order of encodings: as the bits without the sign, the other way
/// round with it, and with the sign before without.
pub proof fn encodings_are_ordered(a: u32, b: u32)
    ensures
        a < 0x8000_0000 && b < 0x8000_0000 ==> (total_rank(a) < total_rank(b) <==> a < b),
        a >= 0x8000_0000 && b >= 0x8000_0000 ==> (total_rank(a) < total_rank(b) <==> a > b),
        a >= 0x8000_0000 && b < 0x8000_0000 ==> total_rank(a) < total_rank(b),
{
}

/// A number that is raised to a floor is the number when that is above the
/// floor, and the floor otherwise.
pub proof fn raised_to_the_floor(b: u64, floor: u64)
    ensures
        less_double(floor, b) ==> no_less_than(b, floor) == b,
        !less_double(floor, b) ==> no_less_than(b, floor) == floor,
{
}

/// Whether a text is one digit after the other, and at least one.
pub open spec fn is_digits(s: Seq<char>) -> bool {
    s.len() > 0 && forall|i: int|
        0 <= i < s.len() ==> '0' as int <= (#[trigger] s[i]) as int <= '9' as int
}

/// Digits stand for a number, each further one for ten times as much and itself.
/// A sign may stand before them, and a minus makes the number negative.
pub proof fn digits_are_read_with_a_sign(s: Seq<char>, c: char)
    ensures
        digits_value(Seq::empty()) == 0,
        digits_value(s.push(c)) == 10 * digits_value(s) + (c as int - 48) as nat,
        is_digits(s) ==> written_integer(s) == Some(digits_value(s) as int),
        is_digits(s) ==> written_integer(seq!['+'] + s) == Some(digits_value(s) as int),
        is_digits(s) ==> written_integer(seq!['-'] + s) == Some(-(digits_value(s) as int)),
        written_integer(s) is Some ==> is_digits(s) || (s.len() > 1 && (s[0] == '+' || s[0] == '-')
            && is_digits(s.skip(1))),
{
    assert(s.push(c).drop_last() =~= s);
    assert((seq!['+'] + s).skip(1) =~= s);
    assert((seq!['-'] + s).skip(1) =~= s);
    assert((seq!['+'] + s)[0] == '+' && (seq!['-'] + s)[0] == '-');
    if is_digits(s) {
        assert('0' as int <= s[0] as int <= '9' as int);
    }
}

/// A number is read exactly when it fits into 64 bits with a sign.
pub proof fn numbers_that_fit_are_read(s: Seq<char>, v: i64)
    ensures
        parsed_i64(s) == Some(v) <==> written_integer(s) == Some(v as int),
        parsed_i64(s) is None <==> match written_integer(s) {
            Some(n) => n < -0x8000_0000_0000_0000 || n > 0x7fff_ffff_ffff_ffff,
            None => true,
        },
{
}

/// A number is written without leading zeros, with a minus exactly when it is
/// negative, and reads back.
pub proof fn numbers_are_written_plainly(i: int)
    ensures
        written_integer(decimal(i)) == Some(i),
        i < 0 ==> decimal(i)[0] == '-' && decimal(i).skip(1) == decimal(-i),
        i > 0 ==> '1' as int <= decimal(i)[0] as int <= '9' as int,
        i == 0 ==> decimal(i) == seq!['0'],
{
    written_reads_back(i);
    if i > 0 {
        no_leading_zero(i as nat);
    } else if i < 0 {
        assert(decimal(i).skip(1) =~= decimal(-i));
    }
}

/// The first digit of a number that is not zero is not zero.
proof fn no_leading_zero(n: nat)
    requires
        n > 0,
    ensures
        decimal_nat(n).len() > 0,
        '1' as int <= decimal_nat(n)[0] as int <= '9' as int,
    decreases n,
{
    if n >= 10 {
        no_leading_zero(n / 10);
        assert(decimal_nat(n)[0] == decimal_nat(n / 10)[0]);
    }
}

/// A count that is taken as signed differs from it by all the 64-bit numbers or
/// not at all, and fits.
pub proof fn signed_counts_fit(n: u64)
    ensures
        wrapped(n) == n || wrapped(n) == n - 0x1_0000_0000_0000_0000,
        -0x8000_0000_0000_0000 <= wrapped(n) <= 0x7fff_ffff_ffff_ffff,
{
}

} // verus!
