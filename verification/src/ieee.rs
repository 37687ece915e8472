//! Samples and features are floating-point numbers. What the library decides
//! about them is how they compare, and that can be told from the bits of their
//! IEEE 754 encoding: a sign bit above a magnitude.

use vstd::prelude::*;

verus! {

// ---------------------------------------------------------------------------
// Single precision
// ---------------------------------------------------------------------------

/// The largest finite number.
pub const LARGEST: u32 = 0x7f7f_ffff;

/// The least finite number.
pub const LEAST: u32 = 0xff7f_ffff;

/// Zero.
pub const ZERO: u32 = 0;

/// Whether the bits encode no number.
pub open spec fn is_nan(b: u32) -> bool {
    0x7f80_0000 < b % 0x8000_0000
}

/// An integer that grows with the number; the two zeros have the same one.
pub open spec fn value_rank(b: u32) -> int {
    if b < 0x8000_0000 {
        b as int
    } else {
        0x8000_0000 - b
    }
}

/// Whether the number `a` is less than the number `b`.
pub open spec fn less(a: u32, b: u32) -> bool {
    !is_nan(a) && !is_nan(b) && value_rank(a) < value_rank(b)
}

/// An integer that grows along the total order of all encodings, in which every
/// negative one comes before every positive one and nothing is equal to
/// anything else.
pub open spec fn total_rank(b: u32) -> int {
    if b < 0x8000_0000 {
        b as int
    } else {
        0x7fff_ffff - b
    }
}

/// Whether the number `a` is less than the number `b`.
pub fn is_less(a: u32, b: u32) -> (r: bool)
    ensures
        r == less(a, b),
{
    let x: i64 = if a < 0x8000_0000 {
        a as i64
    } else {
        0x8000_0000 - a as i64
    };
    let y: i64 = if b < 0x8000_0000 {
        b as i64
    } else {
        0x8000_0000 - b as i64
    };
    a % 0x8000_0000 <= 0x7f80_0000 && b % 0x8000_0000 <= 0x7f80_0000 && x < y
}

/// The place of an encoding in the total order.
pub fn rank(b: u32) -> (r: i64)
    ensures
        r == total_rank(b),
{
    if b < 0x8000_0000 {
        b as i64
    } else {
        0x7fff_ffff - b as i64
    }
}

/// The lesser of two numbers; the first, when neither is.
pub open spec fn lesser(a: u32, b: u32) -> u32 {
    if less(b, a) {
        b
    } else {
        a
    }
}

/// The greater of two numbers; the first, when neither is.
pub open spec fn greater(a: u32, b: u32) -> u32 {
    if less(a, b) {
        b
    } else {
        a
    }
}

/// The least of the numbers from `start` on, in order. What is no number does
/// not count.
pub open spec fn least_of(start: u32, samples: Seq<u32>) -> u32
    decreases samples.len(),
{
    if samples.len() == 0 {
        start
    } else {
        lesser(least_of(start, samples.drop_last()), samples.last())
    }
}

/// The greatest of the numbers from `start` on, in order. What is no number
/// does not count.
pub open spec fn greatest_of(start: u32, samples: Seq<u32>) -> u32
    decreases samples.len(),
{
    if samples.len() == 0 {
        start
    } else {
        greater(greatest_of(start, samples.drop_last()), samples.last())
    }
}

/// The least and the greatest number of `samples[from..to]`, starting from
/// `low` and `high`.
pub fn extremes(samples: &Vec<u32>, from: usize, to: usize, low: u32, high: u32) -> (r: (u32, u32))
    requires
        from <= to <= samples@.len(),
    ensures
        r.0 == least_of(low, samples@.subrange(from as int, to as int)),
        r.1 == greatest_of(high, samples@.subrange(from as int, to as int)),
{
    let mut least: u32 = low;
    let mut greatest: u32 = high;
    let mut i: usize = from;
    while i < to
        invariant
            from <= i <= to <= samples@.len(),
            least == least_of(low, samples@.subrange(from as int, i as int)),
            greatest == greatest_of(high, samples@.subrange(from as int, i as int)),
        decreases to - i,
    {
        let s: u32 = samples[i];
        let ghost now = samples@.subrange(from as int, i + 1);
        assert(now.drop_last() =~= samples@.subrange(from as int, i as int));
        assert(now.last() == s);
        if is_less(s, least) {
            least = s;
        }
        if is_less(greatest, s) {
            greatest = s;
        }
        i += 1;
    }
    (least, greatest)
}

/// Neither the start nor any sample is less than the least number, and it is
/// one of the samples or the start.
pub proof fn least_is_least(start: u32, samples: Seq<u32>)
    requires
        !is_nan(start),
    ensures
        !is_nan(least_of(start, samples)),
        !less(start, least_of(start, samples)),
        forall|i: int| 0 <= i < samples.len() ==> !less(#[trigger] samples[i], least_of(start, samples)),
        least_of(start, samples) == start || samples.contains(least_of(start, samples)),
    decreases samples.len(),
{
    if samples.len() > 0 {
        let rest = samples.drop_last();
        least_is_least(start, rest);
        assert forall|i: int| 0 <= i < samples.len() implies !less(
            #[trigger] samples[i],
            least_of(start, samples),
        ) by {
            if i < rest.len() {
                assert(rest[i] == samples[i]);
            }
        }
        if rest.contains(least_of(start, rest)) {
            let k = rest.index_of(least_of(start, rest));
            assert(samples[k] == least_of(start, rest));
        }
        assert(samples[samples.len() - 1] == samples.last());
    }
}

/// The greatest number is less than neither the start nor any sample, and it is
/// one of the samples or the start.
pub proof fn greatest_is_greatest(start: u32, samples: Seq<u32>)
    requires
        !is_nan(start),
    ensures
        !is_nan(greatest_of(start, samples)),
        !less(greatest_of(start, samples), start),
        forall|i: int|
            0 <= i < samples.len() ==> !less(greatest_of(start, samples), #[trigger] samples[i]),
        greatest_of(start, samples) == start || samples.contains(greatest_of(start, samples)),
    decreases samples.len(),
{
    if samples.len() > 0 {
        let rest = samples.drop_last();
        greatest_is_greatest(start, rest);
        assert forall|i: int| 0 <= i < samples.len() implies !less(
            greatest_of(start, samples),
            #[trigger] samples[i],
        ) by {
            if i < rest.len() {
                assert(rest[i] == samples[i]);
            }
        }
        if rest.contains(greatest_of(start, rest)) {
            let k = rest.index_of(greatest_of(start, rest));
            assert(samples[k] == greatest_of(start, rest));
        }
        assert(samples[samples.len() - 1] == samples.last());
    }
}

// ---------------------------------------------------------------------------
// Double precision
// ---------------------------------------------------------------------------

/// Whether the bits encode no number.
pub open spec fn is_nan_double(b: u64) -> bool {
    0x7ff0_0000_0000_0000 < b % 0x8000_0000_0000_0000
}

/// An integer that grows with the number; the two zeros have the same one.
pub open spec fn double_rank(b: u64) -> int {
    if b < 0x8000_0000_0000_0000 {
        b as int
    } else {
        0x8000_0000_0000_0000 - b
    }
}

/// Whether the number `a` is less than the number `b`.
pub open spec fn less_double(a: u64, b: u64) -> bool {
    !is_nan_double(a) && !is_nan_double(b) && double_rank(a) < double_rank(b)
}

/// Whether the number `a` is less than the number `b`.
pub fn is_less_double(a: u64, b: u64) -> (r: bool)
    ensures
        r == less_double(a, b),
{
    let x: i128 = if a < 0x8000_0000_0000_0000 {
        a as i128
    } else {
        0x8000_0000_0000_0000 - a as i128
    };
    let y: i128 = if b < 0x8000_0000_0000_0000 {
        b as i128
    } else {
        0x8000_0000_0000_0000 - b as i128
    };
    a % 0x8000_0000_0000_0000 <= 0x7ff0_0000_0000_0000 && b % 0x8000_0000_0000_0000
        <= 0x7ff0_0000_0000_0000 && x < y
}

/// The number, or `floor` when it is no number or not above it.
pub open spec fn no_less_than(b: u64, floor: u64) -> u64 {
    if less_double(floor, b) {
        b
    } else {
        floor
    }
}

/// The number, or `floor` when it is no number or not above it.
pub fn raise(b: u64, floor: u64) -> (r: u64)
    ensures
        r == no_less_than(b, floor),
{
    if is_less_double(floor, b) {
        b
    } else {
        floor
    }
}

} // verus!
