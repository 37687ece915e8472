//! Laws on lanes and peaks.

use vstd::prelude::*;

use crate::ieee::{greatest_is_greatest, least_is_least, less, LARGEST, LEAST};
use crate::waveform::{
    all_peaks, bucket_end, bucket_is_within, bucket_peak, bucket_start, lane_peaks, lane_samples,
    wanted_buckets, with_packet,
};

verus! {

/// The peaks of two groups of lanes are those of the one and those of the other,
/// and a lane has peaks exactly when it has samples.
pub proof fn lanes_have_peaks_of_their_own(a: Seq<Seq<u32>>, b: Seq<Seq<u32>>, n: int)
    ensures
        all_peaks(a + b, n) == all_peaks(a, n) + all_peaks(b, n),
        a.len() == 0 ==> all_peaks(a, n).len() == 0,
        a.len() == 1 && a[0].len() == 0 ==> all_peaks(a, n).len() == 0,
        a.len() == 1 && a[0].len() > 0 ==> all_peaks(a, n).len() == 1,
    decreases b.len(),
{
    if a.len() == 1 {
        assert(all_peaks(a.drop_last(), n) =~= Seq::empty());
    }
    if b.len() == 0 {
        assert(a + b =~= a);
        assert(all_peaks(a, n) + all_peaks(b, n) =~= all_peaks(a, n));
    } else {
        lanes_have_peaks_of_their_own(a, b.drop_last(), n);
        assert((a + b).drop_last() =~= a + b.drop_last());
        assert((a + b).last() == b.last());
        assert(all_peaks(a + b, n) =~= all_peaks(a, n) + all_peaks(b, n));
    }
}

/// Whether `pair` is the peak of `samples[from..to]`: no number there is below
/// its first part or above its second, and either part is one of the samples
/// there, unless all of them are infinite or no numbers.
pub open spec fn is_peak_of(pair: (u32, u32), samples: Seq<u32>, from: int, to: int) -> bool {
    &&& 0 <= from < to <= samples.len()
    &&& forall|s: int|
        from <= s < to ==> !less(#[trigger] samples[s], pair.0) && !less(pair.1, samples[s])
    &&& pair.0 == 0x7f7f_ffff || exists|s: int| from <= s < to && #[trigger] samples[s] == pair.0
    &&& pair.1 == 0xff7f_ffff || exists|s: int| from <= s < to && #[trigger] samples[s] == pair.1
}

/// The peak of a bucket is the peak of the samples in it.
proof fn bucket_peak_is_peak(samples: Seq<u32>, n: int, i: int)
    requires
        0 <= i < n,
        samples.len() > 0,
    ensures
        is_peak_of(
            bucket_peak(samples, n, i),
            samples,
            bucket_start(samples.len() as int, n, i),
            bucket_end(samples.len() as int, n, i),
        ),
{
    let len = samples.len() as int;
    bucket_is_within(len, n, i);
    let from = bucket_start(len, n, i);
    let to = bucket_end(len, n, i);
    let bucket = samples.subrange(from, to);
    least_is_least(LARGEST, bucket);
    greatest_is_greatest(LEAST, bucket);
    let pair = bucket_peak(samples, n, i);
    assert forall|s: int| from <= s < to implies !less(#[trigger] samples[s], pair.0) && !less(
        pair.1,
        samples[s],
    ) by {
        assert(bucket[s - from] == samples[s]);
    }
    if bucket.contains(pair.0) {
        let k = bucket.index_of(pair.0);
        assert(samples[from + k] == pair.0);
    }
    if bucket.contains(pair.1) {
        let k = bucket.index_of(pair.1);
        assert(samples[from + k] == pair.1);
    }
}

/// When every lane has samples, there are as many lists of peaks as lanes. List
/// `k` has `n` pairs, and pair `i` of it is the peak of the samples from the
/// `i`-th to the next of `n` equal parts of lane `k`, or of one sample where a
/// part has none.
pub proof fn every_lane_is_drawn(lanes: Seq<Seq<u32>>, n: int)
    requires
        n > 0,
        forall|k: int| 0 <= k < lanes.len() ==> (#[trigger] lanes[k]).len() > 0,
    ensures
        all_peaks(lanes, n).len() == lanes.len(),
        forall|k: int| 0 <= k < lanes.len() ==> (#[trigger] all_peaks(lanes, n)[k]).len() == n,
        forall|k: int, i: int|
            0 <= k < lanes.len() && 0 <= i < n ==> is_peak_of(
                #[trigger] all_peaks(lanes, n)[k][i],
                lanes[k],
                (i * lanes[k].len()) / n,
                if ((i + 1) * lanes[k].len()) / n > (i * lanes[k].len()) / n {
                    ((i + 1) * lanes[k].len()) / n
                } else {
                    (i * lanes[k].len()) / n + 1
                },
            ),
    decreases lanes.len(),
{
    if lanes.len() > 0 {
        let rest = lanes.drop_last();
        assert forall|k: int| 0 <= k < rest.len() implies (#[trigger] rest[k]).len() > 0 by {
            assert(lanes[k].len() > 0);
        }
        every_lane_is_drawn(rest, n);
        let last = lanes[lanes.len() - 1];
        assert(last.len() > 0);
        assert(all_peaks(lanes, n) == all_peaks(rest, n).push(lane_peaks(last, n)));
        assert forall|k: int| 0 <= k < lanes.len() implies (#[trigger] all_peaks(lanes, n)[k]).len()
            == n by {
            if k < rest.len() {
                assert(all_peaks(lanes, n)[k] == all_peaks(rest, n)[k]);
            }
        }
        assert forall|k: int, i: int| 0 <= k < lanes.len() && 0 <= i < n implies is_peak_of(
            #[trigger] all_peaks(lanes, n)[k][i],
            lanes[k],
            (i * lanes[k].len()) / n,
            if ((i + 1) * lanes[k].len()) / n > (i * lanes[k].len()) / n {
                ((i + 1) * lanes[k].len()) / n
            } else {
                (i * lanes[k].len()) / n + 1
            },
        ) by {
            if k < rest.len() {
                assert(rest[k] == lanes[k]);
                assert(all_peaks(lanes, n)[k] == all_peaks(rest, n)[k]);
                assert(all_peaks(rest, n)[k][i] == all_peaks(lanes, n)[k][i]);
            } else {
                assert(all_peaks(lanes, n)[k][i] == bucket_peak(last, n, i));
                bucket_peak_is_peak(last, n, i);
            }
        }
    }
}

/// A lane takes one sample of every frame, the one at its own place, and silence
/// where the last frame is too short for it.
pub proof fn lane_takes_its_place_in_every_frame<T>(
    samples: Seq<T>,
    size: int,
    lane: int,
    silence: T,
    k: int,
)
    requires
        size >= 1,
        0 <= lane < size,
        0 <= k,
    ensures
        k < lane_samples(samples, size, lane, silence).len() <==> k * size < samples.len(),
        k * size < samples.len() ==> lane_samples(samples, size, lane, silence)[k] == if k * size
            + lane < samples.len() {
            samples[k * size + lane]
        } else {
            silence
        },
    decreases samples.len(),
{
    let all = lane_samples(samples, size, lane, silence);
    if samples.len() == 0 {
        assert(k * size >= 0) by (nonlinear_arith)
            requires
                k >= 0,
                size >= 1,
        ;
    } else {
        let width = if size < samples.len() {
            size
        } else {
            samples.len() as int
        };
        let rest = samples.skip(width);
        assert(samples.take(samples.len() as int) =~= samples);
        if k > 0 {
            lane_takes_its_place_in_every_frame(rest, size, lane, silence, k - 1);
            assert((k - 1) * size == k * size - size) by (nonlinear_arith);
            assert(k * size >= size) by (nonlinear_arith)
                requires
                    k >= 1,
                    size >= 1,
            ;
            assert(all[k] == lane_samples(rest, size, lane, silence)[k - 1] || k >= all.len());
        } else {
            assert(0 * size == 0) by (nonlinear_arith);
        }
    }
}

/// A packet opens one lane for mono and two for anything wider, when there are
/// none yet, and leaves the number of lanes alone otherwise. Every lane keeps
/// what it had, and goes on with its own samples of the packet.
pub proof fn packets_only_add_to_lanes<T>(
    lanes: Seq<Seq<T>>,
    samples: Seq<T>,
    channels: int,
    silence: T,
    i: int,
)
    requires
        0 <= i < with_packet(lanes, samples, channels, silence).len(),
        channels >= 0,
    ensures
        with_packet(lanes, samples, channels, silence).len() == if lanes.len() > 0 {
            lanes.len() as int
        } else if channels <= 1 {
            1
        } else {
            2
        },
        with_packet(lanes, samples, channels, silence)[i] == (if lanes.len() > 0 {
            lanes[i]
        } else {
            Seq::empty()
        }) + lane_samples(
            samples,
            if channels == 0 {
                1
            } else {
                channels
            },
            i,
            silence,
        ),
{
}

/// Four hundred pairs are made unless another number is asked for.
pub proof fn four_hundred_unless_asked(buckets: Option<u32>)
    ensures
        buckets is None ==> wanted_buckets(buckets) == 400,
        buckets is Some ==> Some(wanted_buckets(buckets)) == buckets,
{
}

} // verus!
