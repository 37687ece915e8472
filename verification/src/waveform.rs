//! A small table of peaks per channel, for drawing a static overview of a file:
//! one lane for mono, two for stereo.

use vstd::prelude::*;

use crate::ieee::{
    extremes, greatest_is_greatest, greatest_of, least_is_least, least_of, less, LARGEST, LEAST,
};

verus! {

// ---------------------------------------------------------------------------
// Packets
// ---------------------------------------------------------------------------

/// What to do with what the container gives next.
#[derive(Clone, Copy, Debug, PartialEq, Eq, Structural)]
pub enum PacketStep {
    /// There is nothing more to read.
    Finish,
    /// The packet belongs to another track.
    Skip,
    /// The packet is to be decoded.
    Decode,
}

/// What to do with the next packet, when only the packets of one track are
/// wanted. `packet` is the track that the packet belongs to, or nothing when
/// there is none.
pub fn packet_step(wanted: u32, packet: Option<u32>) -> (r: PacketStep)
    ensures
        r == match packet {
            Some(track) => if track == wanted {
                PacketStep::Decode
            } else {
                PacketStep::Skip
            },
            None => PacketStep::Finish,
        },
{
    match packet {
        Some(track) => if track == wanted {
            PacketStep::Decode
        } else {
            PacketStep::Skip
        },
        None => PacketStep::Finish,
    }
}

// ---------------------------------------------------------------------------
// Lanes
// ---------------------------------------------------------------------------

/// How many samples a frame has: one per channel, and at least one.
pub open spec fn frame_size(channels: int) -> int {
    if channels < 1 {
        1
    } else {
        channels
    }
}

/// How many lanes are kept: those of mono or stereo.
pub open spec fn lane_count(channels: int) -> int {
    if channels < 2 {
        1
    } else {
        2
    }
}

/// What the frames of a packet hold for one lane; a frame that is too short has
/// silence for it.
pub open spec fn lane_samples<T>(samples: Seq<T>, size: int, lane: int, silence: T) -> Seq<T>
    decreases samples.len(),
{
    if samples.len() == 0 || size < 1 {
        Seq::empty()
    } else {
        let frame = if size < samples.len() {
            samples.take(size)
        } else {
            samples
        };
        let first = if lane < frame.len() {
            frame[lane]
        } else {
            silence
        };
        seq![first] + lane_samples(samples.skip(frame.len() as int), size, lane, silence)
    }
}

/// The lanes before the first packet is known, and after.
pub open spec fn opened<T>(lanes: Seq<Seq<T>>, channels: int) -> Seq<Seq<T>> {
    if lanes.len() == 0 {
        Seq::new(lane_count(channels) as nat, |i: int| Seq::empty())
    } else {
        lanes
    }
}

/// The lanes with one more packet of interleaved samples.
pub open spec fn with_packet<T>(
    lanes: Seq<Seq<T>>,
    samples: Seq<T>,
    channels: int,
    silence: T,
) -> Seq<Seq<T>> {
    let open = opened(lanes, channels);
    Seq::new(
        open.len(),
        |i: int| open[i] + lane_samples(samples, frame_size(channels), i, silence),
    )
}

/// The samples of a file, lane by lane. The first packet settles how many lanes
/// there are, and it is never more than two.
pub struct Lanes<T> {
    lanes: Vec<Vec<T>>,
}

impl<T> View for Lanes<T> {
    type V = Seq<Seq<T>>;

    closed spec fn view(&self) -> Seq<Seq<T>> {
        self.lanes@.map_values(|lane: Vec<T>| lane@)
    }
}

/// What the frames of a packet hold for one lane.
fn take_lane<T: Copy>(samples: &Vec<T>, size: usize, lane: usize, silence: T) -> (r: Vec<T>)
    requires
        size >= 1,
    ensures
        r@ == lane_samples(samples@, size as int, lane as int, silence),
{
    let mut out: Vec<T> = Vec::new();
    let mut from: usize = 0;
    let ghost whole = lane_samples(samples@, size as int, lane as int, silence);
    assert(samples@.skip(0) =~= samples@);
    assert(out@ + whole =~= whole);
    while from < samples.len()
        invariant
            size >= 1,
            from <= samples@.len(),
            whole == lane_samples(samples@, size as int, lane as int, silence),
            whole == out@ + lane_samples(
                samples@.skip(from as int),
                size as int,
                lane as int,
                silence,
            ),
        decreases samples@.len() - from,
    {
        let ghost left = samples@.skip(from as int);
        let width: usize = if size < samples.len() - from {
            size
        } else {
            samples.len() - from
        };
        let item: T = if lane < width {
            samples[from + lane]
        } else {
            silence
        };
        let ghost before = out@;
        out.push(item);
        assert(left.skip(width as int) =~= samples@.skip(from + width));
        assert(whole =~= before + (seq![item] + lane_samples(
            left.skip(width as int),
            size as int,
            lane as int,
            silence,
        )));
        assert(before + (seq![item] + lane_samples(
            left.skip(width as int),
            size as int,
            lane as int,
            silence,
        )) =~= out@ + lane_samples(left.skip(width as int), size as int, lane as int, silence));
        from += width;
    }
    assert(out@ =~= whole);
    out
}

impl<T: Copy> Lanes<T> {
    /// No packet yet.
    pub fn new() -> (r: Lanes<T>)
        ensures
            r@ == Seq::<Seq<T>>::empty(),
    {
        let r: Lanes<T> = Lanes { lanes: Vec::new() };
        assert(r@ =~= Seq::<Seq<T>>::empty());
        r
    }

    /// Takes in a packet of interleaved samples.
    pub fn accept(&mut self, samples: &Vec<T>, channels: usize, silence: T)
        ensures
            final(self)@ == with_packet(old(self)@, samples@, channels as int, silence),
    {
        let ghost before = self@;
        if self.lanes.is_empty() {
            self.lanes.push(Vec::new());
            if channels >= 2 {
                self.lanes.push(Vec::new());
            }
        }
        let ghost open = self@;
        assert(open =~= opened(before, channels as int));
        let size: usize = if channels < 1 {
            1
        } else {
            channels
        };
        let count: usize = self.lanes.len();
        let mut i: usize = 0;
        while i < count
            invariant
                i <= count == self.lanes@.len(),
                count == open.len(),
                size == frame_size(channels as int),
                size >= 1,
                forall|j: int|
                    0 <= j < i ==> (#[trigger] self.lanes@[j])@ == open[j] + lane_samples(
                        samples@,
                        size as int,
                        j,
                        silence,
                    ),
                forall|j: int| i <= j < count ==> (#[trigger] self.lanes@[j])@ == open[j],
            decreases count - i,
        {
            let mut more = take_lane(samples, size, i, silence);
            self.lanes[i].append(&mut more);
            i += 1;
        }
        assert(self@ =~= with_packet(before, samples@, channels as int, silence));
    }

    /// The lanes, when there is a sample in any.
    pub fn finish(self) -> (r: Option<Vec<Vec<T>>>)
        ensures
            match r {
                Some(lanes) => lanes@.map_values(|lane: Vec<T>| lane@) == self@ && exists|i: int|
                    0 <= i < self@.len() && (#[trigger] self@[i]).len() > 0,
                None => forall|i: int| 0 <= i < self@.len() ==> (#[trigger] self@[i]).len() == 0,
            },
    {
        let mut i: usize = 0;
        while i < self.lanes.len()
            invariant
                i <= self.lanes@.len(),
                forall|j: int| 0 <= j < i ==> (#[trigger] self.lanes@[j])@.len() == 0,
            decreases self.lanes@.len() - i,
        {
            if !self.lanes[i].is_empty() {
                assert(self@[i as int].len() > 0);
                return Some(self.lanes);
            }
            i += 1;
        }
        assert forall|j: int| 0 <= j < self@.len() implies (#[trigger] self@[j]).len() == 0 by {
            assert(self.lanes@[j]@.len() == 0);
        }
        None
    }
}

/// Every lane grows by the same number of samples with each packet.
proof fn lane_lengths<T>(samples: Seq<T>, size: int, a: int, b: int, silence: T)
    ensures
        lane_samples(samples, size, a, silence).len() == lane_samples(
            samples,
            size,
            b,
            silence,
        ).len(),
    decreases samples.len(),
{
    if samples.len() > 0 && size >= 1 {
        let width = if size < samples.len() {
            size
        } else {
            samples.len() as int
        };
        assert(samples.take(samples.len() as int) =~= samples);
        lane_lengths(samples.skip(width), size, a, b, silence);
    }
}

/// Lanes that are equally long stay so, and there are never more than two.
pub proof fn lanes_stay_level<T>(lanes: Seq<Seq<T>>, samples: Seq<T>, channels: int, silence: T)
    requires
        lanes.len() <= 2,
        forall|i: int, j: int|
            0 <= i < lanes.len() && 0 <= j < lanes.len() ==> (#[trigger] lanes[i]).len() == (
            #[trigger] lanes[j]).len(),
    ensures
        1 <= with_packet(lanes, samples, channels, silence).len() <= 2,
        forall|i: int, j: int|
            0 <= i < with_packet(lanes, samples, channels, silence).len() && 0 <= j < with_packet(
                lanes,
                samples,
                channels,
                silence,
            ).len() ==> (#[trigger] with_packet(lanes, samples, channels, silence)[i]).len() == (
            #[trigger] with_packet(lanes, samples, channels, silence)[j]).len(),
{
    let after = with_packet(lanes, samples, channels, silence);
    assert forall|i: int, j: int| 0 <= i < after.len() && 0 <= j < after.len() implies (
    #[trigger] after[i]).len() == (#[trigger] after[j]).len() by {
        lane_lengths(samples, frame_size(channels), i, j, silence);
    }
}

// ---------------------------------------------------------------------------
// Peaks
// ---------------------------------------------------------------------------

/// How many peaks are asked for: four hundred, unless the caller says.
pub open spec fn wanted_buckets(buckets: Option<u32>) -> u32 {
    match buckets {
        Some(n) => n,
        None => 400,
    }
}

/// How many peaks are asked for.
pub fn bucket_count(buckets: Option<u32>) -> (r: usize)
    ensures
        r == wanted_buckets(buckets),
{
    match buckets {
        Some(n) => n as usize,
        None => 400,
    }
}

/// Where bucket `i` of `n` begins in a lane of `len` samples.
pub open spec fn bucket_start(len: int, n: int, i: int) -> int {
    (i * len) / n
}

/// Where bucket `i` of `n` ends in a lane of `len` samples: where the next one
/// begins, and behind at least one sample.
pub open spec fn bucket_end(len: int, n: int, i: int) -> int {
    if bucket_start(len, n, i + 1) > bucket_start(len, n, i) {
        bucket_start(len, n, i + 1)
    } else {
        bucket_start(len, n, i) + 1
    }
}

/// The least and the greatest sample of a bucket.
pub open spec fn bucket_peak(samples: Seq<u32>, n: int, i: int) -> (u32, u32) {
    let bucket = samples.subrange(
        bucket_start(samples.len() as int, n, i),
        bucket_end(samples.len() as int, n, i),
    );
    (least_of(LARGEST, bucket), greatest_of(LEAST, bucket))
}

/// The peaks of a lane, `n` of them.
pub open spec fn lane_peaks(samples: Seq<u32>, n: int) -> Seq<(u32, u32)> {
    Seq::new(n as nat, |i: int| bucket_peak(samples, n, i))
}

/// The peaks of the lanes that have samples.
pub open spec fn all_peaks(lanes: Seq<Seq<u32>>, n: int) -> Seq<Seq<(u32, u32)>>
    decreases lanes.len(),
{
    if lanes.len() == 0 {
        Seq::empty()
    } else {
        let before = all_peaks(lanes.drop_last(), n);
        if lanes.last().len() == 0 {
            before
        } else {
            before.push(lane_peaks(lanes.last(), n))
        }
    }
}

/// A bucket holds at least one sample and ends with the lane at the latest; the
/// next bucket begins no later than it ends.
pub proof fn bucket_is_within(len: int, n: int, i: int)
    requires
        len > 0,
        0 <= i < n,
    ensures
        0 <= bucket_start(len, n, i) < bucket_end(len, n, i) <= len,
        bucket_start(len, n, i + 1) <= bucket_end(len, n, i),
{
    assert(0 <= i * len <= (n - 1) * len) by (nonlinear_arith)
        requires
            len > 0,
            0 <= i < n,
    ;
    assert((i + 1) * len <= n * len) by (nonlinear_arith)
        requires
            len > 0,
            0 <= i < n,
    ;
    let a = i * len;
    let b = (i + 1) * len;
    assert(0 <= a / n < len) by (nonlinear_arith)
        requires
            0 <= a <= (n - 1) * len,
            len > 0,
            n > 0,
    ;
    assert(b / n <= len) by (nonlinear_arith)
        requires
            b <= n * len,
            n > 0,
    ;
}

/// The buckets cover a lane from its first sample to its last.
pub proof fn buckets_cover_the_lane(len: int, n: int)
    requires
        len > 0,
        n > 0,
    ensures
        bucket_start(len, n, 0) == 0,
        bucket_end(len, n, n - 1) == len,
{
    assert((0 * len) / n == 0) by (nonlinear_arith)
        requires
            n > 0,
    ;
    assert((n * len) / n == len) by (nonlinear_arith)
        requires
            n > 0,
    ;
    bucket_is_within(len, n, n - 1);
}

/// The bucket that a sample lies in, looked for from bucket `i` on.
proof fn bucket_of_sample(len: int, n: int, i: int, s: int) -> (k: int)
    requires
        0 <= i < n,
        bucket_start(len, n, i) <= s < len,
        0 <= s,
    ensures
        0 <= k < n,
        bucket_start(len, n, k) <= s < bucket_end(len, n, k),
    decreases n - i,
{
    if s < bucket_end(len, n, i) {
        i
    } else {
        bucket_is_within(len, n, i);
        buckets_cover_the_lane(len, n);
        bucket_of_sample(len, n, i + 1, s)
    }
}

/// Nothing is left out of the picture: for every sample of a lane there is a
/// bucket whose least sample is not above it and whose greatest is not below.
pub proof fn peaks_show_every_sample(samples: Seq<u32>, n: int, s: int)
    requires
        n > 0,
        0 <= s < samples.len(),
    ensures
        exists|i: int|
            0 <= i < n && !less(samples[s], (#[trigger] lane_peaks(samples, n)[i]).0) && !less(
                lane_peaks(samples, n)[i].1,
                samples[s],
            ),
{
    let len = samples.len() as int;
    buckets_cover_the_lane(len, n);
    let k = bucket_of_sample(len, n, 0, s);
    bucket_is_within(len, n, k);
    let bucket = samples.subrange(bucket_start(len, n, k), bucket_end(len, n, k));
    least_is_least(LARGEST, bucket);
    greatest_is_greatest(LEAST, bucket);
    assert(bucket[s - bucket_start(len, n, k)] == samples[s]);
    assert(lane_peaks(samples, n)[k] == bucket_peak(samples, n, k));
}

/// The peaks of a lane.
fn peaks_of(samples: &Vec<u32>, n: usize) -> (r: Vec<(u32, u32)>)
    requires
        samples@.len() > 0,
        n > 0,
    ensures
        r@ == lane_peaks(samples@, n as int),
{
    let len: usize = samples.len();
    let mut out: Vec<(u32, u32)> = Vec::new();
    let mut i: usize = 0;
    while i < n
        invariant
            i <= n,
            len == samples@.len(),
            len > 0,
            n > 0,
            out@.len() == i,
            forall|j: int| 0 <= j < i ==> #[trigger] out@[j] == bucket_peak(samples@, n as int, j),
        decreases n - i,
    {
        proof {
            bucket_is_within(len as int, n as int, i as int);
            assert(0 <= i * len <= 0xffff_ffff_ffff_ffff * 0xffff_ffff_ffff_ffff)
                by (nonlinear_arith)
                requires
                    0 <= i <= 0xffff_ffff_ffff_ffff,
                    0 <= len <= 0xffff_ffff_ffff_ffff,
            ;
            assert((i + 1) * len == i * len + len) by (nonlinear_arith);
        }
        let at: u128 = i as u128 * len as u128;
        let from: usize = (at / n as u128) as usize;
        let next: usize = ((at + len as u128) / n as u128) as usize;
        let to: usize = if next > from {
            next
        } else {
            from + 1
        };
        out.push(extremes(samples, from, to, LARGEST, LEAST));
        i += 1;
    }
    assert(out@ =~= lane_peaks(samples@, n as int));
    out
}

/// Per lane, `buckets` pairs of the least and the greatest sample across the
/// whole file. No fewer than one pair is made, and a lane without samples has
/// none.
pub fn compute_peaks(lanes: &Vec<Vec<u32>>, buckets: usize) -> (r: Vec<Vec<(u32, u32)>>)
    ensures
        r@.map_values(|peaks: Vec<(u32, u32)>| peaks@) == all_peaks(
            lanes@.map_values(|lane: Vec<u32>| lane@),
            if buckets < 1 {
                1
            } else {
                buckets as int
            },
        ),
{
    let n: usize = if buckets < 1 {
        1
    } else {
        buckets
    };
    let ghost all = lanes@.map_values(|lane: Vec<u32>| lane@);
    let ghost inner = |peaks: Vec<(u32, u32)>| peaks@;
    let mut out: Vec<Vec<(u32, u32)>> = Vec::new();
    let mut i: usize = 0;
    assert(out@.map_values(inner) =~= all_peaks(all.take(0), n as int));
    while i < lanes.len()
        invariant
            n > 0,
            i <= lanes@.len(),
            all == lanes@.map_values(|lane: Vec<u32>| lane@),
            inner == (|peaks: Vec<(u32, u32)>| peaks@),
            out@.map_values(inner) == all_peaks(all.take(i as int), n as int),
        decreases lanes@.len() - i,
    {
        assert(all.take(i + 1).drop_last() =~= all.take(i as int));
        assert(all.take(i + 1).last() == lanes@[i as int]@);
        if !lanes[i].is_empty() {
            let ghost before = out@.map_values(inner);
            let peaks = peaks_of(&lanes[i], n);
            let ghost added = peaks@;
            out.push(peaks);
            assert(out@.map_values(inner) =~= before.push(added));
        }
        i += 1;
    }
    assert(all.take(all.len() as int) =~= all);
    out
}

} // verus!
