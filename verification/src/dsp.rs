//! Cheap, deterministic tags from signal analysis: a handful of features of the
//! first seconds of a file, and a fixed set of rules from them to labels.
//!
//! The features themselves are floating-point numbers, computed elsewhere. They
//! come in here by their bits; how much audio is looked at, how it is cut into
//! windows and which labels follow is decided here.

use vstd::prelude::*;

use crate::ieee::{is_less, is_less_double, less, less_double, rank, total_rank};
use crate::tags::{is_label, packed, packed_text_shows_its_labels};
use crate::text::{occurs_at, str_texts};

verus! {

/// How many seconds of a file are looked at.
pub const ANALYSIS_SECONDS: u64 = 8;

/// Into how many windows the envelope is cut.
pub const ENVELOPE_WINDOWS: usize = 50;

/// How many samples a file needs for its features to mean anything.
pub const FEWEST_SAMPLES: usize = 64;

// ---------------------------------------------------------------------------
// How much to look at
// ---------------------------------------------------------------------------

/// The sample rate of a track, or that of a compact disc when the track does not
/// say.
pub fn track_rate(sample_rate: Option<u32>) -> (r: u32)
    ensures
        r == match sample_rate {
            Some(rate) => rate,
            None => 44100,
        },
{
    match sample_rate {
        Some(rate) => rate,
        None => 44100,
    }
}

/// How many mono samples are looked at, at a sample rate.
pub fn sample_budget(sample_rate: u32) -> (r: u64)
    ensures
        r == sample_rate * ANALYSIS_SECONDS,
{
    sample_rate as u64 * ANALYSIS_SECONDS
}

/// Mono samples, up to a limit.
pub struct MonoBuffer<T> {
    samples: Vec<T>,
    limit: u64,
}

impl<T> View for MonoBuffer<T> {
    type V = Seq<T>;

    closed spec fn view(&self) -> Seq<T> {
        self.samples@
    }
}

/// What is kept of `samples` when there is room for `limit` of them.
pub open spec fn up_to<T>(samples: Seq<T>, limit: int) -> Seq<T> {
    if samples.len() <= limit {
        samples
    } else {
        samples.take(limit)
    }
}

impl<T: Copy> MonoBuffer<T> {
    /// How many samples there is room for.
    pub closed spec fn room(&self) -> int {
        self.limit as int
    }

    /// Whether there are no more samples than there is room for.
    pub open spec fn well_formed(&self) -> bool {
        self@.len() <= self.room()
    }

    /// Room for the samples that are looked at.
    pub fn new(sample_rate: u32) -> (r: MonoBuffer<T>)
        ensures
            r.well_formed(),
            r@ == Seq::<T>::empty(),
            r.room() == sample_rate * ANALYSIS_SECONDS,
    {
        MonoBuffer { samples: Vec::new(), limit: sample_budget(sample_rate) }
    }

    /// Whether there is room for more.
    pub fn wants_more(&self) -> (r: bool)
        ensures
            r == (self@.len() < self.room()),
    {
        (self.samples.len() as u64) < self.limit
    }

    /// Takes in more samples, as far as there is room.
    pub fn accept(&mut self, more: &Vec<T>)
        requires
            old(self).well_formed(),
        ensures
            final(self).well_formed(),
            final(self)@ == up_to(old(self)@ + more@, old(self).room()),
            final(self).room() == old(self).room(),
    {
        let ghost before = self@;
        let ghost limit = self.limit;
        let mut i: usize = 0;
        assert(before + more@.take(0) =~= before);
        while i < more.len() && (self.samples.len() as u64) < self.limit
            invariant
                i <= more@.len(),
                self.limit == limit,
                self.samples@.len() <= limit,
                self.samples@ == before + more@.take(i as int),
            decreases more@.len() - i,
        {
            self.samples.push(more[i]);
            i += 1;
            assert(self.samples@ =~= before + more@.take(i as int));
        }
        assert(more@.take(more@.len() as int) =~= more@);
        proof {
            if i < more@.len() {
                assert(self.samples@ =~= (before + more@).take(limit as int));
            }
        }
    }

    /// The samples, when there are any.
    pub fn finish(self) -> (r: Option<Vec<T>>)
        ensures
            match r {
                Some(samples) => samples@ == self@ && self@.len() > 0,
                None => self@.len() == 0,
            },
    {
        if self.samples.is_empty() {
            None
        } else {
            Some(self.samples)
        }
    }
}

/// Whether there are enough samples to look at.
pub fn enough_samples(count: usize) -> (r: bool)
    ensures
        r == (count >= FEWEST_SAMPLES),
{
    count >= FEWEST_SAMPLES
}

// ---------------------------------------------------------------------------
// Windows
// ---------------------------------------------------------------------------

/// How long a window of the envelope is.
pub open spec fn envelope_window(count: int) -> int {
    if count / 50 < 1 {
        1
    } else {
        count / 50
    }
}

/// Whether `windows` cut `count` samples into windows of `size`, the last of
/// which may be shorter, without gaps and to the end.
pub open spec fn cuts(windows: Seq<(usize, usize)>, count: int, size: int) -> bool {
    &&& windows.len() * size >= count
    &&& windows.len() > 0 ==> (windows.len() - 1) * size < count
    &&& forall|k: int|
        0 <= k < windows.len() ==> (#[trigger] windows[k]).0 == k * size && windows[k].1 == (
        if k * size + size < count {
            k * size + size
        } else {
            count
        })
}

/// The bounds of the windows of `size` samples, the last of which may be
/// shorter.
pub fn window_bounds(count: usize, size: usize) -> (r: Vec<(usize, usize)>)
    requires
        size > 0,
    ensures
        cuts(r@, count as int, size as int),
{
    let mut out: Vec<(usize, usize)> = Vec::new();
    let mut from: usize = 0;
    assert(0 * size == 0) by (nonlinear_arith);
    while from < count
        invariant
            size > 0,
            from <= count,
            from < count ==> from == out@.len() * size,
            out@.len() * size >= from,
            out@.len() > 0 ==> (out@.len() - 1) * size < from,
            forall|k: int|
                0 <= k < out@.len() ==> (#[trigger] out@[k]).0 == k * size && out@[k].1 == (if k
                    * size + size < count {
                    k * size + size
                } else {
                    count as int
                }),
        decreases count - from,
    {
        let to: usize = if count - from > size {
            from + size
        } else {
            count
        };
        let ghost n = out@.len();
        out.push((from, to));
        proof {
            assert((n + 1) * size == n * size + size) by (nonlinear_arith);
            assert(out@.len() - 1 == n);
        }
        from = to;
    }
    out
}

/// The bounds of the windows that the envelope is taken over.
pub fn envelope_windows(count: usize) -> (r: Vec<(usize, usize)>)
    ensures
        cuts(r@, count as int, envelope_window(count as int)),
{
    let size: usize = if count / ENVELOPE_WINDOWS < 1 {
        1
    } else {
        count / ENVELOPE_WINDOWS
    };
    window_bounds(count, size)
}

/// The last of the places where the envelope is highest, in the total order of
/// the encodings.
pub open spec fn is_peak(envelope: Seq<u32>, k: int) -> bool {
    &&& 0 <= k < envelope.len()
    &&& forall|j: int| 0 <= j < k ==> total_rank(#[trigger] envelope[j]) <= total_rank(envelope[k])
    &&& forall|j: int|
        k < j < envelope.len() ==> total_rank(#[trigger] envelope[j]) < total_rank(envelope[k])
}

/// Where the envelope is highest; of several such places, the last.
pub fn peak_index(envelope: &Vec<u32>) -> (r: Option<usize>)
    ensures
        match r {
            Some(k) => is_peak(envelope@, k as int),
            None => envelope@.len() == 0,
        },
{
    if envelope.is_empty() {
        return None;
    }
    let mut best: usize = 0;
    let mut i: usize = 1;
    while i < envelope.len()
        invariant
            1 <= i <= envelope@.len(),
            best < i,
            is_peak(envelope@.take(i as int), best as int),
        decreases envelope@.len() - i,
    {
        let ghost now = envelope@.take(i as int);
        let ghost next = envelope@.take(i + 1);
        assert forall|j: int| 0 <= j < i implies next[j] == now[j] by {}
        assert(next[i as int] == envelope@[i as int]);
        assert(now[best as int] == envelope@[best as int]);
        if rank(envelope[best]) <= rank(envelope[i]) {
            assert forall|j: int| 0 <= j < i implies total_rank(#[trigger] next[j]) <= total_rank(
                next[i as int],
            ) by {
                assert(total_rank(now[j]) <= total_rank(now[best as int]));
            }
            best = i;
        } else {
            assert forall|j: int| best < j < next.len() implies total_rank(#[trigger] next[j])
                < total_rank(next[best as int]) by {
                if j < i {
                    assert(total_rank(now[j]) < total_rank(now[best as int]));
                }
            }
            assert forall|j: int| 0 <= j < best implies total_rank(#[trigger] next[j])
                <= total_rank(next[best as int]) by {
                assert(total_rank(now[j]) <= total_rank(now[best as int]));
            }
        }
        i += 1;
    }
    assert(envelope@.take(envelope@.len() as int) =~= envelope@);
    Some(best)
}

/// The powers of two from 256 to 65536.
pub open spec fn is_fft_size(n: int) -> bool {
    n == 256 || n == 512 || n == 1024 || n == 2048 || n == 4096 || n == 8192 || n == 16384 || n
        == 32768 || n == 65536
}

/// The number of samples that the spectrum is to be taken over, before it is
/// rounded: all of them, but no more than one second.
pub open spec fn fft_wish(count: int, sample_rate: int) -> int {
    if count < sample_rate {
        count
    } else {
        sample_rate
    }
}

/// The length of the spectrum: the smallest power of two, from 256 to 65536,
/// that has room for the samples, or 65536 when none has.
pub fn fft_length(count: usize, sample_rate: u32) -> (r: usize)
    ensures
        is_fft_size(r as int),
        fft_wish(count as int, sample_rate as int) <= r || r == 65536,
        r > 256 ==> r / 2 < fft_wish(count as int, sample_rate as int),
{
    let wish: u64 = if (count as u64) < (sample_rate as u64) {
        count as u64
    } else {
        sample_rate as u64
    };
    let mut n: usize = 256;
    while n < 65536 && (n as u64) < wish
        invariant
            is_fft_size(n as int),
            wish == fft_wish(count as int, sample_rate as int),
            n > 256 ==> n / 2 < wish,
        decreases 65536 - n,
    {
        n = n * 2;
    }
    n
}

// ---------------------------------------------------------------------------
// Labels
// ---------------------------------------------------------------------------

/// The features of a sound, each by the bits of a single precision number.
#[derive(Clone, Copy, Debug)]
pub struct Features {
    /// Where the envelope peaks, as a fraction of its length.
    pub attack_time_frac: u32,
    /// The end of the envelope over its peak.
    pub decay_ratio: u32,
    /// The centre of the spectrum, in hertz.
    pub spectral_centroid_hz: u32,
    /// How much the spectrum is like noise, from zero to one.
    pub spectral_flatness: u32,
}

/// 0.15 in single precision.
pub const SINGLE_0_15: u32 = 0x3e19_999a;

/// 0.3 in single precision.
pub const SINGLE_0_3: u32 = 0x3e99_999a;

/// 0.5 in single precision.
pub const SINGLE_0_5: u32 = 0x3f00_0000;

/// 0.6 in single precision.
pub const SINGLE_0_6: u32 = 0x3f19_999a;

/// 500 in single precision.
pub const SINGLE_500: u32 = 0x43fa_0000;

/// 3000 in single precision.
pub const SINGLE_3000: u32 = 0x453b_8000;

/// 1.5 in double precision.
pub const DOUBLE_1_5: u64 = 0x3ff8_0000_0000_0000;

/// 3 in double precision.
pub const DOUBLE_3: u64 = 0x4008_0000_0000_0000;

/// 4 in double precision.
pub const DOUBLE_4: u64 = 0x4010_0000_0000_0000;

/// An early peak that dies away: the attack comes before 0.15, and the decay
/// falls below 0.3.
pub open spec fn is_percussive(f: Features) -> bool {
    less(f.attack_time_frac, SINGLE_0_15) && less(f.decay_ratio, SINGLE_0_3)
}

/// The sound is still there at the end: the decay stays above 0.6.
pub open spec fn is_sustained(f: Features) -> bool {
    less(SINGLE_0_6, f.decay_ratio)
}

/// The flatness is below 0.15.
pub open spec fn is_tonal(f: Features) -> bool {
    less(f.spectral_flatness, SINGLE_0_15)
}

/// The flatness is above 0.5.
pub open spec fn is_noisy(f: Features) -> bool {
    less(SINGLE_0_5, f.spectral_flatness)
}

/// What kind of sound it is, when the rules know: by its shape and by its
/// duration in seconds, the latter by the bits of a double precision number.
pub open spec fn kind_label(f: Features, duration: u64) -> Seq<Seq<char>> {
    if is_percussive(f) && less_double(duration, DOUBLE_1_5) {
        seq!["impact"@]
    } else if is_noisy(f) && !is_sustained(f) && less_double(duration, DOUBLE_4) {
        seq!["whoosh"@]
    } else if is_sustained(f) && less_double(DOUBLE_3, duration) {
        if is_tonal(f) {
            seq!["drone"@]
        } else {
            seq!["ambience"@]
        }
    } else {
        Seq::empty()
    }
}

/// `tonal`, for a sound that is.
pub open spec fn tonal_label(f: Features) -> Seq<Seq<char>> {
    if is_tonal(f) {
        seq!["tonal"@]
    } else {
        Seq::empty()
    }
}

/// `noisy`, for a sound that is.
pub open spec fn noisy_label(f: Features) -> Seq<Seq<char>> {
    if is_noisy(f) {
        seq!["noisy"@]
    } else {
        Seq::empty()
    }
}

/// `bright` above 3000 hertz, `dark` below 500.
pub open spec fn color_label(f: Features) -> Seq<Seq<char>> {
    if less(SINGLE_3000, f.spectral_centroid_hz) {
        seq!["bright"@]
    } else if less(f.spectral_centroid_hz, SINGLE_500) {
        seq!["dark"@]
    } else {
        Seq::empty()
    }
}

/// All the labels of a sound, in order.
pub open spec fn sound_labels(f: Features, duration: u64) -> Seq<Seq<char>> {
    kind_label(f, duration) + tonal_label(f) + noisy_label(f) + color_label(f)
}

/// The labels of a sound, from its features and its duration in seconds.
pub fn classify(f: &Features, duration: u64) -> (r: Vec<&'static str>)
    ensures
        str_texts(r@) == sound_labels(*f, duration),
{
    let percussive: bool = is_less(f.attack_time_frac, SINGLE_0_15) && is_less(
        f.decay_ratio,
        SINGLE_0_3,
    );
    let sustained: bool = is_less(SINGLE_0_6, f.decay_ratio);
    let tonal: bool = is_less(f.spectral_flatness, SINGLE_0_15);
    let noisy: bool = is_less(SINGLE_0_5, f.spectral_flatness);
    let mut labels: Vec<&'static str> = Vec::new();

    if percussive && is_less_double(duration, DOUBLE_1_5) {
        labels.push("impact");
    } else if noisy && !sustained && is_less_double(duration, DOUBLE_4) {
        labels.push("whoosh");
    } else if sustained && is_less_double(DOUBLE_3, duration) {
        labels.push(
            if tonal {
                "drone"
            } else {
                "ambience"
            },
        );
    }
    assert(str_texts(labels@) =~= kind_label(*f, duration));
    if tonal {
        labels.push("tonal");
    }
    assert(str_texts(labels@) =~= kind_label(*f, duration) + tonal_label(*f));
    if noisy {
        labels.push("noisy");
    }
    assert(str_texts(labels@) =~= kind_label(*f, duration) + tonal_label(*f) + noisy_label(*f));
    if is_less(SINGLE_3000, f.spectral_centroid_hz) {
        labels.push("bright");
    } else if is_less(f.spectral_centroid_hz, SINGLE_500) {
        labels.push("dark");
    }
    assert(str_texts(labels@) =~= sound_labels(*f, duration));
    labels
}

/// The vocabulary of labels.
pub open spec fn vocabulary() -> Seq<Seq<char>> {
    seq![
        "impact"@,
        "whoosh"@,
        "drone"@,
        "ambience"@,
        "tonal"@,
        "noisy"@,
        "bright"@,
        "dark"@,
    ]
}

/// No word of the vocabulary is empty or has a comma.
proof fn vocabulary_can_be_packed()
    ensures
        forall|i: int| 0 <= i < vocabulary().len() ==> is_label(#[trigger] vocabulary()[i]),
{
    reveal_strlit("impact");
    reveal_strlit("whoosh");
    reveal_strlit("drone");
    reveal_strlit("ambience");
    reveal_strlit("tonal");
    reveal_strlit("noisy");
    reveal_strlit("bright");
    reveal_strlit("dark");
}

/// A sound never is both tonal and noisy.
pub proof fn never_tonal_and_noisy(f: Features)
    ensures
        !(is_tonal(f) && is_noisy(f)),
{
}

/// Every label is a word of the vocabulary, there are at most three of them,
/// and they can be packed into one text.
pub proof fn labels_can_be_packed(f: Features, duration: u64)
    ensures
        sound_labels(f, duration).len() <= 3,
        forall|i: int|
            0 <= i < sound_labels(f, duration).len() ==> vocabulary().contains(
                #[trigger] sound_labels(f, duration)[i],
            ) && is_label(sound_labels(f, duration)[i]),
{
    vocabulary_can_be_packed();
    never_tonal_and_noisy(f);
    let v = vocabulary();
    assert(v[0] == "impact"@ && v[1] == "whoosh"@ && v[2] == "drone"@ && v[3] == "ambience"@);
    assert(v[4] == "tonal"@ && v[5] == "noisy"@ && v[6] == "bright"@ && v[7] == "dark"@);
    let l = sound_labels(f, duration);
    assert forall|i: int| 0 <= i < l.len() implies v.contains(#[trigger] l[i]) && is_label(
        l[i],
    ) by {
        assert(v.contains(v[0]) && v.contains(v[1]) && v.contains(v[2]) && v.contains(v[3]));
        assert(v.contains(v[4]) && v.contains(v[5]) && v.contains(v[6]) && v.contains(v[7]));
    }
}

/// Searching the packed labels of a sound for `,label,` finds exactly the
/// labels that the sound has.
pub proof fn label_search_is_exact(f: Features, duration: u64, label: Seq<char>)
    requires
        sound_labels(f, duration).len() > 0,
        is_label(label),
    ensures
        sound_labels(f, duration).contains(label) <==> exists|i: int|
            occurs_at(
                packed(sound_labels(f, duration))->0,
                seq![','] + label + seq![','],
                i,
            ),
{
    labels_can_be_packed(f, duration);
    packed_text_shows_its_labels(sound_labels(f, duration), label);
}

} // verus!
