//! Laws on the labels of a sound.

use vstd::prelude::*;

use crate::dsp::{
    color_label, cuts, envelope_window, fft_wish, is_fft_size, is_peak, kind_label, noisy_label,
    sound_labels, tonal_label, up_to, Features,
};
use crate::ieee::{less, less_double, total_rank};
use crate::laws::lists::{in_either, in_one};

verus! {

/// The words of the vocabulary differ from each other.
proof fn words_differ()
    ensures
        "impact"@ != "whoosh"@,
        "impact"@ != "drone"@,
        "impact"@ != "ambience"@,
        "impact"@ != "tonal"@,
        "impact"@ != "noisy"@,
        "impact"@ != "bright"@,
        "impact"@ != "dark"@,
        "whoosh"@ != "drone"@,
        "whoosh"@ != "ambience"@,
        "whoosh"@ != "tonal"@,
        "whoosh"@ != "noisy"@,
        "whoosh"@ != "bright"@,
        "whoosh"@ != "dark"@,
        "drone"@ != "ambience"@,
        "drone"@ != "tonal"@,
        "drone"@ != "noisy"@,
        "drone"@ != "bright"@,
        "drone"@ != "dark"@,
        "ambience"@ != "tonal"@,
        "ambience"@ != "noisy"@,
        "ambience"@ != "bright"@,
        "ambience"@ != "dark"@,
        "tonal"@ != "noisy"@,
        "tonal"@ != "bright"@,
        "tonal"@ != "dark"@,
        "noisy"@ != "bright"@,
        "noisy"@ != "dark"@,
        "bright"@ != "dark"@,
{
    reveal_strlit("impact");
    reveal_strlit("whoosh");
    reveal_strlit("drone");
    reveal_strlit("ambience");
    reveal_strlit("tonal");
    reveal_strlit("noisy");
    reveal_strlit("bright");
    reveal_strlit("dark");
    assert("drone"@.len() == 5 && "ambience"@.len() == 8 && "dark"@.len() == 4);
    assert("impact"@[0] == 'i' && "whoosh"@[0] == 'w' && "bright"@[0] == 'b');
    assert("drone"@[0] == 'd' && "tonal"@[0] == 't' && "noisy"@[0] == 'n');
}

/// A label of a sound is one of four: that of its kind, that it is tonal, that
/// it is noisy, or its color.
proof fn in_labels(f: Features, duration: u64, x: Seq<char>)
    ensures
        sound_labels(f, duration).contains(x) <==> kind_label(f, duration).contains(x)
            || tonal_label(f).contains(x) || noisy_label(f).contains(x) || color_label(f).contains(
            x,
        ),
{
    let a = kind_label(f, duration);
    let b = tonal_label(f);
    let c = noisy_label(f);
    let d = color_label(f);
    in_either(a, b, x);
    in_either(a + b, c, x);
    in_either(a + b + c, d, x);
}

/// Which label a sound has, each by itself. An `impact` peaks before 0.15 of its
/// envelope, decays below 0.3 and is shorter than 1.5 seconds, whatever else it
/// is. A `whoosh` is no impact, is noisy, does not last and is shorter than 4
/// seconds. What lasts, above 0.6, for more than 3 seconds is a `drone` when it
/// is tonal, and an `ambience` otherwise. Flatness below 0.15 is `tonal`, above
/// 0.5 `noisy`; a centre above 3000 hertz is `bright`, below 500 `dark`.
pub proof fn each_label_has_its_own_condition(f: Features, duration: u64)
    ensures
        sound_labels(f, duration).contains("impact"@) <==> less(f.attack_time_frac, 0x3e19_999a)
            && less(f.decay_ratio, 0x3e99_999a) && less_double(duration, 0x3ff8_0000_0000_0000),
        sound_labels(f, duration).contains("whoosh"@) <==> !sound_labels(f, duration).contains(
            "impact"@,
        ) && less(0x3f00_0000, f.spectral_flatness) && !less(0x3f19_999a, f.decay_ratio)
            && less_double(duration, 0x4010_0000_0000_0000),
        sound_labels(f, duration).contains("drone"@) <==> less(0x3f19_999a, f.decay_ratio)
            && less_double(0x4008_0000_0000_0000, duration) && less(
            f.spectral_flatness,
            0x3e19_999a,
        ),
        sound_labels(f, duration).contains("ambience"@) <==> less(0x3f19_999a, f.decay_ratio)
            && less_double(0x4008_0000_0000_0000, duration) && !less(
            f.spectral_flatness,
            0x3e19_999a,
        ),
        sound_labels(f, duration).contains("tonal"@) <==> less(f.spectral_flatness, 0x3e19_999a),
        sound_labels(f, duration).contains("noisy"@) <==> less(0x3f00_0000, f.spectral_flatness),
        sound_labels(f, duration).contains("bright"@) <==> less(
            0x453b_8000,
            f.spectral_centroid_hz,
        ),
        sound_labels(f, duration).contains("dark"@) <==> less(
            f.spectral_centroid_hz,
            0x43fa_0000,
        ),
{
    words_differ();
    let a = kind_label(f, duration);
    let b = tonal_label(f);
    let c = noisy_label(f);
    let d = color_label(f);
    assert forall|x: Seq<char>| #[trigger] sound_labels(f, duration).contains(x) <==> (a.len() == 1
        && a[0] == x) || (b.len() == 1 && b[0] == x) || (c.len() == 1 && c[0] == x) || (d.len() == 1
        && d[0] == x) by {
        in_labels(f, duration, x);
        in_one(a, x);
        in_one(b, x);
        in_one(c, x);
        in_one(d, x);
    }
}

/// The labels come in order: the kind first, then tonal or noisy, then the
/// color; none comes twice, and there is no other.
pub proof fn labels_come_in_order(f: Features, duration: u64)
    ensures
        sound_labels(f, duration).no_duplicates(),
        forall|x: Seq<char>| #[trigger]
            sound_labels(f, duration).contains(x) ==> x == "impact"@ || x == "whoosh"@ || x
                == "drone"@ || x == "ambience"@ || x == "tonal"@ || x == "noisy"@ || x == "bright"@
                || x == "dark"@,
        forall|x: Seq<char>|
            (x == "impact"@ || x == "whoosh"@ || x == "drone"@ || x == "ambience"@)
                && #[trigger] sound_labels(f, duration).contains(x) ==> sound_labels(
                f,
                duration,
            ).first() == x,
        forall|x: Seq<char>|
            (x == "bright"@ || x == "dark"@) && #[trigger] sound_labels(f, duration).contains(x)
                ==> sound_labels(f, duration).last() == x,
{
    words_differ();
    let a = kind_label(f, duration);
    let b = tonal_label(f);
    let c = noisy_label(f);
    let d = color_label(f);
    let l = sound_labels(f, duration);
    assert forall|x: Seq<char>| #[trigger] l.contains(x) <==> (a.len() == 1 && a[0] == x) || (
    b.len() == 1 && b[0] == x) || (c.len() == 1 && c[0] == x) || (d.len() == 1 && d[0] == x) by {
        in_labels(f, duration, x);
        in_one(a, x);
        in_one(b, x);
        in_one(c, x);
        in_one(d, x);
    }
    assert forall|i: int, j: int| 0 <= i < l.len() && 0 <= j < l.len() && i != j implies l[i]
        != l[j] by {}
}

/// What fits is kept from the front on, as much as there is room for.
pub proof fn as_much_as_fits_is_kept<T>(samples: Seq<T>, limit: int)
    requires
        limit >= 0,
    ensures
        up_to(samples, limit).len() == if samples.len() < limit {
            samples.len() as int
        } else {
            limit
        },
        forall|i: int|
            0 <= i < up_to(samples, limit).len() ==> #[trigger] up_to(samples, limit)[i]
                == samples[i],
{
}

/// The windows of the envelope are as long as fifty of them fit, and one sample
/// at least.
pub proof fn fifty_windows_fit(count: int)
    requires
        count >= 0,
    ensures
        envelope_window(count) >= 1,
        envelope_window(count) > 1 ==> envelope_window(count) * 50 <= count,
        (envelope_window(count) + 1) * 50 > count,
{
}

/// Windows leave no sample out and take none twice: every sample lies in exactly
/// one.
pub proof fn every_sample_is_in_one_window(
    windows: Seq<(usize, usize)>,
    count: int,
    size: int,
    s: int,
)
    requires
        cuts(windows, count, size),
        size > 0,
        0 <= s < count,
    ensures
        exists|k: int|
            0 <= k < windows.len() && (#[trigger] windows[k]).0 <= s < windows[k].1,
        forall|k: int, m: int|
            0 <= k < windows.len() && 0 <= m < windows.len() && (#[trigger] windows[k]).0 <= s
                < windows[k].1 && (#[trigger] windows[m]).0 <= s < windows[m].1 ==> k == m,
        forall|k: int|
            0 <= k < windows.len() - 1 ==> (#[trigger] windows[k]).1 - windows[k].0 == size,
{
    let k = s / size;
    let n = windows.len() as int;
    assert(0 <= k && k * size <= s && s < k * size + size) by (nonlinear_arith)
        requires
            size > 0,
            0 <= s,
            k == s / size,
    ;
    if k >= n {
        assert(k * size >= n * size) by (nonlinear_arith)
            requires
                k >= n,
                size > 0,
        ;
    }
    assert(windows[k].0 <= s < windows[k].1);
    assert forall|p: int, m: int|
        0 <= p < n && 0 <= m < n && (#[trigger] windows[p]).0 <= s < windows[p].1 && (
        #[trigger] windows[m]).0 <= s < windows[m].1 implies p == m by {
        if p < m {
            assert(p * size + size <= m * size) by (nonlinear_arith)
                requires
                    p + 1 <= m,
                    size > 0,
            ;
        }
        if m < p {
            assert(m * size + size <= p * size) by (nonlinear_arith)
                requires
                    m + 1 <= p,
                    size > 0,
            ;
        }
    }
    assert forall|p: int| 0 <= p < n - 1 implies (#[trigger] windows[p]).1 - windows[p].0
        == size by {
        assert(p * size + size <= (n - 1) * size) by (nonlinear_arith)
            requires
                p + 1 <= n - 1,
                size > 0,
        ;
    }
}

/// The peak of an envelope is not below any other place, and above every place
/// behind it.
pub proof fn peak_is_the_last_highest(envelope: Seq<u32>, k: int)
    requires
        is_peak(envelope, k),
    ensures
        0 <= k < envelope.len(),
        forall|j: int|
            0 <= j < envelope.len() ==> total_rank(#[trigger] envelope[j]) <= total_rank(
                envelope[k],
            ),
        forall|j: int|
            0 <= j < envelope.len() && total_rank(#[trigger] envelope[j]) == total_rank(envelope[k])
                ==> j <= k,
{
}

/// The sizes of the spectrum are the powers of two from 256 to 65536, and the
/// size asked for is the lesser of all the samples and one second.
pub proof fn spectrum_sizes_are_powers_of_two(n: int, count: int, sample_rate: int)
    ensures
        is_fft_size(n) <==> 256 <= n <= 65536 && (n == 256 || n % 2 == 0 && is_fft_size(n / 2)),
        fft_wish(count, sample_rate) <= count && fft_wish(count, sample_rate) <= sample_rate,
        fft_wish(count, sample_rate) == count || fft_wish(count, sample_rate) == sample_rate,
{
}

} // verus!
