use fxbrowser::dsp::{
    classify, enough_samples, envelope_windows, fft_length, peak_index, sample_budget, track_rate,
    window_bounds, Features, MonoBuffer,
};
use fxbrowser::ieee::{extremes, is_less, is_less_double, rank, LARGEST, LEAST};
use fxbrowser::player::{
    band_bins, band_peak, spectrum_ready, AudioStep, Deck, PlayerCommand, RingBuffer, TapCounter,
    RING_SIZE,
};
use fxbrowser::tags::pack_labels;
use fxbrowser::waveform::{bucket_count, compute_peaks, packet_step, Lanes, PacketStep};

#[test]
fn ring_keeps_the_most_recent() {
    let mut ring = RingBuffer::new(4, 0.0f32);
    assert_eq!(ring.snapshot(), Vec::<f32>::new());
    for n in 1..=3 {
        ring.push(n as f32);
    }
    assert_eq!(ring.snapshot(), vec![1.0, 2.0, 3.0]);
    ring.push(4.0);
    assert_eq!(ring.snapshot(), vec![1.0, 2.0, 3.0, 4.0]);
    for n in 5..=10 {
        ring.push(n as f32);
    }
    assert_eq!(ring.snapshot(), vec![7.0, 8.0, 9.0, 10.0]);
}

#[test]
fn ring_of_one_place() {
    let mut ring = RingBuffer::new(1, 0u8);
    ring.push(3);
    ring.push(9);
    assert_eq!(ring.snapshot(), vec![9]);
    assert_eq!(RingBuffer::new(0, 0u8).snapshot(), Vec::<u8>::new());
}

#[test]
fn tap_counts_windows_and_frames() {
    let mut tap = TapCounter::new(44100, 2);
    let mut levels = Vec::new();
    let mut frames = 0;
    for n in 1..=4000u32 {
        let event = tap.count();
        if event.level_due {
            levels.push(n);
        }
        if let Some(size) = event.frame_done {
            assert_eq!(size, 2);
            frames += 1;
        }
    }
    assert_eq!(levels, vec![2646]);
    assert_eq!(frames, 2000);
}

#[test]
fn level_windows_last_thirty_milliseconds() {
    for (rate, channels, window) in
        [(44100, 1, 1323), (48000, 2, 2880), (96000, 6, 17280), (2000, 1, 64), (0, 2, 64)]
    {
        let mut tap = TapCounter::new(rate, channels);
        let first = (1..=20000u32).find(|_| tap.count().level_due);
        assert_eq!(first, Some(window));
    }
}

#[test]
fn tap_has_a_smallest_window_and_frame() {
    let mut tap = TapCounter::new(8, 0);
    for n in 1..=128u32 {
        let event = tap.count();
        assert_eq!(event.level_due, n % 64 == 0);
        assert_eq!(event.frame_done, Some(1));
    }
}

fn written(steps: Vec<AudioStep>) -> Vec<String> {
    steps
        .into_iter()
        .map(|step| match step {
            AudioStep::StopSink => "stop".to_string(),
            AudioStep::Load { path, looped } => format!("load {path} {looped}"),
            AudioStep::SetLevel(level) => format!("level {}", f32::from_bits(level)),
            AudioStep::ClearRing => "clear".to_string(),
            AudioStep::MoveTo(to) => format!("move {}", f64::from_bits(to)),
        })
        .collect()
}

fn play(path: &str, looped: bool) -> PlayerCommand {
    PlayerCommand::Play(path.to_string(), looped)
}

fn seek(secs: f64) -> PlayerCommand {
    PlayerCommand::Seek(secs.to_bits())
}

#[test]
fn deck_takes_commands() {
    let mut deck = Deck::new();
    assert!(written(deck.handle(seek(1.5))).is_empty());
    assert_eq!(written(deck.handle(play("a.wav", true))), ["load a.wav true"]);
    deck.loaded(true);
    assert_eq!(written(deck.handle(seek(1.5))), ["move 1.5"]);
    assert_eq!(written(deck.handle(play("b.wav", false))), ["stop", "load b.wav false"]);
    deck.loaded(false);
    assert_eq!(written(deck.handle(PlayerCommand::Stop)), ["level 0", "clear"]);
    assert_eq!(written(deck.handle(play("c.wav", false))), ["load c.wav false"]);
    deck.loaded(true);
    assert_eq!(written(deck.handle(PlayerCommand::Stop)), ["stop", "level 0", "clear"]);
    assert!(written(deck.handle(seek(0.0))).is_empty());
}

#[test]
fn nothing_is_moved_before_the_beginning() {
    let mut deck = Deck::new();
    deck.handle(play("a.wav", false));
    deck.loaded(true);
    for (asked, given) in [(-3.0, 0.0), (f64::NAN, 0.0), (0.0, 0.0), (2.25, 2.25)] {
        assert_eq!(written(deck.handle(seek(asked))), [format!("move {given}")]);
    }
}

#[test]
fn there_is_at_most_one_sink() {
    let loads = [true, false, true, true, false];
    let mut deck = Deck::new();
    let mut sinks = 0;
    for round in 0..200usize {
        let command = match round * 7 % 5 {
            0 | 1 => play("x.wav", round % 2 == 0),
            2 => PlayerCommand::Stop,
            _ => seek(round as f64),
        };
        let stops = matches!(command, PlayerCommand::Stop);
        for step in deck.handle(command) {
            match step {
                AudioStep::StopSink => sinks -= 1,
                AudioStep::Load { .. } => {
                    assert_eq!(sinks, 0);
                    let loaded = loads[round % 3];
                    sinks += loaded as i32;
                    deck.loaded(loaded);
                }
                AudioStep::MoveTo(_) => assert_eq!(sinks, 1),
                AudioStep::SetLevel(_) | AudioStep::ClearRing => {}
            }
            assert!(0 <= sinks && sinks <= 1);
        }
        assert!(!stops || sinks == 0);
    }
}

#[test]
fn bars_show_at_least_one_bin() {
    assert_eq!(band_bins(0, 0, 1024), (1, 2));
    assert_eq!(band_bins(10, 12, 1024), (10, 12));
    assert_eq!(band_bins(5000, 9000, 1024), (1023, 1024));
    assert_eq!(band_bins(1000, 5000, 1024), (1000, 1024));
    assert_eq!(band_bins(7, 3, 1024), (7, 8));
    assert!(spectrum_ready(RING_SIZE));
    assert!(!spectrum_ready(RING_SIZE - 1));
}

#[test]
fn bar_peak_is_the_highest_magnitude() {
    let mags: Vec<u32> = [0.5f32, 2.0, f32::NAN, 1.0].iter().map(|x| x.to_bits()).collect();
    assert_eq!(f32::from_bits(band_peak(&mags, 0, 4)), 2.0);
    assert_eq!(f32::from_bits(band_peak(&mags, 2, 3)), 0.0);
}

#[test]
fn bits_compare_like_numbers() {
    let xs = [
        0.0f32, -0.0, 1.0, -1.0, 0.15, f32::MAX, f32::MIN, f32::INFINITY, f32::NEG_INFINITY,
        f32::NAN, -f32::NAN, f32::MIN_POSITIVE, 1e-45,
    ];
    for a in xs {
        for b in xs {
            assert_eq!(is_less(a.to_bits(), b.to_bits()), a < b, "{a} {b}");
            assert_eq!(rank(a.to_bits()) < rank(b.to_bits()), a.total_cmp(&b).is_lt());
            assert_eq!(
                is_less_double((a as f64).to_bits(), (b as f64).to_bits()),
                (a as f64) < (b as f64)
            );
        }
    }
    assert_eq!(f32::from_bits(LARGEST), f32::MAX);
    assert_eq!(f32::from_bits(LEAST), f32::MIN);
}

#[test]
fn extremes_pass_over_what_is_no_number() {
    let xs: Vec<u32> = [3.0f32, f32::NAN, -2.0, 7.5].iter().map(|x| x.to_bits()).collect();
    let (lo, hi) = extremes(&xs, 0, 4, LARGEST, LEAST);
    assert_eq!((f32::from_bits(lo), f32::from_bits(hi)), (-2.0, 7.5));
    let (lo, hi) = extremes(&xs, 1, 2, LARGEST, LEAST);
    assert_eq!((f32::from_bits(lo), f32::from_bits(hi)), (f32::MAX, f32::MIN));
}

fn peaks(samples: &[f32], buckets: usize) -> Vec<(f32, f32)> {
    let lane: Vec<u32> = samples.iter().map(|x| x.to_bits()).collect();
    compute_peaks(&vec![lane], buckets)[0]
        .iter()
        .map(|(lo, hi)| (f32::from_bits(*lo), f32::from_bits(*hi)))
        .collect()
}

#[test]
fn peaks_per_bucket() {
    let samples = [0.1f32, -0.4, 0.3, 0.2, -0.9, 0.8];
    assert_eq!(peaks(&samples, 3), vec![(-0.4, 0.1), (0.2, 0.3), (-0.9, 0.8)]);
    assert_eq!(peaks(&samples, 1), vec![(-0.9, 0.8)]);
    assert_eq!(peaks(&samples, 0), vec![(-0.9, 0.8)]);
}

#[test]
fn there_are_as_many_peaks_as_buckets() {
    for len in [1usize, 2, 5, 7, 799, 800, 801] {
        for buckets in [1usize, 2, 3, 400] {
            let samples: Vec<f32> = (0..len).map(|i| i as f32).collect();
            let got = peaks(&samples, buckets);
            assert_eq!(got.len(), buckets);
            assert_eq!(got[0].0, 0.0);
            assert_eq!(got[buckets - 1].1, (len - 1) as f32);
        }
    }
}

#[test]
fn every_sample_lies_within_a_peak() {
    for len in [1usize, 3, 10, 257] {
        for buckets in [1usize, 2, 7, 300] {
            let samples: Vec<f32> =
                (0..len).map(|i| ((i * 37 % 101) as f32 - 50.0) / 50.0).collect();
            let got = peaks(&samples, buckets);
            for s in samples {
                assert!(got.iter().any(|(lo, hi)| *lo <= s && s <= *hi));
            }
        }
    }
}

#[test]
fn lanes_without_samples_have_no_peaks() {
    let lanes = vec![Vec::new(), vec![1.0f32.to_bits()]];
    assert_eq!(compute_peaks(&lanes, 2), vec![vec![(1.0f32.to_bits(), 1.0f32.to_bits()); 2]]);
    assert_eq!(bucket_count(None), 400);
    assert_eq!(bucket_count(Some(7)), 7);
}

#[test]
fn lanes_take_packets_apart() {
    let mut lanes = Lanes::new();
    lanes.accept(&vec![1, 2, 3, 4, 5], 2, 0);
    lanes.accept(&vec![6, 7], 2, 0);
    assert_eq!(lanes.finish(), Some(vec![vec![1, 3, 5, 6], vec![2, 4, 0, 7]]));
}

#[test]
fn more_than_two_channels_are_cut_to_two() {
    let mut lanes = Lanes::new();
    lanes.accept(&vec![1, 2, 3, 4, 5, 6], 3, 0);
    assert_eq!(lanes.finish(), Some(vec![vec![1, 4], vec![2, 5]]));
}

#[test]
fn the_first_packet_settles_the_lanes() {
    let mut lanes = Lanes::new();
    lanes.accept(&Vec::new(), 2, 0);
    lanes.accept(&vec![8, 9], 1, 0);
    assert_eq!(lanes.finish(), Some(vec![vec![8, 9], vec![0, 0]]));
    let mut mono = Lanes::new();
    mono.accept(&vec![1], 0, 0);
    mono.accept(&vec![2, 3], 2, 0);
    assert_eq!(mono.finish(), Some(vec![vec![1, 2]]));
}

#[test]
fn no_samples_no_lanes() {
    let mut lanes: Lanes<u8> = Lanes::new();
    lanes.accept(&Vec::new(), 2, 0);
    assert_eq!(lanes.finish(), None);
    let none: Lanes<u8> = Lanes::new();
    assert_eq!(none.finish(), None);
}

#[test]
fn packets_of_other_tracks_are_skipped() {
    assert_eq!(packet_step(3, Some(3)), PacketStep::Decode);
    assert_eq!(packet_step(3, Some(4)), PacketStep::Skip);
    assert_eq!(packet_step(3, None), PacketStep::Finish);
}

#[test]
fn mono_buffer_is_full_after_eight_seconds() {
    assert_eq!(sample_budget(44100), 352800);
    assert_eq!(track_rate(None), 44100);
    assert_eq!(track_rate(Some(48000)), 48000);
    let mut buffer = MonoBuffer::new(1);
    assert!(buffer.wants_more());
    buffer.accept(&vec![1, 2, 3, 4, 5]);
    assert!(buffer.wants_more());
    buffer.accept(&vec![6, 7, 8, 9, 10]);
    assert!(!buffer.wants_more());
    buffer.accept(&vec![11]);
    assert_eq!(buffer.finish(), Some(vec![1, 2, 3, 4, 5, 6, 7, 8]));
    let empty: MonoBuffer<u8> = MonoBuffer::new(1);
    assert_eq!(empty.finish(), None);
}

#[test]
fn windows_cut_without_gaps() {
    assert_eq!(window_bounds(7, 3), vec![(0, 3), (3, 6), (6, 7)]);
    assert_eq!(window_bounds(6, 3), vec![(0, 3), (3, 6)]);
    assert_eq!(window_bounds(0, 3), Vec::<(usize, usize)>::new());
    assert_eq!(window_bounds(5, usize::MAX), vec![(0, 5)]);
    assert_eq!(envelope_windows(100).len(), 50);
    assert_eq!(envelope_windows(100)[0], (0, 2));
    assert_eq!(envelope_windows(10).len(), 10);
    assert_eq!(envelope_windows(149).len(), 75);
    assert!(enough_samples(64));
    assert!(!enough_samples(63));
}

#[test]
fn last_peak_of_the_envelope() {
    let bits = |xs: &[f32]| -> Vec<u32> { xs.iter().map(|x| x.to_bits()).collect() };
    assert_eq!(peak_index(&bits(&[0.1, 0.7, 0.3, 0.7, 0.2])), Some(3));
    assert_eq!(peak_index(&bits(&[0.0])), Some(0));
    assert_eq!(peak_index(&bits(&[])), None);
    assert_eq!(peak_index(&bits(&[0.5, f32::NAN, 9.0])), Some(1));
}

#[test]
fn spectrum_length_is_a_power_of_two() {
    for (count, rate) in [
        (0usize, 0u32), (64, 44100), (257, 44100), (44100, 44100), (400000, 44100), (70000, 96000),
        (512, 96000), (513, 96000), (usize::MAX, 192000), (40000, 8000),
    ] {
        let expected = count.min(rate as usize).next_power_of_two().clamp(256, 65536);
        assert_eq!(fft_length(count, rate), expected);
    }
}

fn labels(attack: f32, decay: f32, centroid: f32, flatness: f32, secs: f64) -> Vec<&'static str> {
    let f = Features {
        attack_time_frac: attack.to_bits(),
        decay_ratio: decay.to_bits(),
        spectral_centroid_hz: centroid.to_bits(),
        spectral_flatness: flatness.to_bits(),
    };
    classify(&f, secs.to_bits())
}

#[test]
fn rules_give_labels() {
    assert_eq!(labels(0.05, 0.1, 4000.0, 0.3, 0.4), vec!["impact", "bright"]);
    assert_eq!(labels(0.5, 0.4, 1000.0, 0.7, 2.0), vec!["whoosh", "noisy"]);
    assert_eq!(labels(0.5, 0.9, 200.0, 0.05, 12.0), vec!["drone", "tonal", "dark"]);
    assert_eq!(labels(0.5, 0.9, 1000.0, 0.3, 12.0), vec!["ambience"]);
    assert_eq!(labels(0.5, 0.5, 1000.0, 0.3, 12.0), Vec::<&str>::new());
}

#[test]
fn labels_are_few_and_never_contradict() {
    let words =
        ["impact", "whoosh", "drone", "ambience", "tonal", "noisy", "bright", "dark"];
    let steps = [0.0f32, 0.1, 0.2, 0.4, 0.55, 0.7, 1.0];
    for attack in steps {
        for decay in steps {
            for flatness in steps {
                for centroid in [100.0f32, 1000.0, 5000.0] {
                    for secs in [0.5f64, 2.0, 3.5, 10.0] {
                        let got = labels(attack, decay, centroid, flatness, secs);
                        assert!(got.len() <= 3);
                        assert!(got.iter().all(|l| words.contains(l)));
                        assert!(!(got.contains(&"tonal") && got.contains(&"noisy")));
                        let text = pack_labels(&got).unwrap_or_default();
                        for w in words {
                            assert_eq!(text.contains(&format!(",{w},")), got.contains(&w));
                        }
                    }
                }
            }
        }
    }
}

#[test]
fn thresholds_are_exclusive() {
    assert_eq!(labels(0.15, 0.1, 500.0, 0.15, 1.0), Vec::<&str>::new());
    assert_eq!(labels(0.1, 0.3, 3000.0, 0.5, 1.0), Vec::<&str>::new());
    assert_eq!(labels(0.1, 0.1, 1000.0, 0.3, 1.5), Vec::<&str>::new());
    assert_eq!(labels(0.9, 0.6, 1000.0, 0.3, 9.0), Vec::<&str>::new());
    assert_eq!(labels(0.9, 0.9, 1000.0, 0.3, 3.0), Vec::<&str>::new());
    assert_eq!(labels(0.9, 0.1, 1000.0, 0.6, 4.0), vec!["noisy"]);
    assert_eq!(labels(f32::NAN, f32::NAN, f32::NAN, f32::NAN, f64::NAN), Vec::<&str>::new());
    let below = f32::from_bits(0.15f32.to_bits() - 1);
    assert_eq!(labels(below, 0.1, 1000.0, below, 1.0), vec!["impact", "tonal"]);
}
