//! Playback: what the player does with a command, what the level meter and the
//! spectrum analyzer are fed with, and which part of the spectrum a bar shows.
//!
//! Samples pass through as they are, so what is here works for samples of any
//! type. Levels, magnitudes and positions are known by their bits.

use vstd::prelude::*;

use crate::ieee::{extremes, greatest_of, no_less_than, raise, ZERO};

verus! {

/// How many mono samples the spectrum is taken over.
pub const RING_SIZE: usize = 2048;

// ---------------------------------------------------------------------------
// The most recent samples
// ---------------------------------------------------------------------------

/// A circular buffer of the most recent samples.
pub struct RingBuffer<T> {
    buf: Vec<T>,
    pos: usize,
    filled: bool,
}

/// The last `n` of the samples, or all of them when there are fewer.
pub open spec fn most_recent<T>(samples: Seq<T>, n: int) -> Seq<T> {
    if samples.len() <= n {
        samples
    } else {
        samples.skip(samples.len() - n)
    }
}

impl<T> View for RingBuffer<T> {
    type V = Seq<T>;

    /// The samples that it holds, oldest first.
    closed spec fn view(&self) -> Seq<T> {
        if self.filled {
            self.buf@.skip(self.pos as int) + self.buf@.take(self.pos as int)
        } else {
            self.buf@.take(self.pos as int)
        }
    }
}

impl<T: Copy> RingBuffer<T> {
    /// How many samples it can hold.
    pub closed spec fn capacity(&self) -> int {
        self.buf@.len() as int
    }

    /// The next sample goes to a place in the buffer.
    pub closed spec fn well_formed(&self) -> bool {
        self.pos < self.buf@.len() || self.buf@.len() == 0 && self.pos == 0
    }

    /// A buffer for `size` samples, without any. `blank` fills the places that
    /// no sample has taken yet.
    pub fn new(size: usize, blank: T) -> (r: RingBuffer<T>)
        ensures
            r.well_formed(),
            r.capacity() == size,
            r@ == Seq::<T>::empty(),
    {
        let mut buf: Vec<T> = Vec::new();
        let mut i: usize = 0;
        while i < size
            invariant
                i <= size,
                buf@.len() == i,
            decreases size - i,
        {
            buf.push(blank);
            i += 1;
        }
        let r = RingBuffer { buf, pos: 0, filled: false };
        assert(r@ =~= Seq::<T>::empty());
        r
    }

    /// Takes in a sample; when the buffer is full, the oldest one leaves.
    pub fn push(&mut self, sample: T)
        requires
            old(self).well_formed(),
            old(self).capacity() > 0,
        ensures
            final(self).well_formed(),
            final(self).capacity() == old(self).capacity(),
            final(self)@ == most_recent(old(self)@.push(sample), old(self).capacity()),
    {
        let ghost before = self@;
        let ghost had = self.buf@;
        let ghost at = self.pos as int;
        let ghost was_filled = self.filled;
        self.buf.set(self.pos, sample);
        if self.pos == self.buf.len() - 1 {
            self.pos = 0;
            self.filled = true;
        } else {
            self.pos = self.pos + 1;
        }
        proof {
            let now = self.buf@;
            assert(now =~= had.update(at, sample));
            if was_filled {
                assert(before.push(sample).len() == now.len() + 1);
                assert(most_recent(before.push(sample), now.len() as int) =~= before.push(
                    sample,
                ).skip(1));
                assert(self@ =~= before.push(sample).skip(1));
            } else {
                assert(before.push(sample).len() <= now.len());
                assert(self@ =~= before.push(sample));
            }
        }
    }

    /// The samples that it holds, oldest first.
    pub fn snapshot(&self) -> (r: Vec<T>)
        requires
            self.well_formed(),
        ensures
            r@ == self@,
    {
        let mut out: Vec<T> = Vec::new();
        let len: usize = self.buf.len();
        if self.filled {
            let mut i: usize = self.pos;
            while i < len
                invariant
                    self.pos <= i <= len == self.buf@.len(),
                    out@ == self.buf@.subrange(self.pos as int, i as int),
                decreases len - i,
            {
                out.push(self.buf[i]);
                i += 1;
                assert(out@ =~= self.buf@.subrange(self.pos as int, i as int));
            }
            assert(out@ =~= self.buf@.skip(self.pos as int));
        }
        let ghost front = out@;
        let mut k: usize = 0;
        assert(front + self.buf@.take(0) =~= front);
        while k < self.pos
            invariant
                k <= self.pos <= self.buf@.len(),
                out@ == front + self.buf@.take(k as int),
            decreases self.pos - k,
        {
            out.push(self.buf[k]);
            k += 1;
            assert(out@ =~= front + self.buf@.take(k as int));
        }
        assert(out@ =~= self@);
        out
    }
}

/// What a buffer of `n` places holds after the samples, one by one.
pub open spec fn after_pushes<T>(samples: Seq<T>, n: int) -> Seq<T>
    decreases samples.len(),
{
    if samples.len() == 0 {
        Seq::empty()
    } else {
        most_recent(after_pushes(samples.drop_last(), n).push(samples.last()), n)
    }
}

/// However many samples went in, the buffer holds the most recent ones in the
/// order in which they came.
pub proof fn ring_holds_the_most_recent<T>(samples: Seq<T>, n: int)
    requires
        n > 0,
    ensures
        after_pushes(samples, n) == most_recent(samples, n),
    decreases samples.len(),
{
    if samples.len() > 0 {
        let rest = samples.drop_last();
        ring_holds_the_most_recent(rest, n);
        assert(rest.push(samples.last()) =~= samples);
        if samples.len() > n {
            assert(most_recent(most_recent(rest, n).push(samples.last()), n) =~= most_recent(
                samples,
                n,
            ));
        }
    } else {
        assert(most_recent(samples, n) =~= Seq::empty());
    }
}

// ---------------------------------------------------------------------------
// The tap
// ---------------------------------------------------------------------------

/// How many samples a frame has: one per channel, and at least one.
pub open spec fn tap_frame(channels: u16) -> int {
    if channels < 1 {
        1
    } else {
        channels as int
    }
}

/// How many samples the level is taken over: as many as are played in thirty
/// milliseconds, all channels together, and at least sixty-four.
pub open spec fn level_window(sample_rate: u32, channels: u16) -> int {
    let n = sample_rate * tap_frame(channels) * 30 / 1000;
    if n < 64 {
        64
    } else {
        n
    }
}

/// What a sample completes.
#[derive(Clone, Copy, Debug, PartialEq, Eq, Structural)]
pub struct TapEvent {
    /// The level of the samples since the last time is due.
    pub level_due: bool,
    /// The frame is complete, and has this many samples.
    pub frame_done: Option<u16>,
}

/// Keeps count of the samples that pass by: for the level meter in windows, for
/// the spectrum analyzer in frames of one sample per channel.
pub struct TapCounter {
    window_size: u64,
    window_len: u64,
    channels: u16,
    chan_idx: u16,
}

impl TapCounter {
    /// How many samples make a window.
    pub closed spec fn window(&self) -> int {
        self.window_size as int
    }

    /// How many samples make a frame.
    pub closed spec fn frame(&self) -> int {
        tap_frame(self.channels)
    }

    /// How many samples of the current window have passed.
    pub closed spec fn in_window(&self) -> int {
        self.window_len as int
    }

    /// How many samples of the current frame have passed.
    pub closed spec fn in_frame(&self) -> int {
        self.chan_idx as int
    }

    /// Neither the window nor the frame is complete.
    pub open spec fn well_formed(&self) -> bool {
        &&& 0 <= self.in_window() < self.window()
        &&& 0 <= self.in_frame() < self.frame()
    }

    /// A count for a stream of this sample rate and this many channels.
    pub fn new(sample_rate: u32, channels: u16) -> (r: TapCounter)
        ensures
            r.well_formed(),
            r.window() == level_window(sample_rate, channels),
            r.frame() == tap_frame(channels),
            r.in_window() == 0,
            r.in_frame() == 0,
    {
        let frame: u64 = if channels < 1 {
            1
        } else {
            channels as u64
        };
        assert(0 <= sample_rate * frame <= 0xffff_ffff * 0xffff) by (nonlinear_arith)
            requires
                0 <= sample_rate <= 0xffff_ffff,
                0 <= frame <= 0xffff,
        ;
        let n: u64 = sample_rate as u64 * frame * 30 / 1000;
        let window_size: u64 = if n < 64 {
            64
        } else {
            n
        };
        TapCounter { window_size, window_len: 0, channels, chan_idx: 0 }
    }

    /// Counts one sample.
    pub fn count(&mut self) -> (r: TapEvent)
        requires
            old(self).well_formed(),
        ensures
            final(self).well_formed(),
            final(self).window() == old(self).window(),
            final(self).frame() == old(self).frame(),
            r.level_due == (old(self).in_window() + 1 == old(self).window()),
            final(self).in_window() == if r.level_due {
                0
            } else {
                old(self).in_window() + 1
            },
            match r.frame_done {
                Some(n) => n == old(self).frame() && old(self).in_frame() + 1 == old(self).frame()
                    && final(self).in_frame() == 0,
                None => old(self).in_frame() + 1 < old(self).frame() && final(self).in_frame()
                    == old(self).in_frame() + 1,
            },
    {
        self.window_len = self.window_len + 1;
        let level_due: bool = self.window_len >= self.window_size;
        if level_due {
            self.window_len = 0;
        }
        self.chan_idx = self.chan_idx + 1;
        let frame: u16 = if self.channels < 1 {
            1
        } else {
            self.channels
        };
        let frame_done: Option<u16> = if self.chan_idx >= frame {
            let n: u16 = self.chan_idx;
            self.chan_idx = 0;
            Some(n)
        } else {
            None
        };
        TapEvent { level_due, frame_done }
    }
}

/// How many frames are complete after `n` samples, when `done` samples of the
/// current one had passed before.
pub open spec fn frames_after(n: nat, done: int, frame: int) -> int
    decreases n,
{
    if n == 0 {
        0
    } else if done + 1 == frame {
        1 + frames_after((n - 1) as nat, 0, frame)
    } else {
        frames_after((n - 1) as nat, done + 1, frame)
    }
}

/// The analyzer is fed one mono sample for every full frame, and nothing is
/// left over or counted twice.
pub proof fn one_mono_sample_per_frame(n: nat, done: int, frame: int)
    requires
        0 <= done < frame,
    ensures
        frames_after(n, done, frame) == (done + n) / frame,
    decreases n,
{
    if n == 0 {
        assert(done / frame == 0) by (nonlinear_arith)
            requires
                0 <= done < frame,
        ;
    } else if done + 1 == frame {
        one_mono_sample_per_frame((n - 1) as nat, 0, frame);
        let m = n - 1;
        assert((frame + m) / frame == 1 + m / frame) by (nonlinear_arith)
            requires
                frame > 0,
        ;
        assert(done + n == frame + m);
    } else {
        one_mono_sample_per_frame((n - 1) as nat, done + 1, frame);
    }
}

// ---------------------------------------------------------------------------
// Commands
// ---------------------------------------------------------------------------

/// What the player is told to do.
pub enum PlayerCommand {
    /// Play the file at the path, and over again when the flag is set.
    Play(String, bool),
    /// Fall silent.
    Stop,
    /// Go on from a position in seconds, by the bits of a double precision
    /// number.
    Seek(u64),
}

/// One thing that the audio thread does.
pub enum AudioStep {
    /// Stop the sink and let go of it.
    StopSink,
    /// Make a sink for the file, over again when the flag is set.
    Load { path: String, looped: bool },
    /// Show a level, by the bits of a single precision number.
    SetLevel(u32),
    /// Forget the recent samples.
    ClearRing,
    /// Move the sink to a position in seconds.
    MoveTo(u64),
}

/// What is done about a command, in order, when there is a sink or not.
pub open spec fn steps(has_sink: bool, command: PlayerCommand) -> Seq<AudioStep> {
    let stop = if has_sink {
        seq![AudioStep::StopSink]
    } else {
        Seq::empty()
    };
    match command {
        PlayerCommand::Play(path, looped) => stop + seq![AudioStep::Load { path, looped }],
        PlayerCommand::Stop => stop + seq![AudioStep::SetLevel(ZERO), AudioStep::ClearRing],
        PlayerCommand::Seek(to) => if has_sink {
            seq![AudioStep::MoveTo(no_less_than(to, 0))]
        } else {
            Seq::empty()
        },
    }
}

/// The state of the audio thread: whether there is a sink.
pub struct Deck {
    has_sink: bool,
}

impl Deck {
    /// Whether there is a sink.
    pub closed spec fn is_playing(&self) -> bool {
        self.has_sink
    }

    /// There is no sink.
    pub fn new() -> (r: Deck)
        ensures
            !r.is_playing(),
    {
        Deck { has_sink: false }
    }

    /// Takes a command, and says what to do about it. The sink is given up for
    /// `Play` and `Stop`, and stays for `Seek`.
    pub fn handle(&mut self, command: PlayerCommand) -> (r: Vec<AudioStep>)
        ensures
            r@ == steps(old(self).is_playing(), command),
            final(self).is_playing() == (command is Seek && old(self).is_playing()),
    {
        let mut out: Vec<AudioStep> = Vec::new();
        match command {
            PlayerCommand::Play(path, looped) => {
                if self.has_sink {
                    out.push(AudioStep::StopSink);
                }
                out.push(AudioStep::Load { path, looped });
                self.has_sink = false;
            },
            PlayerCommand::Stop => {
                if self.has_sink {
                    out.push(AudioStep::StopSink);
                }
                out.push(AudioStep::SetLevel(ZERO));
                out.push(AudioStep::ClearRing);
                self.has_sink = false;
            },
            PlayerCommand::Seek(to) => {
                if self.has_sink {
                    out.push(AudioStep::MoveTo(raise(to, 0)));
                }
            },
        }
        assert(out@ =~= steps(old(self).is_playing(), command));
        out
    }

    /// A file was loaded, or could not be.
    pub fn loaded(&mut self, success: bool)
        ensures
            final(self).is_playing() == success,
    {
        self.has_sink = success;
    }
}

/// What can be heard and seen: the files that sinks play, with the position
/// each was last moved to, the level, and the recent samples.
#[verifier::ext_equal]
pub struct Audio<T> {
    pub sinks: Seq<(Seq<char>, bool, Option<u64>)>,
    pub level: u32,
    pub recent: Seq<T>,
}

/// What one step changes. `loads` says whether a file can be loaded.
pub open spec fn after_step<T>(audio: Audio<T>, step: AudioStep, loads: bool) -> Audio<T> {
    match step {
        AudioStep::StopSink => Audio { sinks: audio.sinks.drop_last(), ..audio },
        AudioStep::Load { path, looped } => if loads {
            Audio { sinks: audio.sinks.push((path@, looped, None)), ..audio }
        } else {
            audio
        },
        AudioStep::SetLevel(level) => Audio { level, ..audio },
        AudioStep::ClearRing => Audio { recent: Seq::empty(), ..audio },
        AudioStep::MoveTo(to) => Audio {
            sinks: audio.sinks.drop_last().push(
                (audio.sinks.last().0, audio.sinks.last().1, Some(to)),
            ),
            ..audio
        },
    }
}

/// What the steps change, in order.
pub open spec fn after_steps<T>(audio: Audio<T>, done: Seq<AudioStep>, loads: bool) -> Audio<T>
    decreases done.len(),
{
    if done.len() == 0 {
        audio
    } else {
        after_step(after_steps(audio, done.drop_last(), loads), done.last(), loads)
    }
}

/// What a command changes.
pub open spec fn after_command<T>(
    audio: Audio<T>,
    command: PlayerCommand,
    loads: bool,
) -> Audio<T> {
    after_steps(audio, steps(audio.sinks.len() > 0, command), loads)
}

/// What the commands change, in the order in which they were sent. `loads[i]`
/// says whether the file of command `i` can be loaded.
pub open spec fn after_commands<T>(
    audio: Audio<T>,
    commands: Seq<PlayerCommand>,
    loads: Seq<bool>,
) -> Audio<T>
    decreases commands.len(),
{
    if commands.len() == 0 {
        audio
    } else {
        after_command(
            after_commands(audio, commands.drop_last(), loads),
            commands.last(),
            loads[commands.len() - 1],
        )
    }
}

/// A step behind others.
proof fn one_more_step<T>(audio: Audio<T>, done: Seq<AudioStep>, step: AudioStep, loads: bool)
    ensures
        after_steps(audio, done.push(step), loads) == after_step(
            after_steps(audio, done, loads),
            step,
            loads,
        ),
{
    assert(done.push(step).drop_last() =~= done);
}

/// What each command comes to, when there is at most one sink. `Play` gives up
/// the sink there was, also when the new file cannot be loaded. `Stop` leaves no
/// sink, no level and no recent samples. `Seek` moves the sink, to no earlier
/// than the beginning, and does nothing without one.
pub proof fn commands_do_what_they_say<T>(audio: Audio<T>, command: PlayerCommand, loads: bool)
    requires
        audio.sinks.len() <= 1,
    ensures
        match command {
            PlayerCommand::Play(path, looped) => after_command(audio, command, loads) == (Audio {
                sinks: if loads {
                    seq![(path@, looped, None)]
                } else {
                    Seq::empty()
                },
                ..audio
            }),
            PlayerCommand::Stop => after_command(audio, command, loads) == (Audio {
                sinks: Seq::empty(),
                level: ZERO,
                recent: Seq::<T>::empty(),
            }),
            PlayerCommand::Seek(to) => after_command(audio, command, loads) == (Audio {
                sinks: if audio.sinks.len() == 1 {
                    seq![(audio.sinks[0].0, audio.sinks[0].1, Some(no_less_than(to, 0)))]
                } else {
                    Seq::empty()
                },
                ..audio
            }),
        },
{
    let s = steps(audio.sinks.len() > 0, command);
    let one = audio.sinks.len() > 0;
    let none = Seq::<AudioStep>::empty();
    let stop = if one {
        none.push(AudioStep::StopSink)
    } else {
        none
    };
    assert(after_steps(audio, none, loads) == audio);
    one_more_step(audio, none, AudioStep::StopSink, loads);
    assert(audio.sinks.len() == 1 ==> audio.sinks.drop_last() =~= Seq::empty());
    assert(audio.sinks.len() == 0 ==> audio.sinks =~= Seq::empty());
    match command {
        PlayerCommand::Play(path, looped) => {
            let load = AudioStep::Load { path, looped };
            assert(s =~= stop.push(load));
            one_more_step(audio, stop, load, loads);
            assert(Seq::<(Seq<char>, bool, Option<u64>)>::empty().push((path@, looped, None))
                =~= seq![(path@, looped, None)]);
        },
        PlayerCommand::Stop => {
            let level = AudioStep::SetLevel(ZERO);
            assert(s =~= stop.push(level).push(AudioStep::ClearRing));
            one_more_step(audio, stop, level, loads);
            one_more_step(audio, stop.push(level), AudioStep::ClearRing, loads);
        },
        PlayerCommand::Seek(to) => {
            if one {
                let moved = (audio.sinks.last().0, audio.sinks.last().1, Some(no_less_than(to, 0)));
                let step = AudioStep::MoveTo(no_less_than(to, 0));
                assert(s =~= none.push(step));
                one_more_step(audio, none, step, loads);
                assert(audio.sinks.drop_last().push(moved) =~= seq![moved]);
            }
        },
    }
}

/// There is never more than one sink: not after any of the steps of a command,
/// and a new one is only made when there is none.
pub proof fn never_two_sinks_at_once<T>(
    audio: Audio<T>,
    command: PlayerCommand,
    loads: bool,
    n: int,
)
    requires
        audio.sinks.len() <= 1,
        0 <= n <= steps(audio.sinks.len() > 0, command).len(),
    ensures
        after_steps(
            audio,
            steps(audio.sinks.len() > 0, command).take(n),
            loads,
        ).sinks.len() <= 1,
        n < steps(audio.sinks.len() > 0, command).len() && steps(
            audio.sinks.len() > 0,
            command,
        )[n] is Load ==> after_steps(
            audio,
            steps(audio.sinks.len() > 0, command).take(n),
            loads,
        ).sinks.len() == 0,
{
    let s = steps(audio.sinks.len() > 0, command);
    let none = Seq::<AudioStep>::empty();
    assert(s.take(0) =~= none);
    if n >= 1 {
        assert(s.take(1) =~= none.push(s[0]));
        one_more_step(audio, none, s[0], loads);
    }
    if n >= 2 {
        assert(s.take(2) =~= s.take(1).push(s[1]));
        one_more_step(audio, s.take(1), s[1], loads);
    }
    if n >= 3 {
        assert(s.take(3) =~= s.take(2).push(s[2]));
        one_more_step(audio, s.take(2), s[2], loads);
    }
}

/// Whether a deck that took the commands has a sink: the last `Play` decides,
/// unless a `Stop` came behind it.
pub open spec fn deck_after(commands: Seq<PlayerCommand>, loads: Seq<bool>) -> bool
    decreases commands.len(),
{
    if commands.len() == 0 {
        false
    } else {
        match commands.last() {
            PlayerCommand::Play(_, _) => loads[commands.len() - 1],
            PlayerCommand::Stop => false,
            PlayerCommand::Seek(_) => deck_after(commands.drop_last(), loads),
        }
    }
}

/// However many commands come, there is at most one sink, and the deck knows
/// whether there is one.
pub proof fn deck_knows_the_sink<T>(
    audio: Audio<T>,
    commands: Seq<PlayerCommand>,
    loads: Seq<bool>,
)
    requires
        audio.sinks.len() == 0,
        loads.len() == commands.len(),
    ensures
        after_commands(audio, commands, loads).sinks.len() <= 1,
        after_commands(audio, commands, loads).sinks.len() == 1 <==> deck_after(commands, loads),
    decreases commands.len(),
{
    if commands.len() > 0 {
        let rest = commands.drop_last();
        let fewer = loads.drop_last();
        deck_knows_the_sink(audio, rest, fewer);
        later_loads_do_not_matter(audio, rest, fewer, loads);
        commands_do_what_they_say(
            after_commands(audio, rest, loads),
            commands.last(),
            loads[commands.len() - 1],
        );
    }
}

/// What commands come to does not depend on whether later files can be loaded.
proof fn later_loads_do_not_matter<T>(
    audio: Audio<T>,
    commands: Seq<PlayerCommand>,
    a: Seq<bool>,
    b: Seq<bool>,
)
    requires
        commands.len() <= a.len(),
        commands.len() <= b.len(),
        forall|i: int| 0 <= i < commands.len() ==> a[i] == b[i],
    ensures
        after_commands(audio, commands, a) == after_commands(audio, commands, b),
        deck_after(commands, a) == deck_after(commands, b),
    decreases commands.len(),
{
    if commands.len() > 0 {
        later_loads_do_not_matter(audio, commands.drop_last(), a, b);
    }
}

// ---------------------------------------------------------------------------
// The spectrum
// ---------------------------------------------------------------------------

/// `n`, kept between `low` and `high`.
pub open spec fn kept_between(n: int, low: int, high: int) -> int {
    if n < low {
        low
    } else if n > high {
        high
    } else {
        n
    }
}

/// Whether there are enough samples for a spectrum.
pub fn spectrum_ready(samples: usize) -> (r: bool)
    ensures
        r == (samples >= RING_SIZE),
{
    samples >= RING_SIZE
}

/// The bins that a bar shows, out of `half` bins in all: from the one its lower
/// frequency falls into up to the one of its upper frequency, never the first
/// one, and always at least one.
pub fn band_bins(low: usize, high: usize, half: usize) -> (r: (usize, usize))
    requires
        half >= 2,
    ensures
        r.0 == kept_between(low as int, 1, half - 1),
        r.1 == kept_between(high as int, r.0 + 1, half as int),
        1 <= r.0 < r.1 <= half,
{
    let from: usize = if low < 1 {
        1
    } else if low > half - 1 {
        half - 1
    } else {
        low
    };
    let to: usize = if high < from + 1 {
        from + 1
    } else if high > half {
        half
    } else {
        high
    };
    (from, to)
}

/// The highest magnitude of the bins of a bar, and at least zero.
pub fn band_peak(magnitudes: &Vec<u32>, from: usize, to: usize) -> (r: u32)
    requires
        from <= to <= magnitudes@.len(),
    ensures
        r == greatest_of(ZERO, magnitudes@.subrange(from as int, to as int)),
{
    extremes(magnitudes, from, to, ZERO, ZERO).1
}

} // verus!
