//! Laws on playback.

use vstd::prelude::*;

use crate::ieee::less_double;
use crate::player::{
    kept_between, level_window, most_recent, steps, tap_frame, AudioStep, PlayerCommand,
};

verus! {

/// The most recent samples are the end of all of them, as much as there is room
/// for.
pub proof fn most_recent_is_the_end<T>(samples: Seq<T>, n: int)
    requires
        n >= 0,
    ensures
        most_recent(samples, n).len() == if samples.len() < n {
            samples.len() as int
        } else {
            n
        },
        forall|i: int|
            0 <= i < most_recent(samples, n).len() ==> #[trigger] most_recent(samples, n)[i]
                == samples[samples.len() - most_recent(samples, n).len() + i],
{
}

/// A level window is the samples of thirty milliseconds, all channels together,
/// rounded down, and never less than sixty-four of them. A frame has a sample
/// per channel.
pub proof fn windows_last_thirty_milliseconds(rate: u32, channels: u16)
    ensures
        tap_frame(channels) == channels || (channels == 0 && tap_frame(channels) == 1),
        level_window(rate, channels) >= 64,
        level_window(rate, channels) > 64 ==> level_window(rate, channels) * 1000 <= rate
            * tap_frame(channels) * 30,
        rate * tap_frame(channels) * 30 < (level_window(rate, channels) + 1) * 1000,
{
}

/// What is done about each command. Whatever plays is stopped first for `Play`
/// and `Stop`. `Play` then loads the file it was given, in the way it was asked
/// to. `Stop` then shows no level and forgets the samples. `Seek` moves what
/// plays to where it was asked to, or to the beginning when that is not behind
/// it, and does nothing when nothing plays.
pub proof fn commands_are_carried_out(path: String, looped: bool, to: u64)
    ensures
        steps(false, PlayerCommand::Play(path, looped)) == seq![AudioStep::Load { path, looped }],
        steps(true, PlayerCommand::Play(path, looped)) == seq![
            AudioStep::StopSink,
            AudioStep::Load { path, looped },
        ],
        steps(false, PlayerCommand::Stop) == seq![AudioStep::SetLevel(0), AudioStep::ClearRing],
        steps(true, PlayerCommand::Stop) == seq![
            AudioStep::StopSink,
            AudioStep::SetLevel(0),
            AudioStep::ClearRing,
        ],
        steps(false, PlayerCommand::Seek(to)).len() == 0,
        less_double(0, to) ==> steps(true, PlayerCommand::Seek(to)) == seq![AudioStep::MoveTo(to)],
        !less_double(0, to) ==> steps(true, PlayerCommand::Seek(to)) == seq![AudioStep::MoveTo(0)],
{
    let none = Seq::<AudioStep>::empty();
    assert(steps(false, PlayerCommand::Play(path, looped)) =~= seq![
        AudioStep::Load { path, looped },
    ]);
    assert(steps(true, PlayerCommand::Play(path, looped)) =~= seq![
        AudioStep::StopSink,
        AudioStep::Load { path, looped },
    ]);
    assert(steps(false, PlayerCommand::Stop) =~= seq![
        AudioStep::SetLevel(0),
        AudioStep::ClearRing,
    ]);
    assert(steps(true, PlayerCommand::Stop) =~= seq![
        AudioStep::StopSink,
        AudioStep::SetLevel(0),
        AudioStep::ClearRing,
    ]);
}

/// What is kept between two numbers is the number where it lies between them,
/// and the nearer of the two otherwise.
pub proof fn kept_between_the_bounds(n: int, low: int, high: int)
    requires
        low <= high,
    ensures
        low <= n <= high ==> kept_between(n, low, high) == n,
        n < low ==> kept_between(n, low, high) == low,
        n > high ==> kept_between(n, low, high) == high,
{
}

} // verus!
