//! The buffer-time window of a configuration: which whole-millisecond
//! buffer times an endpoint takes once format, rate and channels are fixed.

use vstd::prelude::*;
use crate::audio::{Direction, SampleFormat};
use crate::backend::{Backend, PcmInfo};
use crate::ordered::{ascending, lemma_ascending_is_by_number, lemma_ascending_unique, number_key};
use crate::session::{BoundsQuery, Timing, Trial};

verus! {

broadcast use vstd::seq_lib::lemma_seq_contains_after_push;

/// Microseconds in a millisecond.
pub const US_PER_MS: u32 = 1000;

/// Periods that make up one buffer.
pub const PERIODS_PER_BUFFER: u32 = 5;

/// Shortest buffer time the engine ever tries, in microseconds.
pub const MIN_BUFFER_TIME_US: u32 = 1000;

/// Longest buffer time the engine ever tries, in microseconds.
pub const MAX_BUFFER_TIME_US: u32 = 1000000;

/// A time in microseconds brought into the engine's absolute bounds.
pub open spec fn clamp_us(time: int) -> u32 {
    if time < MIN_BUFFER_TIME_US {
        MIN_BUFFER_TIME_US
    } else if time > MAX_BUFFER_TIME_US {
        MAX_BUFFER_TIME_US
    } else {
        time as u32
    }
}

/// The window that the engine makes of what an endpoint reports as its
/// buffer-time range, as lower and upper bound in microseconds: the lower
/// bound rounded down and the upper bound rounded up to whole
/// milliseconds, each brought into the absolute bounds; the whole of the
/// absolute bounds if the endpoint reports nothing.
pub open spec fn window_of(reply: Option<(u32, u32)>) -> (u32, u32) {
    match reply {
        None => (MIN_BUFFER_TIME_US, MAX_BUFFER_TIME_US),
        Some((low, high)) => (
            clamp_us(low / US_PER_MS * US_PER_MS),
            clamp_us((high + US_PER_MS - 1) / (US_PER_MS as int) * US_PER_MS),
        ),
    }
}

/// The buffer time to use where nobody chooses one, in milliseconds: half
/// the window's upper bound, but no less than its lower bound.
pub open spec fn recommended_ms(window: (u32, u32)) -> u32 {
    let half = window.1 / 2;
    if half >= window.0 {
        (half / US_PER_MS) as u32
    } else {
        (window.0 / US_PER_MS) as u32
    }
}

/// The period time that goes with a buffer time, in microseconds.
pub open spec fn period_of(buffer_time_us: u32) -> u32 {
    buffer_time_us / PERIODS_PER_BUFFER
}

/// The trial that asks for a configuration together with a buffer time of
/// `ms` milliseconds and the period time that goes with it, and applies it.
pub open spec fn buffer_trial(format: SampleFormat, rate: u32, channels: u32, ms: u32) -> Trial {
    Trial {
        format: Some(format),
        rate: Some(rate),
        channels: Some(channels),
        timing: Some(
            Timing {
                buffer_time_us: (ms * US_PER_MS) as u32,
                period_time_us: period_of((ms * US_PER_MS) as u32),
            },
        ),
        commit: true,
    }
}

/// The period time that goes with a buffer time, computed.
pub fn period_time_us(buffer_time_us: u32) -> (r: u32)
    ensures
        r == period_of(buffer_time_us),
{
    buffer_time_us / PERIODS_PER_BUFFER
}

/// A buffer-time window: whole milliseconds within the engine's absolute
/// bounds. It is empty where its lower bound exceeds its upper bound.
#[derive(Clone, Copy, Debug)]
pub struct BufferWindow {
    min_ms: u32,
    max_ms: u32,
}

impl View for BufferWindow {
    type V = (u32, u32);

    /// Lower and upper bound in microseconds.
    closed spec fn view(&self) -> (u32, u32) {
        ((self.min_ms * US_PER_MS) as u32, (self.max_ms * US_PER_MS) as u32)
    }
}

/// Both bounds are whole milliseconds within the absolute bounds.
pub open spec fn window_wf(window: (u32, u32)) -> bool {
    &&& MIN_BUFFER_TIME_US <= window.0 <= MAX_BUFFER_TIME_US
    &&& MIN_BUFFER_TIME_US <= window.1 <= MAX_BUFFER_TIME_US
    &&& window.0 % US_PER_MS == 0
    &&& window.1 % US_PER_MS == 0
}

/// Whatever an endpoint reports, the window made of it is well formed.
pub proof fn lemma_window_of_wf(reply: Option<(u32, u32)>)
    ensures
        window_wf(window_of(reply)),
{
}

impl BufferWindow {
    #[verifier::type_invariant]
    spec fn inv(self) -> bool {
        1 <= self.min_ms <= 1000 && 1 <= self.max_ms <= 1000
    }

    /// The window that the engine makes of what an endpoint reports.
    pub fn from_reply(reply: Option<(u32, u32)>) -> (window: BufferWindow)
        ensures
            window@ == window_of(reply),
            window_wf(window@),
    {
        match reply {
            None => BufferWindow { min_ms: 1, max_ms: 1000 },
            Some((low, high)) => {
                let low_ms: u32 = low / US_PER_MS;
                let high_ms: u64 = (high as u64 + 999) / 1000;
                let min_ms: u32 = if low_ms < 1 {
                    1
                } else if low_ms > 1000 {
                    1000
                } else {
                    low_ms
                };
                let max_ms: u32 = if high_ms < 1 {
                    1
                } else if high_ms > 1000 {
                    1000
                } else {
                    high_ms as u32
                };
                BufferWindow { min_ms, max_ms }
            },
        }
    }

    /// The lower bound in microseconds.
    pub fn min_us(&self) -> (r: u32)
        ensures
            r == self@.0,
            window_wf(self@),
    {
        proof {
            use_type_invariant(self);
        }
        self.min_ms * US_PER_MS
    }

    /// The upper bound in microseconds.
    pub fn max_us(&self) -> (r: u32)
        ensures
            r == self@.1,
            window_wf(self@),
    {
        proof {
            use_type_invariant(self);
        }
        self.max_ms * US_PER_MS
    }

    /// The buffer time to use where nobody chooses one, in milliseconds.
    pub fn recommended_ms(&self) -> (r: u32)
        ensures
            r == recommended_ms(self@),
    {
        proof {
            use_type_invariant(self);
        }
        let min_us: u32 = self.min_ms * US_PER_MS;
        let half: u32 = self.max_ms * US_PER_MS / 2;
        if half >= min_us {
            half / US_PER_MS
        } else {
            min_us / US_PER_MS
        }
    }
}

/// What stepping through a window may find: the accepted buffer times in
/// milliseconds, in increasing order, all within the window, and every
/// other whole millisecond of the window rejected.
pub open spec fn buffer_times_found<D, B, T>(
    backend: &Backend<D, B, T>,
    name: Seq<char>,
    direction: Direction,
    format: SampleFormat,
    rate: u32,
    channels: u32,
    window: (u32, u32),
    times: Seq<u32>,
) -> bool where
    D: Fn(&str, Direction) -> Option<PcmInfo>,
    B: Fn(&str, Direction, BoundsQuery) -> Option<(u32, u32)>,
    T: Fn(&str, Direction, Trial) -> bool,
 {
    &&& ascending(times)
    &&& forall|ms: u32| #[trigger]
        times.contains(ms) ==> window.0 <= ms * US_PER_MS <= window.1 && backend.accepts(
            name,
            direction,
            buffer_trial(format, rate, channels, ms),
        )
    &&& forall|ms: u32|
        window.0 <= ms * US_PER_MS <= window.1 && !#[trigger] times.contains(ms)
            ==> backend.rejects(name, direction, buffer_trial(format, rate, channels, ms))
}

/// Against a backend with one answer to each question, stepping through
/// a window can find one list only.
pub proof fn lemma_buffer_times_unique<D, B, T>(
    backend: &Backend<D, B, T>,
    name: Seq<char>,
    direction: Direction,
    format: SampleFormat,
    rate: u32,
    channels: u32,
    window: (u32, u32),
    first: Seq<u32>,
    second: Seq<u32>,
) where
    D: Fn(&str, Direction) -> Option<PcmInfo>,
    B: Fn(&str, Direction, BoundsQuery) -> Option<(u32, u32)>,
    T: Fn(&str, Direction, Trial) -> bool,

    requires
        backend.deterministic(),
        buffer_times_found(backend, name, direction, format, rate, channels, window, first),
        buffer_times_found(backend, name, direction, format, rate, channels, window, second),
    ensures
        first == second,
{
    assert forall|ms: u32| first.contains(ms) implies second.contains(ms) by {
        assert(backend.accepts(name, direction, buffer_trial(format, rate, channels, ms)));
    }
    assert forall|ms: u32| second.contains(ms) implies first.contains(ms) by {
        assert(backend.accepts(name, direction, buffer_trial(format, rate, channels, ms)));
    }
    lemma_ascending_is_by_number(first);
    lemma_ascending_is_by_number(second);
    lemma_ascending_unique(first, second, number_key());
}

/// Steps through a window one millisecond at a time and puts each buffer
/// time, with the period time that goes with it, to the backend together
/// with the configuration.
pub fn scan_buffer_times<D, B, T>(
    backend: &Backend<D, B, T>,
    name: &str,
    direction: Direction,
    format: SampleFormat,
    rate: u32,
    channels: u32,
    window: &BufferWindow,
) -> (times: Vec<u32>) where
    D: Fn(&str, Direction) -> Option<PcmInfo>,
    B: Fn(&str, Direction, BoundsQuery) -> Option<(u32, u32)>,
    T: Fn(&str, Direction, Trial) -> bool,

    requires
        backend.ready(),
    ensures
        buffer_times_found(backend, name@, direction, format, rate, channels, window@, times@),
{
    proof {
        use_type_invariant(window);
    }
    let mut times: Vec<u32> = Vec::new();
    let mut ms: u32 = window.min_ms;
    while ms <= window.max_ms
        invariant
            backend.ready(),
            1 <= window.min_ms <= 1000,
            1 <= window.max_ms <= 1000,
            window.min_ms <= ms,
            ms <= window.max_ms + 1 || times@.len() == 0,
            ascending(times@),
            forall|m: u32| #[trigger]
                times@.contains(m) ==> window.min_ms <= m < ms && m <= window.max_ms
                    && backend.accepts(
                    name@,
                    direction,
                    buffer_trial(format, rate, channels, m),
                ),
            forall|m: u32|
                window.min_ms <= m < ms && m <= window.max_ms && !#[trigger] times@.contains(m)
                    ==> backend.rejects(name@, direction, buffer_trial(format, rate, channels, m)),
        decreases window.max_ms + 1 - ms,
    {
        let buffer_time_us: u32 = ms * US_PER_MS;
        let trial = Trial {
            format: Some(format),
            rate: Some(rate),
            channels: Some(channels),
            timing: Some(Timing { buffer_time_us, period_time_us: period_time_us(buffer_time_us) }),
            commit: true,
        };
        let accepted = (backend.trial)(name, direction, trial);
        if accepted {
            proof {
                assert forall|i: int| 0 <= i < times@.len() implies times@[i] < ms by {
                    assert(times@.contains(times@[i]));
                }
            }
            times.push(ms);
        }
        ms = ms + 1;
    }
    times
}

} // verus!
