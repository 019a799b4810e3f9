//! How long a search may take.

use vstd::prelude::*;
use std::time::Duration;
use std::time::Instant;
use crate::chess::types::color::Color;

verus! {

/// A moment of the clock of std.
#[verifier::external_type_specification]
#[verifier::external_body]
pub struct ExInstant(Instant);

#[derive(Clone, Copy)]
pub struct SearchLimits {
    timer: Instant,
    soft_stop: u32,
    hard_stop: u32,
}

/// The moment of the call, `Instant::now()` of std. Nothing is claimed of it.
#[verifier::external_body]
fn now() -> Instant {
    Instant::now()
}

/// The time that has passed since `timer`, `Instant::elapsed` of std. Nothing is claimed of it.
#[verifier::external_body]
fn time_since(timer: &Instant) -> Duration {
    timer.elapsed()
}

/// The whole milliseconds of a span of time, `Duration::as_millis` of std. Nothing is claimed
/// of them here.
#[verifier::external_body]
fn whole_millis(span: &Duration) -> u128 {
    span.as_millis()
}

/// Whether a stop set at `limit` milliseconds is reached after `elapsed` milliseconds.
pub fn stop_reached(limit: u32, elapsed: u128) -> (r: bool)
    ensures
        r == (limit <= elapsed),
{
    limit as u128 <= elapsed
}

/// The time for one move, in milliseconds, as (soft stop, hard stop). With a time for the
/// move both are that time. Else the hard stop is the time that `side` has left, divided by
/// the moves to go, 20 if they are not given, plus the increment of `side`; without a time left
/// it is 1000 plus the increment. The soft stop is six tenths of it. No moves to go counts as
/// one, and a stop that does not fit in 32 bits is the largest that does.
pub open spec fn time_targets(
    side: Color,
    move_time: Option<u32>,
    wtime: Option<u32>,
    btime: Option<u32>,
    winc: Option<u32>,
    binc: Option<u32>,
    moves_to_go: Option<u32>,
) -> (u32, u32) {
    match move_time {
        Some(time) => (time, time),
        None => {
            let moves_left: int = match moves_to_go {
                Some(moves) => if moves == 0 {
                    1
                } else {
                    moves as int
                },
                None => 20,
            };
            let left = match side {
                Color::White => wtime,
                Color::Black => btime,
            };
            let increment = match side {
                Color::White => winc,
                Color::Black => binc,
            };
            let base: int = match left {
                Some(time) => time as int / moves_left,
                None => 1000,
            };
            let sum: int = base + match increment {
                Some(inc) => inc as int,
                None => 0,
            };
            let hard: int = if sum > u32::MAX {
                u32::MAX as int
            } else {
                sum
            };
            ((hard * 6 / 10) as u32, hard as u32)
        },
    }
}

/// The stops for one move from what the `go` command gave: (soft stop, hard stop).
pub fn think_time(
    side: Color,
    move_time: Option<u32>,
    wtime: Option<u32>,
    btime: Option<u32>,
    winc: Option<u32>,
    binc: Option<u32>,
    moves_to_go: Option<u32>,
) -> (r: (u32, u32))
    ensures
        r == time_targets(side, move_time, wtime, btime, winc, binc, moves_to_go),
{
    if let Some(time) = move_time {
        return (time, time);
    }
    let mut moves_left: u64 = 20;
    if let Some(moves) = moves_to_go {
        moves_left = if moves == 0 {
            1
        } else {
            moves as u64
        };
    }
    let (left, increment) = match side {
        Color::White => (wtime, winc),
        Color::Black => (btime, binc),
    };
    let mut hard_think_time: u64 = 1000;
    if let Some(time) = left {
        hard_think_time = time as u64 / moves_left;
    }
    if let Some(inc) = increment {
        hard_think_time += inc as u64;
    }
    if hard_think_time > u32::MAX as u64 {
        hard_think_time = u32::MAX as u64;
    }
    let soft_think_time: u64 = hard_think_time * 6 / 10;
    (soft_think_time as u32, hard_think_time as u32)
}

impl SearchLimits {
    /// The soft stop in milliseconds.
    pub closed spec fn soft(&self) -> u32 {
        self.soft_stop
    }

    /// The hard stop in milliseconds.
    pub closed spec fn hard(&self) -> u32 {
        self.hard_stop
    }

    /// Limits that count from now on.
    pub fn new(soft_stop: u32, hard_stop: u32) -> (r: SearchLimits)
        ensures
            r.soft() == soft_stop,
            r.hard() == hard_stop,
    {
        SearchLimits { timer: now(), soft_stop, hard_stop }
    }

    /// Whether no new iteration should begin: whether the soft stop is reached after the time
    /// that the clock gives. A soft stop of 0 milliseconds is reached whatever the clock says.
    pub fn is_soft_stop(&self) -> (r: bool)
        ensures
            self.soft() == 0 ==> r,
    {
        stop_reached(self.soft_stop, self.ms_elapsed())
    }

    /// Whether the search must end at once: whether the hard stop is reached after the time
    /// that the clock gives. A hard stop of 0 milliseconds is reached whatever the clock says.
    pub fn is_hard_stop(&self) -> (r: bool)
        ensures
            self.hard() == 0 ==> r,
    {
        stop_reached(self.hard_stop, self.ms_elapsed())
    }

    /// The milliseconds since the limits were made. This depends on the clock.
    pub fn ms_elapsed(&self) -> u128 {
        let span = time_since(&self.timer);
        whole_millis(&span)
    }
}

} // verus!
