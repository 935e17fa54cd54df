//! The campaign run timer: a pausable stopwatch. Elapsed time is the
//! accumulated time of finished stretches plus the running stretch.

use vstd::prelude::*;

use crate::event::{line_event, parse_line, RawEvent};

verus! {

#[derive(Debug, Clone, Copy, PartialEq, Eq, Structural)]
pub struct RunTimerState {
    /// Milliseconds of completed running stretches.
    pub accumulated_ms: u64,
    /// Epoch milliseconds at which the current stretch began; `None` while
    /// paused or never started.
    pub running_since_ms: Option<u64>,
}

impl Default for RunTimerState {
    fn default() -> (s: Self)
        ensures
            s.accumulated_ms == 0,
            s.running_since_ms is None,
    {
        RunTimerState { accumulated_ms: 0, running_since_ms: None }
    }
}

pub open spec fn sat_sub(a: u64, b: u64) -> u64 {
    if a >= b {
        (a - b) as u64
    } else {
        0
    }
}

pub open spec fn start_spec(s: RunTimerState, now: u64) -> RunTimerState {
    if s.running_since_ms is Some {
        s
    } else {
        RunTimerState { accumulated_ms: s.accumulated_ms, running_since_ms: Some(now) }
    }
}

pub open spec fn pause_spec(s: RunTimerState, now: u64) -> RunTimerState {
    match s.running_since_ms {
        None => s,
        Some(since) => RunTimerState {
            accumulated_ms: (s.accumulated_ms + sat_sub(now, since)) as u64,
            running_since_ms: None,
        },
    }
}

/// Elapsed run time at `now`, as a mathematical integer.
pub open spec fn elapsed_spec(s: RunTimerState, now: u64) -> int {
    s.accumulated_ms + match s.running_since_ms {
        Some(since) => sat_sub(now, since) as int,
        None => 0,
    }
}

/// Whether the elapsed time at `now` fits a `u64`.
pub open spec fn fits(s: RunTimerState, now: u64) -> bool {
    elapsed_spec(s, now) <= u64::MAX
}

/// Only the untouched state: nothing accumulated, not running.
pub fn is_never_started(state: &RunTimerState) -> (b: bool)
    ensures
        b == (state.accumulated_ms == 0 && state.running_since_ms is None),
{
    state.accumulated_ms == 0 && state.running_since_ms.is_none()
}

/// Begins a running stretch at `now_ms`; no change while running.
pub fn start(state: RunTimerState, now_ms: u64) -> (r: RunTimerState)
    ensures
        r == start_spec(state, now_ms),
{
    if state.running_since_ms.is_some() {
        return state;
    }
    RunTimerState { accumulated_ms: state.accumulated_ms, running_since_ms: Some(now_ms) }
}

/// The zone-entry start: only the never-started timer starts, so a timer
/// paused by hand stays paused across zone changes.
pub fn auto_start(state: RunTimerState, now_ms: u64) -> (r: RunTimerState)
    ensures
        r == (if state.accumulated_ms == 0 && state.running_since_ms is None {
            start_spec(state, now_ms)
        } else {
            state
        }),
{
    if is_never_started(&state) {
        start(state, now_ms)
    } else {
        state
    }
}

/// Folds the running stretch into the accumulated time (a stretch that
/// begins after `now_ms` counts as nothing); no change while paused.
pub fn pause(state: RunTimerState, now_ms: u64) -> (r: RunTimerState)
    requires
        fits(state, now_ms),
    ensures
        r == pause_spec(state, now_ms),
{
    match state.running_since_ms {
        None => state,
        Some(since) => {
            let stretch = if now_ms >= since {
                now_ms - since
            } else {
                0
            };
            RunTimerState { accumulated_ms: state.accumulated_ms + stretch, running_since_ms: None }
        },
    }
}

/// Pauses a running timer, otherwise starts or resumes it.
pub fn toggle(state: RunTimerState, now_ms: u64) -> (r: RunTimerState)
    requires
        fits(state, now_ms),
    ensures
        r == (if state.running_since_ms is Some {
            pause_spec(state, now_ms)
        } else {
            start_spec(state, now_ms)
        }),
{
    if state.running_since_ms.is_some() {
        pause(state, now_ms)
    } else {
        start(state, now_ms)
    }
}

/// Total elapsed run time at `now_ms`.
pub fn elapsed_ms(state: &RunTimerState, now_ms: u64) -> (r: u64)
    requires
        fits(*state, now_ms),
    ensures
        r == elapsed_spec(*state, now_ms),
{
    let live = match state.running_since_ms {
        Some(since) => if now_ms >= since {
            now_ms - since
        } else {
            0
        },
        None => 0,
    };
    state.accumulated_ms + live
}

/// Whether a log line records entering a zone.
pub fn is_area_entered(line: &str) -> (b: bool)
    ensures
        b == (line_event(line@) is AreaEnteredName),
{
    match parse_line(line) {
        RawEvent::AreaEnteredName { .. } => true,
        _ => false,
    }
}

/// Pausing does not change the elapsed time at that instant.
pub proof fn lemma_pause_keeps_elapsed(s: RunTimerState, now: u64)
    requires
        fits(s, now),
    ensures
        elapsed_spec(pause_spec(s, now), now) == elapsed_spec(s, now),
{
}

/// Starting does not change the elapsed time at that instant.
pub proof fn lemma_start_keeps_elapsed(s: RunTimerState, now: u64)
    ensures
        elapsed_spec(start_spec(s, now), now) == elapsed_spec(s, now),
{
}

/// A paused timer toggled twice at one instant is where it was.
pub proof fn lemma_toggle_twice_when_paused(s: RunTimerState, now: u64)
    requires
        s.running_since_ms is None,
    ensures
        pause_spec(start_spec(s, now), now) == s,
{
}

/// Elapsed time never decreases as the clock moves on.
pub proof fn lemma_elapsed_monotone(s: RunTimerState, t1: u64, t2: u64)
    requires
        t1 <= t2,
    ensures
        elapsed_spec(s, t1) <= elapsed_spec(s, t2),
{
}

/// A paused timer's elapsed time stays frozen.
pub proof fn lemma_paused_is_frozen(s: RunTimerState, t1: u64, t2: u64)
    requires
        s.running_since_ms is None,
    ensures
        elapsed_spec(s, t1) == elapsed_spec(s, t2),
{
}

} // verus!
