//! What to do next while the mouse is being filtered.
//!
//! The program asks [`next_step`] what to do, does it, and says how it went.

use vstd::prelude::*;

use crate::event::EVENT_SIZE;
use crate::filter::Filter;
use crate::time::{Duration, Instant};

verus! {

/// How waiting for the mouse ended.
#[derive(Copy, Clone, Debug, PartialEq, Eq, Structural)]
pub enum WaitOutcome {
    /// There is something to read.
    Readable,
    /// Nothing arrived in time.
    TimedOut,
    /// A signal cut the wait short.
    Interrupted,
    /// The wait failed.
    Failed,
}

/// How reading from the mouse ended.
#[derive(Copy, Clone, Debug, PartialEq, Eq, Structural)]
pub enum ReadOutcome {
    /// This many bytes were read; none means that the device is gone.
    Bytes(usize),
    /// A signal cut the read short.
    Interrupted,
    /// The read failed.
    Failed,
}

/// What happened since the last step.
#[derive(Copy, Clone, Debug, PartialEq, Eq, Structural)]
pub enum Event {
    /// The last step is done, or there was none yet.
    Idle,
    /// A wait ended.
    Waited(WaitOutcome),
    /// A read ended.
    Got(ReadOutcome),
}

/// What to do next.
#[derive(Copy, Clone, Debug, PartialEq, Eq, Structural)]
pub enum Step {
    /// Wait for the mouse, but no longer than this many milliseconds.
    Wait(i32),
    /// Read from the mouse, however long that takes.
    Read,
    /// Let go of the held release if it is due.
    Flush,
    /// Filter this many bytes; `partial` if the last record among them is cut
    /// off, and therefore ignored.
    Process { len: usize, partial: bool },
    /// Start over.
    Again,
    /// The device is gone: wind up.
    Finish,
    /// Give up with the error that occurred.
    Abort,
}

/// A wait of `nanos` nanoseconds in whole milliseconds: rounded down, and at
/// most what fits in 31 bits.
pub open spec fn timeout_ms(nanos: nat) -> int {
    let ms = nanos as int / 1_000_000;
    if ms > i32::MAX {
        i32::MAX as int
    } else {
        ms
    }
}

/// What to do about `event` at `now`.
pub open spec fn step_after(filter: Filter, event: Event, now: Instant) -> Step {
    match event {
        Event::Idle => match filter.held_release {
            // Nothing is held back: there is nothing to wake up for.
            None => Step::Read,
            Some((_, deadline)) => if deadline.reached(now) {
                Step::Flush
            } else {
                Step::Wait(timeout_ms((deadline.nanos - now.nanos) as nat) as i32)
            },
        },
        Event::Waited(WaitOutcome::Readable) => Step::Read,
        Event::Waited(WaitOutcome::TimedOut) => Step::Flush,
        Event::Waited(WaitOutcome::Interrupted) => Step::Again,
        Event::Waited(WaitOutcome::Failed) => Step::Abort,
        Event::Got(ReadOutcome::Bytes(len)) => if len == 0 {
            Step::Finish
        } else {
            Step::Process { len, partial: len % EVENT_SIZE != 0 }
        },
        Event::Got(ReadOutcome::Interrupted) => Step::Again,
        Event::Got(ReadOutcome::Failed) => Step::Abort,
    }
}

/// The time to wait, as `poll` takes it: never longer than `remaining`, so
/// less than a millisecond is no wait at all.
pub fn poll_timeout_ms(remaining: Duration) -> (ms: i32)
    ensures
        ms == timeout_ms(remaining.nanos as nat),
        0 <= ms * 1_000_000 <= remaining.nanos,
{
    let ms: u128 = remaining.as_millis();
    if ms > i32::MAX as u128 {
        i32::MAX
    } else {
        ms as i32
    }
}

/// What the return value of `poll` on one descriptor says.
pub open spec fn outcome_of(ret: int, interrupted: bool) -> WaitOutcome {
    if ret > 0 {
        WaitOutcome::Readable
    } else if ret == 0 {
        WaitOutcome::TimedOut
    } else if interrupted {
        WaitOutcome::Interrupted
    } else {
        WaitOutcome::Failed
    }
}

/// What the return value of `poll` on one descriptor says; `interrupted` tells
/// whether the error of a negative one is that a signal came.
pub fn poll_outcome(ret: i32, interrupted: bool) -> (outcome: WaitOutcome)
    ensures
        ret > 0 ==> outcome == WaitOutcome::Readable,
        ret == 0 ==> outcome == WaitOutcome::TimedOut,
        ret < 0 && interrupted ==> outcome == WaitOutcome::Interrupted,
        ret < 0 && !interrupted ==> outcome == WaitOutcome::Failed,
        outcome == outcome_of(ret as int, interrupted),
{
    if ret < 0 {
        if interrupted {
            WaitOutcome::Interrupted
        } else {
            WaitOutcome::Failed
        }
    } else if ret > 0 {
        WaitOutcome::Readable
    } else {
        WaitOutcome::TimedOut
    }
}

/// Decides what to do next.
pub fn next_step(filter: &Filter, event: Event, now: Instant) -> (step: Step)
    ensures
        step == step_after(*filter, event, now),
{
    match event {
        Event::Idle => match filter.time_to_confirm(now) {
            None => Step::Read,
            Some(remaining) => if remaining.is_zero() {
                // Already due: nothing bounced, so the release was genuine.
                Step::Flush
            } else {
                Step::Wait(poll_timeout_ms(remaining))
            },
        },
        Event::Waited(outcome) => match outcome {
            WaitOutcome::Readable => Step::Read,
            WaitOutcome::TimedOut => Step::Flush,
            WaitOutcome::Interrupted => Step::Again,
            WaitOutcome::Failed => Step::Abort,
        },
        Event::Got(outcome) => match outcome {
            ReadOutcome::Bytes(len) => if len == 0 {
                Step::Finish
            } else {
                Step::Process { len, partial: len % EVENT_SIZE != 0 }
            },
            ReadOutcome::Interrupted => Step::Again,
            ReadOutcome::Failed => Step::Abort,
        },
    }
}

/// The program blocks on the mouse alone exactly while nothing is held back.
pub proof fn law_blocks_only_when_nothing_is_held(filter: Filter, now: Instant)
    ensures
        step_after(filter, Event::Idle, now) == Step::Read <==> filter.held_release is None,
{
}

/// A release that is due is let go before anything else is waited for, and a
/// release that is not due yet is not.
pub proof fn law_due_release_is_let_go_first(filter: Filter, now: Instant)
    ensures
        step_after(filter, Event::Idle, now) == Step::Flush <==> filter.release_is_due(now),
{
}

/// A wait is never endless, and ends by the time the held release is due.
pub proof fn law_wait_ends_in_time(filter: Filter, now: Instant)
    ensures
        step_after(filter, Event::Idle, now) matches Step::Wait(ms) ==> {
            &&& ms >= 0
            &&& filter.time_left(now) matches Some(left) && ms * 1_000_000 <= left.nanos
        },
{
}

} // verus!
