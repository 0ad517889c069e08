//! The redraw-pacing state of a windowing front end, and the decisions it
//! makes each turn. The front end performs the waiting, polling and drawing;
//! this module holds the state and answers, from plain values, how long to
//! wait and whether to block for the next event.

use vstd::prelude::*;

verus! {

#[verifier::external_type_specification]
#[verifier::external_body]
pub struct ExInstant(std::time::Instant);

/// Relies on std::time::Instant::now: an opaque reading of a monotonic
/// clock. Nothing is assumed of its value.
#[verifier::external_body]
fn instant_now() -> std::time::Instant {
    std::time::Instant::now()
}

/// Relies on std::time::Instant::elapsed: the time since this instant was
/// read. Nothing is assumed of its value.
#[verifier::external_body]
fn instant_elapsed(t: &std::time::Instant) -> std::time::Duration {
    t.elapsed()
}

/// Relies on std::time::Duration::as_millis: the whole milliseconds of this
/// duration. Nothing is assumed of its value.
#[verifier::external_body]
fn duration_as_millis(d: &std::time::Duration) -> u128 {
    d.as_millis()
}

/// The shortest frame, in milliseconds: updates are paced to at most one
/// per this many milliseconds.
pub const FRAME_MS: u64 = 16;

/// Pacing state: when the last update pass completed, and whether the
/// interface asked for another update regardless of pending events.
pub struct EventLoop {
    pub ui_needs_update: bool,
    pub last_update: std::time::Instant,
}

impl EventLoop {
    /// A fresh loop state that wants a first update right away.
    pub fn new() -> (r: EventLoop)
        ensures
            r.ui_needs_update,
    {
        EventLoop { last_update: instant_now(), ui_needs_update: true }
    }

    /// Milliseconds since the last completed update, clamped into `u64`.
    /// The value comes from the clock; nothing is promised of it.
    pub fn millis_since_update(&self) -> u64 {
        let d = instant_elapsed(&self.last_update);
        let ms = duration_as_millis(&d);
        if ms > u64::MAX as u128 {
            u64::MAX
        } else {
            ms as u64
        }
    }

    /// How long to keep waiting before the next update pass, once
    /// `elapsed_ms` milliseconds of the frame have already passed.
    pub fn frame_wait_ms(elapsed_ms: u64) -> (r: u64)
        ensures
            elapsed_ms < FRAME_MS ==> r == FRAME_MS - elapsed_ms,
            elapsed_ms >= FRAME_MS ==> r == 0,
    {
        if elapsed_ms < FRAME_MS {
            FRAME_MS - elapsed_ms
        } else {
            0
        }
    }

    /// Whether the loop should block until an event arrives: only when no
    /// events are pending and no update was asked for.
    pub fn should_wait_for_event(&self, events_empty: bool) -> (r: bool)
        ensures
            r == (events_empty && !self.ui_needs_update),
    {
        events_empty && !self.ui_needs_update
    }

    /// Note that an update pass completed just now: the request is consumed
    /// and the pacing clock restarts.
    pub fn mark_updated(&mut self)
        ensures
            !final(self).ui_needs_update,
    {
        self.ui_needs_update = false;
        self.last_update = instant_now();
    }

    /// Ask for another update pass whether or not events are pending.
    pub fn needs_update(&mut self)
        ensures
            final(self).ui_needs_update,
            final(self).last_update == old(self).last_update,
    {
        self.ui_needs_update = true;
    }
}

} // verus!
