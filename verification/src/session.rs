//! Presentation-side session bookkeeping.
//!
//! The dispatcher counts completed seeds into this state; the
//! presentation path reads it on every redraw event and throttles
//! itself: it refreshes the displayed frame only on every thirtieth
//! tick, and stops refreshing once the render has finished and been
//! shown once. A forced refresh (after the user rescales the tone
//! curve) bypasses the throttle.

use vstd::prelude::*;

verus! {

/// Progress and redraw-throttle state of one render session.
#[derive(Clone, Copy, Debug, PartialEq, Eq, Structural)]
pub struct SessionState {
    /// Seeds completed so far.
    pub counter: u32,
    /// Seeds the session will process in all.
    pub max: u32,
    /// Whether the finished render has already been displayed.
    pub just_finished: bool,
    /// Redraw events seen since the frame was last rebuilt.
    pub render_count: u8,
}

impl SessionState {
    /// A fresh session over `max` seeds.
    pub fn new(max: u32) -> (r: SessionState)
        ensures
            r.counter == 0,
            r.max == max,
            !r.just_finished,
            r.render_count == 0,
    {
        SessionState { counter: 0, max, just_finished: false, render_count: 0 }
    }

    /// Whether the render has completed every seed.
    pub open spec fn finished(self) -> bool {
        self.counter == self.max
    }

    /// Whether this redraw event rebuilds the displayed frame: either
    /// it is forced, or the throttle has counted thirty events and
    /// the finished frame has not already been shown.
    pub open spec fn should_redraw_spec(self, force: bool) -> bool {
        force || (self.render_count == 30 && (!self.just_finished || self.counter != self.max))
    }

    /// Account one redraw event: report whether to rebuild the frame,
    /// and if so restart the throttle and record whether the finished
    /// render has now been shown. The event count wraps as an 8-bit
    /// counter.
    pub fn on_render_tick(&mut self, force: bool) -> (redraw: bool)
        ensures
            redraw == old(self).should_redraw_spec(force),
            final(self).counter == old(self).counter,
            final(self).max == old(self).max,
            final(self).just_finished == if redraw {
                old(self).counter == old(self).max
            } else {
                old(self).just_finished
            },
            final(self).render_count as int == ((if redraw {
                0int
            } else {
                old(self).render_count as int
            }) + 1) % 256,
    {
        let redraw = force || (self.render_count == 30 && (!self.just_finished || self.counter
            != self.max));
        if redraw {
            self.just_finished = self.counter == self.max;
            self.render_count = 0;
        }
        self.render_count = self.render_count.wrapping_add(1);
        redraw
    }
}

} // verus!
