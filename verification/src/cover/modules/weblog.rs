//! The `tail -f access.log` activity: a number of log lines, shown at random
//! pauses, now and then in a quick burst.
use vstd::prelude::*;
use crate::cover::chance::{one_chance_in, random_in};
use crate::cover::frame::CoverFrame;
use crate::cover::op::CoverOp;

verus! {

/// Pause between the lines of a burst, in milliseconds.
pub const BURST_DELAY_MS: u64 = 30;

pub struct WeblogModule {
    remaining_lines: usize,
    burst_remaining: usize,
}

impl WeblogModule {
    /// Lines still to show.
    pub closed spec fn remaining_spec(&self) -> nat {
        self.remaining_lines as nat
    }

    /// Lines of the current burst still to show.
    pub closed spec fn burst_spec(&self) -> nat {
        self.burst_remaining as nat
    }

    /// A log of a random 50 to 199 lines, not in a burst.
    pub fn new() -> (m: WeblogModule)
        ensures
            50 <= m.remaining_spec() < 200,
            m.burst_spec() == 0,
    {
        let lines = random_in(50, 200);
        WeblogModule { remaining_lines: lines as usize, burst_remaining: 0 }
    }

    /// Whether every line was shown.
    pub fn is_done(&self) -> (b: bool)
        ensures
            b == (self.remaining_spec() == 0),
    {
        self.remaining_lines == 0
    }

    /// Shows `line`, unless every line was shown. In a burst the pause is
    /// short; otherwise a burst of 9 to 48 more lines starts with a chance of
    /// one in twenty, and else the pause is a random 10 to 999 milliseconds.
    pub fn next_frame(&mut self, line: String) -> (frame: Option<CoverFrame>)
        ensures
            old(self).remaining_spec() == 0 ==> frame is None && final(self).remaining_spec() == 0
                && final(self).burst_spec() == old(self).burst_spec(),
            old(self).remaining_spec() > 0 ==> (frame matches Some(f) && {
                &&& final(self).remaining_spec() == old(self).remaining_spec() - 1
                &&& f.ops@ == seq![CoverOp::Write(line), CoverOp::NewLine]
                &&& if old(self).burst_spec() > 0 {
                    &&& f.delay_ms == BURST_DELAY_MS
                    &&& final(self).burst_spec() == old(self).burst_spec() - 1
                } else {
                    ||| (f.delay_ms == BURST_DELAY_MS && 9 <= final(self).burst_spec() < 49)
                    ||| (final(self).burst_spec() == 0 && 10 <= f.delay_ms < 1000)
                }
            }),
    {
        if self.remaining_lines == 0 {
            return None;
        }
        let delay: u64 = if self.burst_remaining > 0 {
            self.burst_remaining = self.burst_remaining - 1;
            BURST_DELAY_MS
        } else if one_chance_in(20) {
            self.burst_remaining = random_in(9, 49) as usize;
            BURST_DELAY_MS
        } else {
            random_in(10, 1000)
        };
        self.remaining_lines = self.remaining_lines - 1;
        let ops = vec![CoverOp::Write(line), CoverOp::NewLine];
        Some(CoverFrame::new(ops, delay))
    }
}

} // verus!
