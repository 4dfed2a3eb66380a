use vstd::prelude::*;
use crate::cover::op::CoverOp;

verus! {

/// A batch of terminal operations and how long to wait after them.
#[derive(Debug, Clone, PartialEq, Eq)]
pub struct CoverFrame {
    pub ops: Vec<CoverOp>,
    /// Delay after the frame, in milliseconds.
    pub delay_ms: u64,
}

impl CoverFrame {
    pub fn new(ops: Vec<CoverOp>, delay_ms: u64) -> (frame: CoverFrame)
        ensures
            frame.ops == ops,
            frame.delay_ms == delay_ms,
    {
        CoverFrame { ops, delay_ms }
    }
}

} // verus!
