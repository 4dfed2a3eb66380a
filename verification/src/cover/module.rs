//! What an activity module offers the cover engine.
use vstd::prelude::*;
use crate::cover::engine::CoverContext;
use crate::cover::frame::CoverFrame;

verus! {

/// An activity the cover screen can replay: its name, the command line that
/// announces it, and its frames until it is done (`None`).
pub trait CoverModule {
    fn name(&self) -> &'static str;

    fn signature(&self) -> String;

    fn next_frame(&mut self, context: &CoverContext) -> Option<CoverFrame>;
}

} // verus!
