use vstd::prelude::*;
use crate::metadata::BookMetadata;

verus! {

/// The book being read and whether the reader keeps running.
#[derive(Debug)]
pub struct ReadingSession {
    pub metadata: BookMetadata,
    pub running: bool,
}

impl ReadingSession {
    /// A running session on `metadata`.
    pub fn new(metadata: BookMetadata) -> (s: ReadingSession)
        ensures
            s.metadata == metadata,
            s.running,
    {
        ReadingSession { metadata, running: true }
    }

    /// Ends the session.
    pub fn quit(&mut self)
        ensures
            final(self).metadata == old(self).metadata,
            !final(self).running,
    {
        self.running = false;
    }
}

} // verus!
