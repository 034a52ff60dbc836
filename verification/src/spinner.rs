//! The state of a cyclic spinner: which frame of its animation shows next.

use vstd::prelude::*;

verus! {

/// Remembers the spinner's position in its frame cycle between renders.
#[derive(Debug, Clone, Copy, PartialEq, Eq)]
pub struct SpinnerState {
    pub current: usize,
}

impl SpinnerState {
    /// Picks the frame to show out of a cycle of `frame_count` frames and
    /// steps to the next one.
    pub fn advance(&mut self, frame_count: usize) -> (r: usize)
        requires
            frame_count > 0,
        ensures
            r == old(self).current % frame_count,
            final(self).current == (r + 1) % (frame_count as int),
            r < frame_count,
    {
        let idx = self.current % frame_count;
        self.current = (idx + 1) % frame_count;
        idx
    }
}

impl Default for SpinnerState {
    /// Starts at the first frame.
    fn default() -> (r: SpinnerState)
        ensures
            r.current == 0,
    {
        SpinnerState { current: 0 }
    }
}

} // verus!
