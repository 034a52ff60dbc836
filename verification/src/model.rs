//! Plain interactive state carried alongside the parsed requests: which
//! screen is showing and how far the response pane is scrolled.

use vstd::prelude::*;

verus! {

/// Which screen the surrounding application is showing.
#[derive(Debug, Clone, Copy)]
pub enum AppState {
    ShowingList,
    DoingRequest,
}

/// A scroll offset clamped to `u16`, moved by signed deltas that saturate at
/// both ends.
#[derive(Debug, Clone, Copy, PartialEq, Eq)]
pub struct Scroll {
    pub x: u16,
    pub y: u16,
}

/// `cur` moved by `d` and clamped into the `u16` range.
pub open spec fn spec_scroll_axis(cur: u16, d: int) -> u16 {
    let t = cur + d;
    if t < 0 {
        0u16
    } else if t > u16::MAX {
        u16::MAX
    } else {
        t as u16
    }
}

impl Scroll {
    /// The offset in the `(row, column)` order a render call expects.
    pub fn to_tuple(&self) -> (r: (u16, u16))
        ensures
            r == (self.y, self.x),
    {
        (self.y, self.x)
    }

    /// Moves the offset by `(x, y)`, saturating each axis at 0 and at
    /// `u16::MAX`.
    pub fn scroll(&mut self, x: i16, y: i16)
        ensures
            final(self).x == spec_scroll_axis(old(self).x, x as int),
            final(self).y == spec_scroll_axis(old(self).y, y as int),
    {
        self.x = scroll_axis(self.x, x);
        self.y = scroll_axis(self.y, y);
    }
}

impl Default for Scroll {
    /// The origin: both axes at zero.
    fn default() -> (r: Scroll)
        ensures
            r.x == 0 && r.y == 0,
    {
        Scroll { x: 0, y: 0 }
    }
}

/// One saturating axis move.
fn scroll_axis(cur: u16, d: i16) -> (r: u16)
    ensures
        r == spec_scroll_axis(cur, d as int),
{
    let t: i32 = cur as i32 + d as i32;
    if t < 0 {
        0
    } else if t > 65535 {
        65535
    } else {
        t as u16
    }
}

} // verus!
