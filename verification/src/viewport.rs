//! Viewport scrolling: one clamp rule keeps a cursor coordinate inside a
//! window of a given size, and serves both the vertical (row) axis and the
//! horizontal (display-column) axis.
use vstd::prelude::*;

verus! {

/// The adjusted window offset: pulled up to the cursor when the cursor is
/// before the window, pushed down just far enough when the cursor is at or
/// past its end, and otherwise left alone.
pub open spec fn window_adjusted(off: int, pos: int, size: int) -> int
    recommends
        size >= 1,
{
    if pos < off {
        pos
    } else if pos >= off + size {
        pos - size + 1
    } else {
        off
    }
}

/// Adjust a window offset so the coordinate `pos` lies within
/// `[r, r + size)`.
pub fn adjust_window(off: usize, pos: usize, size: usize) -> (r: usize)
    requires
        size >= 1,
    ensures
        r as int == window_adjusted(off as int, pos as int, size as int),
        r <= pos < r + size,
{
    if pos < off {
        pos
    } else if pos - off >= size {
        pos - (size - 1)
    } else {
        off
    }
}

} // verus!
