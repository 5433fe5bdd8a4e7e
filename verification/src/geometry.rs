//! Rectangles of the screen, in physical pixels.
use crate::wrap::{add32, div32, sub32};
#[allow(unused_imports)]
use crate::wrap::{in_range_is_exact, quotient, wrap32};
use vstd::prelude::*;

verus! {

#[derive(Debug, Clone, Copy, PartialEq, Eq, Structural)]
pub struct Rect {
    pub left: i32,
    pub top: i32,
    pub right: i32,
    pub bottom: i32,
}

impl Rect {
    pub fn width(&self) -> (r: i32)
        ensures
            r == wrap32(self.right - self.left),
    {
        sub32(self.right, self.left)
    }

    pub fn height(&self) -> (r: i32)
        ensures
            r == wrap32(self.bottom - self.top),
    {
        sub32(self.bottom, self.top)
    }
}

/// The left edge that centers a window of the given width on a screen.
pub open spec fn center(screen_width: i32, width: i32) -> int {
    let x = quotient(wrap32(screen_width - width) as int, 2);
    if x < 0 {
        0
    } else {
        x
    }
}

/// The left edge that centers a window on a screen; a window wider than the screen
/// starts at its edge.
pub fn centered_x(screen_width: i32, window: Rect) -> (r: i32)
    ensures
        r == center(screen_width, wrap32(window.right - window.left)),
{
    let x: i32 = div32(sub32(screen_width, window.width()), 2);
    if x < 0 {
        0
    } else {
        x
    }
}

/// The corners' diameter of the region that a window is cut to.
pub const CORNER: i32 = 32;

/// The right and bottom edges of the region that a window is cut to, one beyond its last
/// pixel; `None` for a window without pixels.
pub fn round_region(window: Rect) -> (r: Option<(i32, i32)>)
    ensures
        ({
            let w = wrap32(window.right - window.left);
            let h = wrap32(window.bottom - window.top);
            r == if w <= 0 || h <= 0 {
                None
            } else {
                Some((wrap32(w + 1), wrap32(h + 1)))
            }
        }),
{
    let w: i32 = window.width();
    let h: i32 = window.height();
    if w <= 0 || h <= 0 {
        None
    } else {
        Some((add32(w, 1), add32(h, 1)))
    }
}

/// A window that fits on the screen has the same margin on both sides, up to one pixel,
/// and lies on the screen.
pub proof fn centered_window_fits(screen_width: i32, width: i32)
    requires
        0 <= width <= screen_width,
    ensures
        ({
            let x = center(screen_width, width);
            &&& 0 <= x
            &&& x + width <= screen_width
            &&& 0 <= (screen_width - width - x) - x <= 1
        }),
{
    in_range_is_exact(screen_width - width);
}

/// A window wider than the screen starts at its left edge.
pub proof fn wide_window_starts_at_the_edge(screen_width: i32, width: i32)
    requires
        0 <= screen_width <= width,
    ensures
        center(screen_width, width) == 0,
{
    in_range_is_exact(screen_width - width);
}

} // verus!
