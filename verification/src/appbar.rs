//! The strip at the top edge of the screen that is reserved for the top bar, so that
//! maximized windows stop below it.
use crate::geometry::Rect;
use vstd::prelude::*;

verus! {

pub const WM_DESTROY: u32 = 0x0002;

pub const WM_DISPLAYCHANGE: u32 = 0x007E;

/// The message by which the shell reports on reserved strips.
pub const APPBAR_CALLBACK: u32 = 0x8007;

/// The report that the strips changed.
pub const ABN_POSCHANGED: u32 = 1;

/// The strip to reserve: the whole width of the screen, from its top edge. Whatever the
/// shell proposes in its place, this is what is reserved.
pub fn strip(width: i32, height: i32) -> (r: Rect)
    ensures
        r == (Rect { left: 0, top: 0, right: width, bottom: height }),
{
    Rect { left: 0, top: 0, right: width, bottom: height }
}

/// What a message to the strip's window comes to.
#[derive(Debug, Clone, Copy, PartialEq, Eq, Structural)]
pub struct Reaction {
    /// Reserve the strip anew.
    pub reserve: bool,
    /// Give the strip back.
    pub release: bool,
    /// The message goes on to the default handler.
    pub default: bool,
}

/// Decides on a message to the strip's window.
pub fn wndproc(msg: u32, wparam: usize) -> (r: Reaction)
    ensures
        r.reserve == (msg == WM_DISPLAYCHANGE || (msg == APPBAR_CALLBACK && wparam as int % 0x1_0000_0000
            == ABN_POSCHANGED)),
        r.release == (msg == WM_DESTROY),
        r.default == (msg != APPBAR_CALLBACK && msg != WM_DESTROY),
{
    if msg == APPBAR_CALLBACK {
        Reaction {
            reserve: wparam as u64 % 0x1_0000_0000 == ABN_POSCHANGED as u64,
            release: false,
            default: false,
        }
    } else if msg == WM_DISPLAYCHANGE {
        Reaction { reserve: true, release: false, default: true }
    } else if msg == WM_DESTROY {
        Reaction { reserve: false, release: true, default: false }
    } else {
        Reaction { reserve: false, release: false, default: true }
    }
}

/// The window that holds the reservation, if there is one.
#[derive(Debug, Clone, Copy, PartialEq, Eq, Structural)]
pub struct AppBar {
    /// The window's handle; 0 if there is none.
    pub window: isize,
}

impl AppBar {
    /// Nothing is reserved.
    pub fn new() -> (r: AppBar)
        ensures
            r.window == 0,
    {
        AppBar { window: 0 }
    }

    /// The window `handle` holds the reservation.
    pub fn install(&mut self, handle: isize)
        ensures
            final(self).window == handle,
    {
        self.window = handle;
    }

    /// Gives the reservation up: the window to release it by. A second time there is none.
    pub fn remove(&mut self) -> (r: Option<isize>)
        ensures
            final(self).window == 0,
            r == if old(self).window == 0 {
                None
            } else {
                Some(old(self).window)
            },
    {
        let raw: isize = self.window;
        self.window = 0;
        if raw == 0 {
            None
        } else {
            Some(raw)
        }
    }
}

} // verus!
