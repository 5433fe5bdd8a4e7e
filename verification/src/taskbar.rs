//! Hiding and showing the taskbar.
//!
//! The taskbar is neither destroyed nor moved: its windows, one on each monitor, are
//! hidden or shown. The shell can show them again, so hiding is repeated on a timer.
use crate::text::same;
use vstd::prelude::*;

verus! {

pub const SW_HIDE: i32 = 0;

/// Shows a window without activating it.
pub const SW_SHOWNA: i32 = 8;

/// A top-level window, with the name of its class.
#[derive(Debug, PartialEq, Eq)]
pub struct Window {
    pub handle: isize,
    pub class: String,
}

/// A request to show a window in some way.
#[derive(Debug, Clone, Copy, PartialEq, Eq, Structural)]
pub struct ShowWindow {
    pub handle: isize,
    pub show: i32,
}

/// The class names of taskbars, on the primary and on other monitors.
pub open spec fn taskbar_class(class: Seq<char>) -> bool {
    class == "Shell_TrayWnd"@ || class == "Shell_SecondaryTrayWnd"@
}

/// The taskbars among some windows.
pub open spec fn taskbars(windows: Seq<Window>) -> Seq<isize> {
    windows.filter(|w: Window| taskbar_class(w.class@)).map_values(|w: Window| w.handle)
}

/// The request that hides or shows a window.
pub open spec fn visibility(handle: isize, hidden: bool) -> ShowWindow {
    ShowWindow {
        handle,
        show: if hidden {
            SW_HIDE
        } else {
            SW_SHOWNA
        },
    }
}

/// The handles of the taskbars among some windows.
pub fn collect_taskbars(windows: &Vec<Window>) -> (r: Vec<isize>)
    ensures
        r@ == taskbars(windows@),
{
    let mut r: Vec<isize> = Vec::new();
    let mut i: usize = 0;
    let ghost p = |w: Window| taskbar_class(w.class@);
    while i < windows.len()
        invariant
            i <= windows@.len(),
            p == (|w: Window| taskbar_class(w.class@)),
            r@ == windows@.take(i as int).filter(p).map_values(|w: Window| w.handle),
        decreases windows@.len() - i,
    {
        let ghost before = windows@.take(i as int);
        let ghost w = windows@[i as int];
        proof {
            assert(windows@.take(i + 1) =~= before.push(w));
            before.lemma_filter_push(w, p);
        }
        let class = windows[i].class.as_str();
        if same(class, "Shell_TrayWnd") || same(class, "Shell_SecondaryTrayWnd") {
            r.push(windows[i].handle);
        }
        assert(r@ =~= windows@.take(i + 1).filter(p).map_values(|w: Window| w.handle));
        i = i + 1;
    }
    assert(windows@.take(windows@.len() as int) == windows@);
    r
}

/// What applies the requested visibility to every taskbar among the windows.
pub fn set_hidden(windows: &Vec<Window>, hidden: bool) -> (r: Vec<ShowWindow>)
    ensures
        r@ == taskbars(windows@).map_values(|h: isize| visibility(h, hidden)),
{
    let bars = collect_taskbars(windows);
    let mut r: Vec<ShowWindow> = Vec::new();
    let mut i: usize = 0;
    while i < bars.len()
        invariant
            i <= bars@.len(),
            r@ == bars@.take(i as int).map_values(|h: isize| visibility(h, hidden)),
        decreases bars@.len() - i,
    {
        r.push(
            ShowWindow {
                handle: bars[i],
                show: if hidden {
                    SW_HIDE
                } else {
                    SW_SHOWNA
                },
            },
        );
        i = i + 1;
        assert(r@ =~= bars@.take(i as int).map_values(|h: isize| visibility(h, hidden)));
    }
    assert(bars@.take(bars@.len() as int) == bars@);
    r
}

/// What a round of the re-hiding loop does.
#[derive(Debug, Clone, Copy, PartialEq, Eq)]
pub struct Rehide {
    /// Hide the taskbars again.
    pub hide: bool,
    /// Log these counts of keyboard events and of Win-key events.
    pub log: Option<(u32, u32)>,
}

/// The wait between rounds, in milliseconds.
pub const REHIDE_MS: u64 = 1000;

/// A round of the loop that repeats hiding. Keyboard activity is logged when it
/// changed since it was last logged.
pub fn rehide_round(last_log: &mut (u32, u32), hide_enabled: bool, now: (u32, u32)) -> (r: Rehide)
    ensures
        r.hide == hide_enabled,
        r.log == if now == *old(last_log) {
            None
        } else {
            Some(now)
        },
        *final(last_log) == now,
{
    if now.0 != last_log.0 || now.1 != last_log.1 {
        *last_log = now;
        Rehide { hide: hide_enabled, log: Some(now) }
    } else {
        Rehide { hide: hide_enabled, log: None }
    }
}

/// Hiding and showing reach the same windows: what was hidden is shown again.
pub proof fn shown_again(windows: Seq<Window>, i: int)
    requires
        0 <= i < taskbars(windows).len(),
    ensures
        taskbars(windows).map_values(|h: isize| visibility(h, true))[i].handle == taskbars(
            windows,
        ).map_values(|h: isize| visibility(h, false))[i].handle,
        taskbars(windows).map_values(|h: isize| visibility(h, false))[i].show == SW_SHOWNA,
{
}

/// A window is a taskbar exactly if its class is one of the two.
pub proof fn taskbars_are_told_by_their_class(windows: Seq<Window>, h: isize)
    ensures
        taskbars(windows).contains(h) <==> exists|i: int|
            0 <= i < windows.len() && (#[trigger] windows[i]).handle == h && (windows[i].class@
                == "Shell_TrayWnd"@ || windows[i].class@ == "Shell_SecondaryTrayWnd"@),
{
    let p = |w: Window| taskbar_class(w.class@);
    let kept = windows.filter(p);
    if taskbars(windows).contains(h) {
        let k = choose|k: int| 0 <= k < kept.len() && taskbars(windows)[k] == h;
        windows.lemma_filter_pred(p, k);
        assert(kept.contains(kept[k]));
        windows.lemma_filter_contains_rev(p, kept[k]);
        let i = choose|i: int| 0 <= i < windows.len() && windows[i] == kept[k];
        assert(windows[i].handle == h);
    }
    if exists|i: int|
        0 <= i < windows.len() && (#[trigger] windows[i]).handle == h && (windows[i].class@
            == "Shell_TrayWnd"@ || windows[i].class@ == "Shell_SecondaryTrayWnd"@) {
        let i = choose|i: int|
            0 <= i < windows.len() && (#[trigger] windows[i]).handle == h && (windows[i].class@
                == "Shell_TrayWnd"@ || windows[i].class@ == "Shell_SecondaryTrayWnd"@);
        windows.lemma_filter_contains(p, i);
        let k = choose|k: int| 0 <= k < kept.len() && kept[k] == windows[i];
        assert(taskbars(windows)[k] == h);
    }
}

/// The taskbars of two lists of windows, one after the other, are those of both: each is
/// taken once, in its place.
pub proof fn taskbars_keep_their_order(a: Seq<Window>, b: Seq<Window>)
    ensures
        taskbars(a + b) == taskbars(a) + taskbars(b),
{
    Seq::filter_distributes_over_add(a, b, |w: Window| taskbar_class(w.class@));
    assert(taskbars(a + b) =~= taskbars(a) + taskbars(b));
}

/// Hiding removes a window, showing brings it back without activating it.
pub proof fn hidden_or_shown(handle: isize, hidden: bool)
    ensures
        visibility(handle, hidden).handle == handle,
        visibility(handle, hidden).show == if hidden {
            0int
        } else {
            8int
        },
{
}
} // verus!
