//! The top bar: date and time, a magnifying glass that opens the launcher, and a gear
//! that opens a settings panel.
//!
//! The panel has a sound slider, a choice of appearance (translucent or dark) and a
//! button that opens the system's settings.
use crate::state::Flags;
use crate::text::{same, trim};
#[allow(unused_imports)]
use crate::text::{trim_end, trim_start, trimmed, white};
use vstd::prelude::*;

verus! {

/// For so many nanoseconds after opening, a loss of focus does not close the panel.
pub const PANEL_GRACE_NS: u64 = 250_000_000;

#[derive(Debug, Clone, Copy, PartialEq, Eq, Structural)]
pub struct TopBar {
    pub settings_open: bool,
    pub muted: bool,
    /// Semi-transparent if set, else solid and dark. Kept across restarts.
    pub translucent: bool,
    /// Per-pixel alpha was enabled on the bar's window, and on the panel's.
    pub bar_alpha_on: bool,
    pub panel_alpha_on: bool,
    pub settings_shown_at: u64,
    pub settings_focused_once: bool,
}

/// The appearance that a configuration file asks for: only "dark" opts out of the
/// translucent look.
pub open spec fn asks_translucent(config: Option<Seq<char>>) -> bool {
    match config {
        Some(s) => trimmed(s) != "dark"@,
        None => true,
    }
}

/// The configuration file of an appearance.
pub open spec fn config_of(translucent: bool) -> Seq<char> {
    if translucent {
        "translucent"@
    } else {
        "dark"@
    }
}

/// The appearance that is kept in a configuration file; `None` if there is no such file.
pub fn load_translucent(config: Option<&str>) -> (r: bool)
    ensures
        r == asks_translucent(
            match config {
                Some(s) => Some(s@),
                None => None,
            },
        ),
{
    match config {
        Some(s) => !same(trim(s).as_str(), "dark"),
        None => true,
    }
}

/// The configuration file that keeps an appearance.
pub fn save_translucent(translucent: bool) -> (r: &'static str)
    ensures
        r@ == config_of(translucent),
{
    if translucent {
        "translucent"
    } else {
        "dark"
    }
}

/// The chosen appearance is remembered.
pub proof fn appearance_is_remembered(translucent: bool)
    ensures
        asks_translucent(Some(config_of(translucent))) == translucent,
{
    reveal_strlit("dark");
    reveal_strlit("translucent");
    let s = config_of(translucent);
    assert(!white(s[0]) && !white(s.last()));
    assert(trimmed(s) == s);
}

impl TopBar {
    /// The bar at startup.
    pub fn new(muted: bool, translucent: bool, clock: u64) -> (r: TopBar)
        ensures
            r == (TopBar {
                settings_open: false,
                muted,
                translucent,
                bar_alpha_on: false,
                panel_alpha_on: false,
                settings_shown_at: clock,
                settings_focused_once: false,
            }),
    {
        TopBar {
            settings_open: false,
            muted,
            translucent,
            bar_alpha_on: false,
            panel_alpha_on: false,
            settings_shown_at: clock,
            settings_focused_once: false,
        }
    }

    /// The bar with its panel opened at `clock`. The panel's window is a new one.
    pub open spec fn opened(self, muted: bool, clock: u64) -> TopBar {
        TopBar {
            settings_open: true,
            settings_shown_at: clock,
            settings_focused_once: false,
            panel_alpha_on: false,
            muted,
            ..self
        }
    }

    /// Opens the settings panel.
    pub fn open_settings(&mut self, muted: bool, clock: u64)
        ensures
            *final(self) == old(self).opened(muted, clock),
    {
        self.settings_open = true;
        self.settings_shown_at = clock;
        self.settings_focused_once = false;
        self.panel_alpha_on = false;
        self.muted = muted;
    }

    /// Whether a click on the gear opens the panel: an open one stays as it is.
    pub fn gear_opens(&self) -> (r: bool)
        ensures
            r == !self.settings_open,
    {
        !self.settings_open
    }

    /// The magnifying glass was clicked: closes the panel and asks for the launcher.
    pub fn search_clicked(&mut self, flags: &mut Flags)
        ensures
            *final(self) == (TopBar { settings_open: false, ..*old(self) }),
            *final(flags) == (Flags { show_launcher: true, ..*old(flags) }),
    {
        self.settings_open = false;
        flags.show_launcher = true;
    }

    /// The bar's window was found: whether per-pixel alpha is to be enabled on it now.
    pub fn bar_needs_alpha(&mut self) -> (r: bool)
        ensures
            r == !old(self).bar_alpha_on,
            *final(self) == (TopBar { bar_alpha_on: true, ..*old(self) }),
    {
        let r = !self.bar_alpha_on;
        self.bar_alpha_on = true;
        r
    }

    /// Whether per-pixel alpha is to be enabled on the panel's window now, given whether
    /// the window was found.
    pub fn panel_needs_alpha(&mut self, found: bool) -> (r: bool)
        ensures
            r == (found && !old(self).panel_alpha_on),
            *final(self) == (TopBar {
                panel_alpha_on: old(self).panel_alpha_on || found,
                ..*old(self)
            }),
    {
        let r = found && !self.panel_alpha_on;
        if found {
            self.panel_alpha_on = true;
        }
        r
    }

    /// The panel closes on a frame: it had the focus, now or before, has it no longer
    /// and the time of grace is over, or it was asked to close, or Escape was pressed.
    pub open spec fn closes(
        self,
        focused: bool,
        clock: u64,
        close_requested: bool,
        escape: bool,
    ) -> bool {
        (self.settings_focused_once && !focused && clock - self.settings_shown_at > PANEL_GRACE_NS)
            || close_requested || escape
    }

    /// Takes in a frame of the open panel. Returns whether it goes on.
    pub fn settings_frame(
        &mut self,
        focused: Option<bool>,
        clock: u64,
        close_requested: bool,
        escape: bool,
    ) -> (r: bool)
        ensures
            r == !old(self).closes(focused == Some(true), clock, close_requested, escape),
            *final(self) == (TopBar {
                settings_focused_once: old(self).settings_focused_once || focused == Some(true),
                settings_open: r && old(self).settings_open,
                ..*old(self)
            }),
    {
        let focused = match focused {
            Some(f) => f,
            None => false,
        };
        if focused {
            self.settings_focused_once = true;
        }
        let grace = clock > self.settings_shown_at && clock - self.settings_shown_at
            > PANEL_GRACE_NS;
        if (self.settings_focused_once && !focused && grace) || close_requested || escape {
            self.settings_open = false;
            false
        } else {
            true
        }
    }

    /// The volume was set: silence counts as muted.
    pub fn volume_set(&mut self, silent: bool)
        ensures
            *final(self) == (TopBar { muted: silent, ..*old(self) }),
    {
        self.muted = silent;
    }

    /// Whether the speaker is drawn as muted.
    pub fn looks_muted(&self, silent: bool) -> (r: bool)
        ensures
            r == (self.muted || silent),
    {
        self.muted || silent
    }

    /// The two buttons of the appearance were clicked, or not; the translucent one comes
    /// first. Returns the appearance to keep, if it was chosen anew.
    pub fn choose_appearance(&mut self, translucent_clicked: bool, dark_clicked: bool) -> (r: Option<
        bool,
    >)
        ensures
            *final(self) == (TopBar {
                translucent: !dark_clicked && (translucent_clicked || old(self).translucent),
                ..*old(self)
            }),
            r == if (translucent_clicked && !old(self).translucent) || (dark_clicked && old(
                self,
            ).translucent) {
                Some(final(self).translucent)
            } else {
                None
            },
    {
        let mut r: Option<bool> = None;
        if translucent_clicked && !self.translucent {
            self.translucent = true;
            r = Some(true);
        }
        if dark_clicked && self.translucent {
            self.translucent = false;
            r = Some(false);
        }
        r
    }

    /// The button of the system's settings was clicked: closes the panel. Returns the id
    /// of the app to launch.
    pub fn system_settings_clicked(&mut self) -> (r: &'static str)
        ensures
            *final(self) == (TopBar { settings_open: false, ..*old(self) }),
            r@ == "ms-settings:"@,
    {
        self.settings_open = false;
        "ms-settings:"
    }
}

/// The bar is translucent unless its configuration, trimmed, is "dark".
pub proof fn only_dark_opts_out(config: Seq<char>)
    ensures
        asks_translucent(None),
        asks_translucent(Some(config)) <==> trimmed(config) != seq!['d', 'a', 'r', 'k'],
        config_of(false) == seq!['d', 'a', 'r', 'k'],
        config_of(true) != seq!['d', 'a', 'r', 'k'],
{
    reveal_strlit("dark");
    reveal_strlit("translucent");
    assert("dark"@ =~= seq!['d', 'a', 'r', 'k']);
    assert("translucent"@.len() == 11);
}

/// The panel closes on Escape, when it is asked to, or when it had the focus, has it no more,
/// and more than 250 ms have passed since it was opened. In no other case.
pub proof fn panel_closes_on_escape_or_loss_of_focus(
    t: TopBar,
    focused: bool,
    clock: u64,
    close_requested: bool,
    escape: bool,
)
    ensures
        t.closes(focused, clock, close_requested, escape) <==> escape || close_requested || (
        t.settings_focused_once && !focused && clock - t.settings_shown_at > 250_000_000),
{
}

/// A panel that was just opened never had the focus, and its window has no alpha yet; the
/// bar's window and the appearance stay as they are.
pub proof fn opened_panel_is_new(t: TopBar, muted: bool, clock: u64)
    ensures
        ({
            let o = t.opened(muted, clock);
            &&& o.settings_open && !o.settings_focused_once && !o.panel_alpha_on
            &&& o.settings_shown_at == clock && o.muted == muted
            &&& o.translucent == t.translucent && o.bar_alpha_on == t.bar_alpha_on
        }),
{
}
} // verus!
