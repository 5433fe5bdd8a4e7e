//! The core thread: the tray icon with its menu, the hotkey that switches everything on
//! and off, and the watch for Start surfaces.
use crate::hook::{dismiss_start_menu_now, release_win_keys, KeyInput};
#[allow(unused_imports)]
use crate::hook::{deadline, escape_tap, win_releases};
use crate::state::{now_ms, Flags};
use crate::text::{contains, same, to_ascii_lowercase};
#[allow(unused_imports)]
use crate::text::{ascii_lowered, contains_text};
use vstd::prelude::*;

verus! {

pub const WM_DESTROY: u32 = 0x0002;

pub const WM_CONTEXTMENU: u32 = 0x007B;

pub const WM_COMMAND: u32 = 0x0111;

pub const WM_LBUTTONUP: u32 = 0x0202;

pub const WM_RBUTTONUP: u32 = 0x0205;

pub const WM_HOTKEY: u32 = 0x0312;

/// The message by which the tray icon reports.
pub const CALLBACK_MSG: u32 = 0x8001;

pub const HSHELL_WINDOWCREATED: usize = 1;

pub const HSHELL_WINDOWACTIVATED: usize = 4;

/// The hotkey that switches everything on and off.
pub const HOTKEY_TOGGLE: u64 = 1;

pub const ID_TOGGLE: usize = 10;

pub const ID_AUTOSTART: usize = 11;

pub const ID_REINDEX: usize = 12;

pub const ID_QUIT: usize = 13;

/// An entry of the tray menu.
#[derive(Debug, PartialEq, Eq)]
pub struct MenuItem {
    pub id: usize,
    pub text: String,
    pub checked: bool,
}

/// What an entry holds.
pub ghost struct MenuItemModel {
    pub id: usize,
    pub text: Seq<char>,
    pub checked: bool,
}

impl View for MenuItem {
    type V = MenuItemModel;

    open spec fn view(&self) -> MenuItemModel {
        MenuItemModel { id: self.id, text: self.text@, checked: self.checked }
    }
}

/// What the tray menu holds.
pub open spec fn menu_model(hide_enabled: bool, autostart: bool) -> Seq<MenuItemModel> {
    seq![
        MenuItemModel { id: ID_TOGGLE, text: "Hide taskbar"@, checked: hide_enabled },
        MenuItemModel { id: ID_AUTOSTART, text: "Start with Windows"@, checked: autostart },
        MenuItemModel { id: ID_REINDEX, text: "Reindex apps"@, checked: false },
        MenuItemModel { id: ID_QUIT, text: "Quit"@, checked: false },
    ]
}

/// The tray menu: the switches are checked if they are on.
pub fn menu(hide_enabled: bool, autostart: bool) -> (r: Vec<MenuItem>)
    ensures
        r@.map_values(|i: MenuItem| i@) == menu_model(hide_enabled, autostart),
{
    let mut r: Vec<MenuItem> = Vec::new();
    r.push(MenuItem { id: ID_TOGGLE, text: "Hide taskbar".to_owned(), checked: hide_enabled });
    r.push(MenuItem { id: ID_AUTOSTART, text: "Start with Windows".to_owned(), checked: autostart });
    r.push(MenuItem { id: ID_REINDEX, text: "Reindex apps".to_owned(), checked: false });
    r.push(MenuItem { id: ID_QUIT, text: "Quit".to_owned(), checked: false });
    assert(r@.map_values(|i: MenuItem| i@) =~= menu_model(hide_enabled, autostart));
    r
}

/// What an entry of the menu asks for.
#[derive(Debug, Clone, Copy, PartialEq, Eq, Structural)]
pub enum MenuCommand {
    ToggleHiding,
    ToggleAutostart,
    Reindex,
    Quit,
}

/// What a message to the core window comes to.
#[derive(Debug, Clone, Copy, PartialEq, Eq, Structural)]
pub enum Reaction {
    /// A window appeared or was activated: it may be a Start surface.
    Watch { window: isize, event: usize },
    /// The hotkey was pressed.
    ToggleApp,
    ShowMenu,
    Command(MenuCommand),
    /// The window goes: the icon is removed and the thread ends.
    Destroy,
    /// The message is ours, and there is nothing to do.
    Ignore,
    /// The message is not ours.
    Default,
}

/// The entry of the menu with the given id.
pub open spec fn command_of(id: usize) -> Option<MenuCommand> {
    if id == ID_TOGGLE {
        Some(MenuCommand::ToggleHiding)
    } else if id == ID_AUTOSTART {
        Some(MenuCommand::ToggleAutostart)
    } else if id == ID_REINDEX {
        Some(MenuCommand::Reindex)
    } else if id == ID_QUIT {
        Some(MenuCommand::Quit)
    } else {
        None
    }
}

/// What a message comes to. `shell_msg` is the number of the shell's notifications, or 0
/// if there are none.
pub open spec fn reaction(shell_msg: u32, msg: u32, wparam: usize, lparam: isize) -> Reaction {
    if shell_msg != 0 && msg == shell_msg {
        if wparam == HSHELL_WINDOWCREATED || wparam == HSHELL_WINDOWACTIVATED {
            Reaction::Watch { window: lparam, event: wparam }
        } else {
            Reaction::Ignore
        }
    } else if msg == WM_HOTKEY {
        if wparam as int % 0x1_0000_0000 == HOTKEY_TOGGLE {
            Reaction::ToggleApp
        } else {
            Reaction::Ignore
        }
    } else if msg == CALLBACK_MSG {
        let event = lparam as int % 0x1_0000;
        if event == WM_RBUTTONUP || event == WM_LBUTTONUP || event == WM_CONTEXTMENU {
            Reaction::ShowMenu
        } else {
            Reaction::Ignore
        }
    } else if msg == WM_COMMAND {
        match command_of((wparam % 0x1_0000) as usize) {
            Some(c) => Reaction::Command(c),
            None => Reaction::Ignore,
        }
    } else if msg == WM_DESTROY {
        Reaction::Destroy
    } else {
        Reaction::Default
    }
}

/// The low 16 bits of a message parameter.
fn low_word(lparam: isize) -> (r: u32)
    ensures
        r == lparam as int % 0x1_0000,
{
    if lparam >= 0 {
        (lparam % 0x1_0000) as u32
    } else {
        let x: i64 = lparam as i64;
        // The remainder of `-x - 1` is the complement of that of `x`.
        let y: i64 = -(x + 1);
        (0xFFFF - y % 0x1_0000) as u32
    }
}

/// Decides on a message to the core window.
pub fn wndproc(shell_msg: u32, msg: u32, wparam: usize, lparam: isize) -> (r: Reaction)
    ensures
        r == reaction(shell_msg, msg, wparam, lparam),
{
    if shell_msg != 0 && msg == shell_msg {
        if wparam == HSHELL_WINDOWCREATED || wparam == HSHELL_WINDOWACTIVATED {
            return Reaction::Watch { window: lparam, event: wparam };
        }
        return Reaction::Ignore;
    }
    if msg == WM_HOTKEY {
        if wparam as u64 % 0x1_0000_0000 == HOTKEY_TOGGLE {
            Reaction::ToggleApp
        } else {
            Reaction::Ignore
        }
    } else if msg == CALLBACK_MSG {
        let event: u32 = low_word(lparam);
        if event == WM_RBUTTONUP || event == WM_LBUTTONUP || event == WM_CONTEXTMENU {
            Reaction::ShowMenu
        } else {
            Reaction::Ignore
        }
    } else if msg == WM_COMMAND {
        let id: usize = wparam % 0x1_0000;
        if id == ID_TOGGLE {
            Reaction::Command(MenuCommand::ToggleHiding)
        } else if id == ID_AUTOSTART {
            Reaction::Command(MenuCommand::ToggleAutostart)
        } else if id == ID_REINDEX {
            Reaction::Command(MenuCommand::Reindex)
        } else if id == ID_QUIT {
            Reaction::Command(MenuCommand::Quit)
        } else {
            Reaction::Ignore
        }
    } else if msg == WM_DESTROY {
        Reaction::Destroy
    } else {
        Reaction::Default
    }
}

/// A step of quitting.
#[derive(Debug, Clone, Copy, PartialEq, Eq, Structural)]
pub enum QuitStep {
    /// Give back the strip that was reserved for the top bar.
    ReleaseStrip,
    ShowTaskbar,
    RemoveIcon,
    Exit,
}

/// What quitting does, in order: the desktop is restored before the process exits.
pub fn quit_steps() -> (r: Vec<QuitStep>)
    ensures
        r@ == seq![
            QuitStep::ReleaseStrip,
            QuitStep::ShowTaskbar,
            QuitStep::RemoveIcon,
            QuitStep::Exit,
        ],
{
    let mut r: Vec<QuitStep> = Vec::new();
    r.push(QuitStep::ReleaseStrip);
    r.push(QuitStep::ShowTaskbar);
    r.push(QuitStep::RemoveIcon);
    r.push(QuitStep::Exit);
    assert(r@ =~= seq![
        QuitStep::ReleaseStrip,
        QuitStep::ShowTaskbar,
        QuitStep::RemoveIcon,
        QuitStep::Exit,
    ]);
    r
}

/// What switching on or off asks for, besides the taskbar.
#[derive(Debug, PartialEq, Eq)]
pub struct Switch {
    /// Keys to release.
    pub keys: Vec<KeyInput>,
    /// Repaint the launcher, which may be hidden.
    pub wake_ui: bool,
    /// The taskbar is to be hidden, or shown.
    pub hide_taskbar: bool,
}

/// The flags after everything was switched on or off. Switching off dismisses the launcher.
pub open spec fn switched(f: Flags, enabled: bool) -> Flags {
    Flags {
        app_enabled: enabled,
        hide_enabled: enabled,
        hide_launcher: f.hide_launcher || !enabled,
        ..f
    }
}

/// Switches everything on or off.
pub fn apply_hide(flags: &mut Flags, enabled: bool) -> (r: Switch)
    ensures
        *final(flags) == switched(*old(flags), enabled),
        r.keys@ == if enabled {
            Seq::empty()
        } else {
            win_releases()
        },
        r.wake_ui == !enabled,
        r.hide_taskbar == enabled,
{
    flags.app_enabled = enabled;
    flags.hide_enabled = enabled;
    if !enabled {
        let keys = release_win_keys();
        flags.hide_launcher = true;
        Switch { keys, wake_ui: true, hide_taskbar: enabled }
    } else {
        Switch { keys: Vec::new(), wake_ui: false, hide_taskbar: enabled }
    }
}

/// The hotkey was pressed: switches off what is on, and on what is off.
pub fn toggle_app(flags: &mut Flags) -> (r: Switch)
    ensures
        *final(flags) == switched(*old(flags), !old(flags).app_enabled),
        r.keys@ == if old(flags).app_enabled {
            win_releases()
        } else {
            Seq::empty()
        },
        r.wake_ui == old(flags).app_enabled,
        r.hide_taskbar == !old(flags).app_enabled,
{
    let enabled = !flags.app_enabled;
    apply_hide(flags, enabled)
}

/// The menu's switch was used: hides what is shown, and shows what is hidden.
pub fn toggle_hiding(flags: &mut Flags) -> (r: Switch)
    ensures
        *final(flags) == switched(*old(flags), !old(flags).hide_enabled),
        r.keys@ == if old(flags).hide_enabled {
            win_releases()
        } else {
            Seq::empty()
        },
        r.wake_ui == old(flags).hide_enabled,
        r.hide_taskbar == !old(flags).hide_enabled,
{
    let enabled = !flags.hide_enabled;
    apply_hide(flags, enabled)
}

/// Start surfaces are kept away at time `now`.
pub open spec fn suppressed(f: Flags, now: u64) -> bool {
    f.start_suppress_until_ms != 0 && now <= f.start_suppress_until_ms
}

/// Whether Start surfaces are kept away at time `now`.
pub fn start_suppression_at(flags: &Flags, now: u64) -> (r: bool)
    ensures
        r == suppressed(*flags, now),
{
    flags.start_suppress_until_ms != 0 && now <= flags.start_suppress_until_ms
}

/// Whether Start surfaces are kept away now.
pub fn start_suppression_active(flags: &Flags) -> (r: bool)
    ensures
        exists|now: u64| r == #[trigger] suppressed(*flags, now),
{
    let now: u64 = now_ms();
    start_suppression_at(flags, now)
}

/// A window of this class and title is probably a Start surface.
pub open spec fn start_surface(class: Seq<char>, title: Seq<char>) -> bool {
    let c = ascii_lowered(class);
    let t = ascii_lowered(title);
    ||| t == "start"@
    ||| contains_text(t, "start menu"@)
    ||| contains_text(t, "search"@)
    ||| contains_text(c, "start"@)
    ||| contains_text(c, "search"@)
    ||| contains_text(c, "shellexperience"@)
    ||| c == "windows.ui.core.corewindow"@
    ||| c == "applicationframewindow"@
}

/// Whether a window of this class and title is probably a Start surface.
pub fn looks_like_start_surface(class: &str, title: &str) -> (r: bool)
    ensures
        r == start_surface(class@, title@),
{
    let c = to_ascii_lowercase(class);
    let t = to_ascii_lowercase(title);
    same(t.as_str(), "start") || contains(t.as_str(), "start menu") || contains(
        t.as_str(),
        "search",
    ) || contains(c.as_str(), "start") || contains(c.as_str(), "search") || contains(
        c.as_str(),
        "shellexperience",
    ) || same(c.as_str(), "windows.ui.core.corewindow") || same(
        c.as_str(),
        "applicationframewindow",
    )
}

/// Whether to look at the foreground window for a Start surface, while Start surfaces are
/// kept away or not. 0 stands for no window.
pub fn poll_foreground_for_start(flags: &Flags, suppressing: bool, window: isize) -> (r: bool)
    ensures
        r == (flags.app_enabled && suppressing && window != 0),
{
    flags.app_enabled && suppressing && window != 0
}

/// The keys that dismiss a window of this class and title, if it is to be dismissed. The
/// window is then asked to close, too.
pub fn maybe_dismiss_start_window(
    flags: &Flags,
    suppressing: bool,
    class: &str,
    title: &str,
) -> (r: Option<Vec<KeyInput>>)
    ensures
        r is Some <==> flags.app_enabled && suppressing && start_surface(class@, title@),
        r matches Some(keys) ==> keys@ == escape_tap(),
{
    if flags.app_enabled && suppressing && looks_like_start_surface(class, title) {
        Some(dismiss_start_menu_now())
    } else {
        None
    }
}

/// Switching twice restores both switches, if they were in step.
pub proof fn toggle_undoes_itself(f: Flags)
    requires
        f.app_enabled == f.hide_enabled,
    ensures
        ({
            let g = switched(f, !f.app_enabled);
            let h = switched(g, !g.app_enabled);
            &&& g.app_enabled == !f.app_enabled && g.hide_enabled == !f.hide_enabled
            &&& h.app_enabled == f.app_enabled && h.hide_enabled == f.hide_enabled
        }),
{
}

/// The two switches are always in step, however they are used.
pub proof fn switches_stay_in_step(f: Flags, enabled: bool)
    ensures
        switched(f, enabled).app_enabled == switched(f, enabled).hide_enabled,
{
}

/// Switching off asks for the launcher to be dismissed.
pub proof fn switching_off_dismisses(f: Flags)
    ensures
        switched(f, false).hide_launcher,
        !switched(f, false).app_enabled,
{
}

/// Start surfaces are kept away from a Win event on, for as long as was asked.
pub proof fn suppression_lasts(f: Flags, now: u64, d: u64, t: u64)
    requires
        0 < now + d <= u64::MAX,
    ensures
        suppressed(Flags { start_suppress_until_ms: deadline(now, d), ..f }, t) <==> t <= now + d,
{
}

/// Every entry of the menu has a command of its own.
pub proof fn menu_commands_differ(hide_enabled: bool, autostart: bool, i: int, j: int)
    requires
        0 <= i < j < 4,
    ensures
        command_of(menu_model(hide_enabled, autostart)[i].id) is Some,
        command_of(menu_model(hide_enabled, autostart)[j].id) is Some,
        command_of(menu_model(hide_enabled, autostart)[i].id) != command_of(
            menu_model(hide_enabled, autostart)[j].id,
        ),
{
}

/// What each message to the core window comes to: the shell's notifications first, then the
/// hotkey, clicks on the icon, the entries of the menu, and the end of the window.
pub proof fn messages_are_told_apart(shell_msg: u32, msg: u32, wparam: usize, lparam: isize)
    ensures
        ({
            let r = reaction(shell_msg, msg, wparam, lparam);
            let shell = shell_msg != 0 && msg == shell_msg;
            let event = lparam as int % 0x1_0000;
            let id = wparam as int % 0x1_0000;
            &&& r is Watch <==> shell && (wparam == 1 || wparam == 4)
            &&& r is Watch ==> r->window == lparam && r->event == wparam
            &&& r is ToggleApp <==> !shell && msg == 0x0312 && wparam as int % 0x1_0000_0000 == 1
            &&& r is ShowMenu <==> !shell && msg == 0x8001 && (event == 0x0205 || event == 0x0202
                || event == 0x007B)
            &&& r == Reaction::Command(MenuCommand::ToggleHiding) <==> !shell && msg == 0x0111 && id
                == 10
            &&& r == Reaction::Command(MenuCommand::ToggleAutostart) <==> !shell && msg == 0x0111
                && id == 11
            &&& r == Reaction::Command(MenuCommand::Reindex) <==> !shell && msg == 0x0111 && id
                == 12
            &&& r == Reaction::Command(MenuCommand::Quit) <==> !shell && msg == 0x0111 && id == 13
            &&& r is Destroy <==> !shell && msg == 0x0002
            &&& r is Default <==> !shell && msg != 0x0312 && msg != 0x8001 && msg != 0x0111 && msg
                != 0x0002
        }),
{
}

/// The menu has four entries, in this order. The first is checked while the taskbar is hidden,
/// the second while we start with Windows, and the others never.
pub proof fn menu_entries(hide_enabled: bool, autostart: bool)
    ensures
        ({
            let m = menu_model(hide_enabled, autostart);
            &&& m.len() == 4
            &&& m[0].id == 10 && m[0].text == "Hide taskbar"@ && m[0].checked == hide_enabled
            &&& m[1].id == 11 && m[1].text == "Start with Windows"@ && m[1].checked == autostart
            &&& m[2].id == 12 && m[2].text == "Reindex apps"@ && !m[2].checked
            &&& m[3].id == 13 && m[3].text == "Quit"@ && !m[3].checked
        }),
{
}

/// Switching sets both switches. Off, it asks for the launcher to be dismissed; on, it asks
/// for nothing. Nothing else changes.
pub proof fn switching_sets_both_switches(f: Flags, enabled: bool)
    ensures
        ({
            let g = switched(f, enabled);
            &&& g.app_enabled == enabled && g.hide_enabled == enabled
            &&& g.hide_launcher == (f.hide_launcher || !enabled)
            &&& g.show_launcher == f.show_launcher && g.launcher_visible == f.launcher_visible
            &&& g.start_suppress_until_ms == f.start_suppress_until_ms
        }),
{
}

/// Without a deadline nothing is kept away.
pub proof fn no_deadline_no_suppression(f: Flags, now: u64)
    ensures
        f.start_suppress_until_ms == 0 ==> !suppressed(f, now),
        f.start_suppress_until_ms != 0 ==> (suppressed(f, now) <==> now
            <= f.start_suppress_until_ms),
{
}

/// A Start surface is told by its title or its class, without regard to the case of ASCII
/// letters: the title is "start" or holds "start menu" or "search", or the class holds "start",
/// "search" or "shellexperience" or is one of two known ones.
pub proof fn start_surfaces_are_told_by_title_or_class(class: Seq<char>, title: Seq<char>)
    ensures
        ({
            let c = ascii_lowered(class);
            let t = ascii_lowered(title);
            start_surface(class, title) <==> {
                ||| t == "start"@
                ||| exists|a: Seq<char>, b: Seq<char>| t == #[trigger] (a + "start menu"@ + b)
                ||| exists|a: Seq<char>, b: Seq<char>| t == #[trigger] (a + "search"@ + b)
                ||| exists|a: Seq<char>, b: Seq<char>| c == #[trigger] (a + "start"@ + b)
                ||| exists|a: Seq<char>, b: Seq<char>| c == #[trigger] (a + "search"@ + b)
                ||| exists|a: Seq<char>, b: Seq<char>| c == #[trigger] (a + "shellexperience"@ + b)
                ||| c == "windows.ui.core.corewindow"@
                ||| c == "applicationframewindow"@
            }
        }),
{
    let c = ascii_lowered(class);
    let t = ascii_lowered(title);
    crate::text::contained_text_has_a_place(t, "start menu"@);
    crate::text::contained_text_has_a_place(t, "search"@);
    crate::text::contained_text_has_a_place(c, "start"@);
    crate::text::contained_text_has_a_place(c, "search"@);
    crate::text::contained_text_has_a_place(c, "shellexperience"@);
}
} // verus!
