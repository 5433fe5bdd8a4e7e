use fast_win_launcher::appbar::{self, AppBar};
use fast_win_launcher::apps::{
    bitmap_buffer_len, bitmap_to_rgba, build_index, collect, index_into_global, is_listed, launch,
    to_rgba, ShellApp,
};
use fast_win_launcher::autostart::{
    ensure_lowlevel_hooks_timeout, scancode_map, set_enabled, RunEntry, HOOKS_TIMEOUT_MS,
};
use fast_win_launcher::cli::{install_message, list_report, parse, remove_message, Command};
use fast_win_launcher::geometry::{centered_x, round_region, Rect};
use fast_win_launcher::hook::{dismiss_start_menu_now, release_win_keys};
use fast_win_launcher::power::{PowerAction, ACTIONS};
use fast_win_launcher::state::{apps, set_apps, AppEntry, AppIndex, Flags};
use fast_win_launcher::taskbar::{
    collect_taskbars, rehide_round, set_hidden, Rehide, ShowWindow, Window, SW_HIDE, SW_SHOWNA,
};
use fast_win_launcher::text::{is_whitespace, to_wide};
use fast_win_launcher::tray::{
    apply_hide, looks_like_start_surface, maybe_dismiss_start_window, menu,
    poll_foreground_for_start, quit_steps, start_suppression_active, start_suppression_at,
    toggle_app, toggle_hiding, wndproc, MenuCommand, MenuItem, QuitStep, Reaction, CALLBACK_MSG,
    WM_COMMAND, WM_CONTEXTMENU, WM_DESTROY, WM_HOTKEY, WM_LBUTTONUP, WM_RBUTTONUP,
};
use fast_win_launcher::volume::{endpoint_for, is_muted, mute_to_set, toggle_mute, unmutes, Endpoint};

fn window(handle: isize, class: &str) -> Window {
    Window { handle, class: class.to_owned() }
}

fn shell_app(name: &str, id: &str) -> ShellApp {
    ShellApp { name: name.to_owned(), parsing_name: id.to_owned(), icon: None }
}

fn entry(name: &str, icon: Option<(u32, u32, Vec<u8>)>) -> AppEntry {
    AppEntry {
        name: name.to_owned(),
        parsing_name: name.to_owned(),
        lower_name: name.to_lowercase(),
        icon,
    }
}

// Taskbar

#[test]
fn taskbars_are_found_by_class() {
    let all = vec![
        window(1, "Shell_TrayWnd"),
        window(2, "Progman"),
        window(3, "Shell_SecondaryTrayWnd"),
        window(4, "shell_traywnd"),
    ];
    assert_eq!(collect_taskbars(&all), vec![1, 3]);
    assert_eq!(
        set_hidden(&all, true),
        vec![
            ShowWindow { handle: 1, show: SW_HIDE },
            ShowWindow { handle: 3, show: SW_HIDE },
        ]
    );
    assert_eq!(
        set_hidden(&all, false),
        vec![
            ShowWindow { handle: 1, show: SW_SHOWNA },
            ShowWindow { handle: 3, show: SW_SHOWNA },
        ]
    );
}

#[test]
fn activity_is_logged_when_it_changed() {
    let mut last = (0, 0);
    assert_eq!(rehide_round(&mut last, true, (0, 0)), Rehide { hide: true, log: None });
    assert_eq!(
        rehide_round(&mut last, false, (5, 1)),
        Rehide { hide: false, log: Some((5, 1)) }
    );
    assert_eq!(last, (5, 1));
    assert_eq!(rehide_round(&mut last, true, (5, 1)), Rehide { hide: true, log: None });
}

// Apps

#[test]
fn index_is_in_the_order_of_lowercase_names() {
    let list = build_index(vec![
        shell_app("Zoom", "z"),
        shell_app("alpha", "a1"),
        shell_app("ÉLAN", "e"),
        shell_app("Alpha", "a2"),
        shell_app("", "nameless"),
        shell_app("No id", ""),
    ]);
    let names: Vec<&str> = list.iter().map(|a| a.name.as_str()).collect();
    assert_eq!(names, vec!["alpha", "Alpha", "Volume mixer", "Zoom", "ÉLAN"]);
    let lower: Vec<&str> = list.iter().map(|a| a.lower_name.as_str()).collect();
    assert_eq!(
        lower,
        vec!["alpha", "alpha", "volume mixer sound audio settings", "zoom", "élan"]
    );
    assert_eq!(list[0].parsing_name, "a1");
    assert_eq!(list[2].parsing_name, "ms-settings:apps-volume");
    assert_eq!(list[2].icon, None);
}

#[test]
fn unnamed_apps_are_not_listed() {
    assert!(is_listed("a", "b"));
    assert!(!is_listed("", "b"));
    assert!(!is_listed("a", ""));
}

#[test]
fn nothing_is_indexed_without_a_list() {
    assert_eq!(collect(None), vec![]);
    assert_eq!(collect(Some(vec![])).len(), 1);
}

#[test]
fn index_counts_its_lists() {
    let mut index = AppIndex::new();
    assert_eq!((apps(&index).len(), index.generation), (0, 0));
    index_into_global(&mut index, Some(vec![shell_app("Paint", "p")]));
    assert_eq!((apps(&index).len(), index.generation), (2, 1));
    index_into_global(&mut index, None);
    assert_eq!((apps(&index).len(), index.generation), (0, 2));
    index.generation = u64::MAX;
    set_apps(&mut index, vec![entry("x", None)]);
    assert_eq!((apps(&index).len(), index.generation), (1, 0));
}

#[test]
fn clones_hold_the_same() {
    let a = entry("Paint", Some((1, 1, vec![1, 2, 3, 4])));
    assert_eq!(a.clone(), a);
}

#[test]
fn apps_are_left_to_explorer() {
    let l = launch("Microsoft.Paint_8wekyb3d8bbwe!App");
    assert_eq!(l.file, "explorer.exe");
    assert_eq!(
        l.params.as_deref(),
        Some("shell:AppsFolder\\Microsoft.Paint_8wekyb3d8bbwe!App")
    );
    assert_eq!(l.target, "shell:AppsFolder\\Microsoft.Paint_8wekyb3d8bbwe!App");
    let l = launch("ms-settings");
    assert_eq!(l.file, "explorer.exe");
}

#[test]
fn settings_pages_are_opened_as_they_are() {
    let l = launch("ms-settings:apps-volume");
    assert_eq!(l.file, "ms-settings:apps-volume");
    assert_eq!(l.params, None);
    assert_eq!(l.target, "ms-settings:apps-volume");
}

#[test]
fn bitmaps_without_pixels_are_refused() {
    assert_eq!(bitmap_buffer_len(true, 40, 40), Some(6400));
    assert_eq!(bitmap_buffer_len(false, 40, 40), None);
    assert_eq!(bitmap_buffer_len(true, 0, 40), None);
    assert_eq!(bitmap_buffer_len(true, 40, -1), None);
    assert_eq!(bitmap_to_rgba(1, 1, 0, vec![1, 2, 3, 4]), None);
}

#[test]
fn channels_are_swapped() {
    assert_eq!(
        bitmap_to_rgba(2, 1, 1, vec![1, 2, 3, 4, 5, 6, 7, 0]),
        Some((2, 1, vec![3, 2, 1, 4, 7, 6, 5, 0]))
    );
}

#[test]
fn icons_without_alpha_are_opaque() {
    assert_eq!(
        to_rgba(vec![1, 2, 3, 0, 5, 6, 7, 0]),
        vec![3, 2, 1, 255, 7, 6, 5, 255]
    );
    assert_eq!(to_rgba(vec![1, 2, 3, 0, 9]), vec![3, 2, 1, 255, 9]);
    assert_eq!(to_rgba(vec![]), vec![]);
}

#[test]
fn swapping_twice_restores() {
    let pixels = vec![1, 2, 3, 4, 5, 6, 7, 8];
    assert_eq!(to_rgba(to_rgba(pixels.clone())), pixels);
}

// Tray

#[test]
fn menu_shows_the_switches() {
    let item = |id: usize, text: &str, checked: bool| MenuItem { id, text: text.to_owned(), checked };
    assert_eq!(
        menu(true, false),
        vec![
            item(10, "Hide taskbar", true),
            item(11, "Start with Windows", false),
            item(12, "Reindex apps", false),
            item(13, "Quit", false),
        ]
    );
    assert!(menu(false, true)[1].checked);
}

#[test]
fn menu_entries_are_commands() {
    let command = |id: usize| wndproc(0, WM_COMMAND, id, 0);
    assert_eq!(command(10), Reaction::Command(MenuCommand::ToggleHiding));
    assert_eq!(command(11), Reaction::Command(MenuCommand::ToggleAutostart));
    assert_eq!(command(12), Reaction::Command(MenuCommand::Reindex));
    assert_eq!(command(0x5_0000 + 13), Reaction::Command(MenuCommand::Quit));
    assert_eq!(command(14), Reaction::Ignore);
}

#[test]
fn hotkey_toggles() {
    assert_eq!(wndproc(0, WM_HOTKEY, 1, 0), Reaction::ToggleApp);
    assert_eq!(wndproc(0, WM_HOTKEY, 2, 0), Reaction::Ignore);
    assert_eq!(wndproc(0, WM_HOTKEY, 0x1_0000_0001, 0), Reaction::ToggleApp);
}

#[test]
fn clicks_on_the_icon_show_the_menu() {
    for event in [WM_RBUTTONUP, WM_LBUTTONUP, WM_CONTEXTMENU] {
        assert_eq!(wndproc(0, CALLBACK_MSG, 0, event as isize), Reaction::ShowMenu);
        assert_eq!(
            wndproc(0, CALLBACK_MSG, 0, event as isize - 0x1_0000),
            Reaction::ShowMenu
        );
        assert_eq!(
            wndproc(0, CALLBACK_MSG, 0, event as isize + 0x3_0000),
            Reaction::ShowMenu
        );
    }
    assert_eq!(wndproc(0, CALLBACK_MSG, 0, 0x0200), Reaction::Ignore);
    assert_eq!(wndproc(0, CALLBACK_MSG, 0, -1), Reaction::Ignore);
}

#[test]
fn shell_messages_are_watched() {
    let msg = 0xC123;
    assert_eq!(wndproc(msg, msg, 1, 42), Reaction::Watch { window: 42, event: 1 });
    assert_eq!(wndproc(msg, msg, 4, 42), Reaction::Watch { window: 42, event: 4 });
    assert_eq!(wndproc(msg, msg, 2, 42), Reaction::Ignore);
    assert_eq!(wndproc(0, msg, 1, 42), Reaction::Default);
    assert_eq!(wndproc(0, 0, 1, 42), Reaction::Default);
}

#[test]
fn window_goes() {
    assert_eq!(wndproc(0, WM_DESTROY, 0, 0), Reaction::Destroy);
    assert_eq!(
        quit_steps(),
        vec![
            QuitStep::ReleaseStrip,
            QuitStep::ShowTaskbar,
            QuitStep::RemoveIcon,
            QuitStep::Exit,
        ]
    );
}

#[test]
fn switching_off_dismisses_and_restores() {
    let mut flags = Flags::new();
    let s = toggle_app(&mut flags);
    assert_eq!(s.keys, release_win_keys());
    assert!(s.wake_ui && !s.hide_taskbar);
    assert_eq!(
        flags,
        Flags { app_enabled: false, hide_enabled: false, hide_launcher: true, ..Flags::new() }
    );
    let s = toggle_app(&mut flags);
    assert!(s.keys.is_empty() && !s.wake_ui && s.hide_taskbar);
    assert!(flags.app_enabled && flags.hide_enabled && flags.hide_launcher);
}

#[test]
fn menu_switch_follows_hiding() {
    let mut flags = Flags { app_enabled: false, ..Flags::new() };
    let s = toggle_hiding(&mut flags);
    assert!(!s.hide_taskbar && !flags.app_enabled && !flags.hide_enabled);
    let mut flags = Flags::new();
    let s = apply_hide(&mut flags, true);
    assert!(s.hide_taskbar && s.keys.is_empty());
    assert_eq!(flags, Flags::new());
}

#[test]
fn suppression_ends() {
    let flags = Flags { start_suppress_until_ms: 100, ..Flags::new() };
    assert!(start_suppression_at(&flags, 99));
    assert!(start_suppression_at(&flags, 100));
    assert!(!start_suppression_at(&flags, 101));
    assert!(!start_suppression_at(&Flags::new(), 0));
    let instant = Flags { start_suppress_until_ms: 7, ..Flags::new() };
    assert!(start_suppression_at(&instant, 7) && !start_suppression_at(&instant, 8));
    assert!(!start_suppression_active(&flags));
    let forever = Flags { start_suppress_until_ms: u64::MAX, ..Flags::new() };
    assert!(start_suppression_active(&forever));
}

#[test]
fn start_surfaces() {
    assert!(looks_like_start_surface("", "Start"));
    assert!(!looks_like_start_surface("", "Starting"));
    assert!(looks_like_start_surface("", "My Start Menu"));
    assert!(looks_like_start_surface("", "reSEARCH"));
    assert!(looks_like_start_surface("XamlStartHost", ""));
    assert!(looks_like_start_surface("SearchPane", ""));
    assert!(looks_like_start_surface("ShellExperienceHost", ""));
    assert!(looks_like_start_surface("Windows.UI.Core.CoreWindow", ""));
    assert!(!looks_like_start_surface("Windows.UI.Core.CoreWindow2", ""));
    assert!(looks_like_start_surface("ApplicationFrameWindow", "Calculator"));
    assert!(!looks_like_start_surface("Notepad", "readme.txt - Notepad"));
}

#[test]
fn start_surfaces_are_dismissed_only_while_suppressed() {
    let on = Flags::new();
    let off = Flags { app_enabled: false, ..on };
    assert_eq!(
        maybe_dismiss_start_window(&on, true, "x", "Start"),
        Some(dismiss_start_menu_now())
    );
    assert_eq!(maybe_dismiss_start_window(&on, false, "x", "Start"), None);
    assert_eq!(maybe_dismiss_start_window(&off, true, "x", "Start"), None);
    assert_eq!(maybe_dismiss_start_window(&on, true, "x", "y"), None);
    assert!(poll_foreground_for_start(&on, true, 5));
    assert!(!poll_foreground_for_start(&on, true, 0));
    assert!(!poll_foreground_for_start(&on, false, 5));
    assert!(!poll_foreground_for_start(&off, true, 5));
}

// Reserved strip

#[test]
fn strip_spans_the_top_edge() {
    let r = appbar::strip(1920, 30);
    assert_eq!(r, Rect { left: 0, top: 0, right: 1920, bottom: 30 });
    assert_eq!((r.width(), r.height()), (1920, 30));
}

#[test]
fn strip_is_reserved_anew_when_things_move() {
    let r = appbar::wndproc(appbar::APPBAR_CALLBACK, 1);
    assert!(r.reserve && !r.release && !r.default);
    let r = appbar::wndproc(appbar::APPBAR_CALLBACK, 0x1_0000_0001);
    assert!(r.reserve);
    let r = appbar::wndproc(appbar::APPBAR_CALLBACK, 2);
    assert!(!r.reserve && !r.release && !r.default);
    let r = appbar::wndproc(appbar::WM_DISPLAYCHANGE, 0);
    assert!(r.reserve && !r.release && r.default);
    let r = appbar::wndproc(appbar::WM_DESTROY, 0);
    assert!(!r.reserve && r.release && !r.default);
    let r = appbar::wndproc(0x1234, 1);
    assert!(!r.reserve && !r.release && r.default);
}

#[test]
fn strip_is_released_once() {
    let mut bar = AppBar::new();
    assert_eq!(bar.remove(), None);
    bar.install(77);
    assert_eq!(bar.remove(), Some(77));
    assert_eq!(bar.remove(), None);
}

// Registry

#[test]
fn scancode_map_turns_win_into_function_keys() {
    assert_eq!(
        scancode_map(),
        vec![
            0, 0, 0, 0, 0, 0, 0, 0, 3, 0, 0, 0, 0x64, 0, 0x5B, 0xE0, 0x65, 0, 0x5C, 0xE0, 0, 0, 0, 0
        ]
    );
}

#[test]
fn timeout_is_raised_only() {
    assert_eq!(ensure_lowlevel_hooks_timeout(None, 3000), Some(3000));
    assert_eq!(ensure_lowlevel_hooks_timeout(Some(2999), 3000), Some(3000));
    assert_eq!(ensure_lowlevel_hooks_timeout(Some(3000), 3000), None);
    assert_eq!(ensure_lowlevel_hooks_timeout(Some(5000), HOOKS_TIMEOUT_MS), None);
}

#[test]
fn autostart_entry_is_the_quoted_path() {
    let expected: Vec<u8> = "\"C:\\é 😀.exe\"\0"
        .encode_utf16()
        .flat_map(|u| u.to_le_bytes())
        .collect();
    assert_eq!(set_enabled(true, Some("C:\\é 😀.exe")), RunEntry::Write(expected));
    assert_eq!(set_enabled(true, None), RunEntry::Keep);
    assert_eq!(set_enabled(false, Some("C:\\a.exe")), RunEntry::Delete);
    assert_eq!(set_enabled(false, None), RunEntry::Delete);
}

// Command line

fn args(list: &[&str]) -> Vec<String> {
    list.iter().map(|s| s.to_string()).collect()
}

#[test]
fn flags_of_the_command_line() {
    assert_eq!(parse(&args(&[])), Command::Run { demo: false });
    assert_eq!(parse(&args(&["--demo"])), Command::Run { demo: true });
    assert_eq!(parse(&args(&["x", "--hide"])), Command::Hide);
    assert_eq!(parse(&args(&["--show"])), Command::Show);
    assert_eq!(parse(&args(&["--list"])), Command::List);
    assert_eq!(parse(&args(&["--install-win-remap"])), Command::InstallRemap);
    assert_eq!(parse(&args(&["--remove-win-remap"])), Command::RemoveRemap);
    assert_eq!(parse(&args(&["--HIDE"])), Command::Run { demo: false });
}

#[test]
fn earlier_flags_win() {
    assert_eq!(parse(&args(&["--show", "--hide"])), Command::Hide);
    assert_eq!(parse(&args(&["--list", "--show"])), Command::Show);
    assert_eq!(parse(&args(&["--demo", "--remove-win-remap"])), Command::RemoveRemap);
    assert_eq!(
        parse(&args(&["--remove-win-remap", "--install-win-remap"])),
        Command::InstallRemap
    );
}

#[test]
fn report_lists_the_first_apps() {
    assert_eq!(list_report(&vec![]), "indexed 0 apps\n");
    let list = vec![entry("Paint", Some((1, 1, vec![0, 0, 0, 0]))), entry("Mail", None)];
    assert_eq!(list_report(&list), "indexed 2 apps\n[icon] Paint\n[    ] Mail\n");
    let many: Vec<AppEntry> = (0..105).map(|i| entry(&format!("app {i}"), None)).collect();
    let text = list_report(&many);
    assert!(text.starts_with("indexed 105 apps\n[    ] app 0\n"));
    assert!(text.ends_with("[    ] app 19\n"));
    assert_eq!(text.lines().count(), 21);
}

#[test]
fn remap_messages() {
    assert_eq!(
        install_message(true),
        "install Win-key scancode remap: ok. Reboot or sign out/in for it to take effect."
    );
    assert_eq!(
        install_message(false),
        "install Win-key scancode remap: failed (run as Administrator). Reboot or sign out/in for it to take effect."
    );
    assert_eq!(
        remove_message(true),
        "remove Win-key scancode remap: ok. Reboot or sign out/in for it to take effect."
    );
    assert_eq!(
        remove_message(false),
        "remove Win-key scancode remap: failed (run as Administrator or value missing). Reboot or sign out/in for it to take effect."
    );
}

// Geometry

fn rect(left: i32, top: i32, right: i32, bottom: i32) -> Rect {
    Rect { left, top, right, bottom }
}

#[test]
fn windows_are_centered() {
    assert_eq!(centered_x(1920, rect(-32000, -32000, -31360, -31936)), 640);
    assert_eq!(centered_x(1921, rect(0, 0, 640, 64)), 640);
    assert_eq!(centered_x(600, rect(0, 0, 640, 64)), 0);
    assert_eq!(centered_x(639, rect(0, 0, 640, 64)), 0);
}

#[test]
fn regions_cover_the_window() {
    assert_eq!(round_region(rect(10, 20, 650, 84)), Some((641, 65)));
    assert_eq!(round_region(rect(10, 20, 10, 84)), None);
    assert_eq!(round_region(rect(10, 20, 650, 19)), None);
    assert_eq!(round_region(rect(0, 0, i32::MAX, 1)), Some((i32::MIN, 2)));
    assert_eq!(rect(i32::MIN, 0, i32::MAX, 0).width(), -1);
}

// Power and volume

#[test]
fn power_commands() {
    let labels: Vec<&str> = ACTIONS.iter().map(|a| a.label()).collect();
    assert_eq!(labels, vec!["Shutdown", "Restart", "Sleep"]);
    let c = PowerAction::Shutdown.command();
    assert_eq!((c.program.as_str(), c.args), ("shutdown.exe", args(&["/s", "/t", "0"])));
    let c = PowerAction::Restart.command();
    assert_eq!((c.program.as_str(), c.args), ("shutdown.exe", args(&["/r", "/t", "0"])));
    let c = PowerAction::Sleep.command();
    assert_eq!(
        (c.program.as_str(), c.args),
        ("rundll32.exe", args(&["powrprof.dll,SetSuspendState", "0", "1", "0"]))
    );
}

#[test]
fn mute_flips() {
    assert!(is_muted(Some(true)));
    assert!(!is_muted(Some(false)));
    assert!(!is_muted(None));
    assert!(!mute_to_set(Some(true)));
    assert!(mute_to_set(Some(false)));
    assert!(mute_to_set(None));
    assert!(unmutes(false) && !unmutes(true));
}

#[test]
fn flipping_mute_returns_the_state_afterwards() {
    for m in [true, false] {
        // Accepted: the endpoint then says what it was asked for.
        let after = Some(mute_to_set(Some(m)));
        assert_eq!(toggle_mute(Some(m), true), is_muted(after));
        assert_eq!(toggle_mute(Some(m), true), !m);
        // Refused: it says the same as before.
        assert_eq!(toggle_mute(Some(m), false), is_muted(Some(m)));
    }
    assert!(!toggle_mute(None, false));
    assert!(toggle_mute(None, true));
}

#[test]
fn kept_endpoint_is_tried_first() {
    assert_eq!(endpoint_for(true, false), Endpoint::Kept);
    assert_eq!(endpoint_for(true, true), Endpoint::New);
    assert_eq!(endpoint_for(false, false), Endpoint::New);
}

// Text

#[test]
fn white_space_is_that_of_unicode() {
    for c in '\0'..=char::MAX {
        assert_eq!(is_whitespace(c), c.is_whitespace(), "{c:?}");
    }
}

#[test]
fn wide_text_is_utf16_with_a_zero() {
    for s in ["", "open", "é😀\u{ffff}\u{10000}\u{10ffff}\u{d7ff}\u{e000}"] {
        let expected: Vec<u16> = s.encode_utf16().chain(std::iter::once(0)).collect();
        assert_eq!(to_wide(s), expected);
    }
}
