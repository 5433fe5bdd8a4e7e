use fast_win_launcher::favorites::Favorites;
use fast_win_launcher::hook::{keyboard_proc, HookState, KeyEvent, VK_LWIN, WM_KEYDOWN, WM_KEYUP};
use fast_win_launcher::launcher::{
    Activation, FrameEnd, FrameInput, Launcher, Row, RowKind, FOCUS_GRACE_NS, HEADER_H, SHOWN_FRAMES,
};
use fast_win_launcher::power::PowerAction;
use fast_win_launcher::state::{set_apps, AppEntry, AppIndex, Flags};
use fast_win_launcher::time_fn::{bar_date, bar_time, eval, LocalTime};
use fast_win_launcher::topbar::{load_translucent, save_translucent, TopBar, PANEL_GRACE_NS};
use fast_win_launcher::tray::toggle_app;

fn app(name: &str, id: &str) -> AppEntry {
    AppEntry {
        name: name.to_owned(),
        parsing_name: id.to_owned(),
        lower_name: name.to_lowercase(),
        icon: None,
    }
}

fn index(list: Vec<AppEntry>) -> AppIndex {
    let mut i = AppIndex::new();
    set_apps(&mut i, list);
    i
}

fn three_apps() -> AppIndex {
    index(vec![app("Files", "f"), app("Firefox", "x"), app("Paint", "p")])
}

fn noon() -> LocalTime {
    LocalTime { day_of_week: 6, month: 6, day: 27, hour: 15, minute: 4 }
}

fn opened(favorites: &str, index: &AppIndex) -> (Launcher, Flags) {
    let mut l = Launcher::new(Favorites::load(favorites), 0);
    let mut f = Flags { show_launcher: true, ..Flags::new() };
    assert_eq!(l.serve_requests(&mut f, index, noon(), 0), (true, false));
    (l, f)
}

fn focused() -> FrameInput {
    FrameInput {
        fg_focused: true,
        egui_focused: Some(true),
        clock: 0,
        esc: false,
        up: false,
        down: false,
        enter: false,
    }
}

fn rows(l: &Launcher) -> Vec<RowKind> {
    l.drawn_rows(l.app_count()).iter().map(|r| r.kind).collect()
}

fn text(s: &str) -> String {
    s.to_owned()
}

// Favorites

#[test]
fn favorites_are_kept_one_on_a_line() {
    let mut f = Favorites::load("b\r\n\n  a \t\nb\n");
    assert!(f.contains("a") && f.contains("b") && !f.contains(""));
    assert_eq!(f.text(), "a\nb");
    f.toggle(text("c"));
    assert_eq!(f.text(), "a\nb\nc");
    f.toggle(text("a"));
    assert_eq!(f.text(), "b\nc");
    f.toggle(text("a"));
    assert_eq!(f.text(), "a\nb\nc");
    assert_eq!(Favorites::load(&f.text()).text(), f.text());
}

#[test]
fn no_favorites() {
    assert_eq!(Favorites::new().text(), "");
    assert_eq!(Favorites::load("").text(), "");
    assert_eq!(Favorites::load(" \n\t\n").text(), "");
    let mut f = Favorites::new();
    f.insert(text("é"));
    f.insert(text("z"));
    f.insert(text("z"));
    assert_eq!(f.text(), "z\né");
}

// Opening and closing

#[test]
fn launcher_starts_hidden() {
    let l = Launcher::new(Favorites::new(), 0);
    assert!(!l.is_visible());
    assert_eq!((l.query(), l.row_count(), l.selected()), ("", 0, 0));
}

#[test]
fn blank_query_lists_favorites_only() {
    let index = three_apps();
    let (mut l, f) = opened("x", &index);
    assert!(l.is_visible() && f.launcher_visible && !f.show_launcher);
    assert_eq!(rows(&l), vec![RowKind::App(1)]);
    l.toggle_show_all();
    assert!(l.shows_all());
    assert_eq!(rows(&l), vec![RowKind::App(1), RowKind::App(0), RowKind::App(2)]);
    l.toggle_show_all();
    assert_eq!(rows(&l), vec![RowKind::App(1)]);
}

#[test]
fn requests_are_served_show_first() {
    let index = three_apps();
    let mut l = Launcher::new(Favorites::new(), 0);
    let mut f = Flags { show_launcher: true, hide_launcher: true, ..Flags::new() };
    assert_eq!(l.serve_requests(&mut f, &index, noon(), 0), (true, true));
    assert!(!l.is_visible());
    assert_eq!(f, Flags::new());
    assert_eq!(l.serve_requests(&mut f, &index, noon(), 0), (false, false));
}

#[test]
fn taps_toggle_the_launcher() {
    let index = three_apps();
    let mut l = Launcher::new(Favorites::new(), 0);
    let mut f = Flags::new();
    let mut h = HookState::new();
    for visible in [true, false, true] {
        for message in [WM_KEYDOWN, WM_KEYUP] {
            let ev = KeyEvent { code: 0, message, vk: VK_LWIN as u32, flags: 0, extra: 0 };
            keyboard_proc(&mut h, &mut f, ev);
            l.serve_requests(&mut f, &index, noon(), 0);
        }
        assert_eq!(l.is_visible(), visible);
        assert_eq!(f.launcher_visible, visible);
    }
}

#[test]
fn opening_forgets_the_query() {
    let index = three_apps();
    let (mut l, mut f) = opened("", &index);
    l.edit_query(text("pa"), None, noon());
    l.dismiss(&mut f);
    assert!(!l.is_visible() && !f.launcher_visible);
    assert_eq!(l.query(), "");
    l.edit_query(text("pa"), None, noon());
    l.show(&mut f, &index, noon(), 5);
    assert_eq!(l.query(), "");
    assert_eq!(l.row_count(), 0);
}

#[test]
fn new_lists_are_taken_over() {
    let mut index = three_apps();
    let (mut l, _) = opened("", &index);
    l.edit_query(text("note"), None, noon());
    assert_eq!(l.row_count(), 0);
    assert!(!l.refresh_cache_if_needed(&index, None, noon()));
    set_apps(&mut index, vec![app("Notepad", "n")]);
    assert!(l.refresh_cache_if_needed(&index, None, noon()));
    assert_eq!(rows(&l), vec![RowKind::App(0)]);
    assert_eq!(l.app(0).map(|a| a.parsing_name.as_str()), Some("n"));
    assert!(l.app(1).is_none());
}

// Rows

#[test]
fn queries_rank_favorites_first() {
    let index = three_apps();
    let (mut l, _) = opened("x", &index);
    l.edit_query(text("FI"), None, noon());
    assert_eq!(rows(&l), vec![RowKind::App(1), RowKind::App(0)]);
    assert!(l.is_favorite(1) && !l.is_favorite(0) && !l.is_favorite(9));
    let (mut l, _) = opened("", &index);
    l.edit_query(text("FI"), None, noon());
    assert_eq!(rows(&l), vec![RowKind::App(0), RowKind::App(1)]);
}

#[test]
fn math_comes_first_and_is_copied() {
    let index = three_apps();
    let (mut l, mut f) = opened("", &index);
    l.edit_query(text(" 12*8 "), Some(text("96")), noon());
    assert_eq!(
        l.drawn_rows(l.app_count()),
        vec![Row { kind: RowKind::Math, text: text("12*8 = 96") }]
    );
    assert_eq!(l.activate(&mut f, 0), Activation::Copy(text("96")));
    assert!(!l.is_visible() && !f.launcher_visible);
}

#[test]
fn only_expressions_have_a_math_row() {
    let index = three_apps();
    let (mut l, _) = opened("", &index);
    l.edit_query(text("5"), Some(text("5")), noon());
    assert_eq!(l.math_rows(), 0);
    l.recompute(Some(text("5")), noon());
    assert_eq!(l.math_rows(), 0);
}

#[test]
fn time_is_answered_and_copied() {
    let index = three_apps();
    let (mut l, mut f) = opened("", &index);
    l.edit_query(text("Time"), None, noon());
    assert_eq!(
        l.drawn_rows(l.app_count()),
        vec![Row { kind: RowKind::Time, text: text("time = 3:04 PM") }]
    );
    assert_eq!(l.activate(&mut f, 0), Activation::Copy(text("3:04 PM")));
}

#[test]
fn power_opens_a_menu() {
    let index = index(vec![app("Power tools", "t")]);
    let (mut l, mut f) = opened("", &index);
    l.edit_query(text(" POWER"), None, noon());
    assert!(l.power_root_visible());
    assert_eq!((l.math_rows(), l.app_count()), (1, 0));
    assert_eq!(l.activate(&mut f, 0), Activation::PowerMenu);
    assert!(l.is_visible() && f.launcher_visible && !l.power_root_visible());
    let texts: Vec<String> = l.drawn_rows(l.app_count()).into_iter().map(|r| r.text).collect();
    assert_eq!(texts, vec!["Shutdown", "Restart", "Sleep"]);
    assert_eq!(l.activate(&mut f, 1), Activation::Run(PowerAction::Restart));
    assert!(!l.is_visible());
}

#[test]
fn editing_the_query_leaves_the_power_menu() {
    let index = index(vec![app("Power tools", "t")]);
    let (mut l, mut f) = opened("", &index);
    l.edit_query(text("power"), None, noon());
    l.activate(&mut f, 0);
    l.edit_query(text("powe"), None, noon());
    assert_eq!(rows(&l), vec![RowKind::App(0)]);
}

#[test]
fn apps_are_launched() {
    let index = three_apps();
    let (mut l, mut f) = opened("", &index);
    l.edit_query(text("paint"), None, noon());
    assert_eq!(l.activate(&mut f, 0), Activation::Launch(text("p")));
    assert!(!l.is_visible());
}

#[test]
fn activating_no_row_dismisses() {
    let index = three_apps();
    let (mut l, mut f) = opened("", &index);
    assert_eq!(l.activate(&mut f, 99), Activation::Nothing);
    assert!(!l.is_visible());
}

#[test]
fn stars_toggle_favorites() {
    let index = three_apps();
    let (mut l, _) = opened("x", &index);
    assert_eq!(l.toggle_favorite(0, None, noon()), Some(text("f\nx")));
    assert_eq!(rows(&l), vec![RowKind::App(0), RowKind::App(1)]);
    assert_eq!(l.toggle_favorite(1, None, noon()), Some(text("f")));
    assert_eq!(l.toggle_favorite(7, None, noon()), None);
    assert_eq!(rows(&l), vec![RowKind::App(0)]);
    assert!(Launcher::star_is_meant(false, true, false));
    assert!(Launcher::star_is_meant(true, false, true));
    assert!(!Launcher::star_is_meant(true, false, false));
    assert!(!Launcher::star_is_meant(false, false, true));
}

#[test]
fn starring_twice_restores_the_list() {
    let index = three_apps();
    let (mut l, _) = opened("x", &index);
    l.toggle_show_all();
    let before = rows(&l);
    l.toggle_favorite(2, None, noon());
    assert_eq!(rows(&l), vec![RowKind::App(1), RowKind::App(2), RowKind::App(0)]);
    l.toggle_favorite(2, None, noon());
    assert_eq!(rows(&l), before);
}

#[test]
fn switching_off_hides_the_launcher() {
    let index = three_apps();
    let (mut l, mut f) = opened("", &index);
    toggle_app(&mut f);
    l.serve_requests(&mut f, &index, noon(), 0);
    assert!(!l.is_visible() && !f.launcher_visible);
}

#[test]
fn drawn_rows_follow_the_count() {
    let index = three_apps();
    let (l, _) = opened("", &index);
    assert_eq!(l.drawn_rows(0), vec![]);
    assert_eq!(l.drawn_rows(2).len(), 2);
    assert_eq!(l.drawn_rows(99).len(), 3);
    assert_eq!(l.drawn_rows(1), vec![Row { kind: RowKind::App(0), text: text("Files") }]);
}

// Frames

#[test]
fn arrows_move_around_the_ends() {
    let index = three_apps();
    let (mut l, mut f) = opened("", &index);
    l.toggle_show_all();
    let down = FrameInput { down: true, ..focused() };
    let up = FrameInput { up: true, ..focused() };
    let mut seen = vec![];
    for input in [down, down, down, up, up] {
        let order = l.frame(&mut f, input);
        assert_eq!(order.end, FrameEnd::Draw);
        seen.push(l.selected());
    }
    assert_eq!(seen, vec![1, 2, 0, 2, 1]);
    l.frame(&mut f, FrameInput { up: true, ..down });
    assert_eq!(l.selected(), 1);
}

#[test]
fn enter_activates_the_selected_row() {
    let index = three_apps();
    let (mut l, mut f) = opened("", &index);
    l.toggle_show_all();
    l.frame(&mut f, FrameInput { down: true, ..focused() });
    let order = l.frame(&mut f, FrameInput { down: true, enter: true, ..focused() });
    assert_eq!(order.end, FrameEnd::Activated(Activation::Launch(text("p"))));
    assert!(!l.is_visible());
}

#[test]
fn enter_without_rows_does_nothing() {
    let index = three_apps();
    let (mut l, mut f) = opened("", &index);
    let order = l.frame(&mut f, FrameInput { down: true, enter: true, ..focused() });
    assert_eq!(order.end, FrameEnd::Draw);
    assert_eq!(l.selected(), 0);
}

#[test]
fn enter_meets_the_last_row_of_a_shorter_list() {
    let index = three_apps();
    let (mut l, mut f) = opened("f", &index);
    l.toggle_show_all();
    l.frame(&mut f, FrameInput { up: true, ..focused() });
    assert_eq!(l.selected(), 2);
    l.toggle_show_all();
    let order = l.frame(&mut f, FrameInput { enter: true, ..focused() });
    assert_eq!(order.end, FrameEnd::Activated(Activation::Launch(text("f"))));
}

#[test]
fn escape_dismisses() {
    let index = three_apps();
    let (mut l, mut f) = opened("", &index);
    let order = l.frame(&mut f, FrameInput { esc: true, enter: true, ..focused() });
    assert_eq!(order.end, FrameEnd::Dismissed);
    assert!(!l.is_visible() && !f.launcher_visible);
}

#[test]
fn losing_the_focus_dismisses_after_a_while() {
    let index = three_apps();
    let (mut l, mut f) = opened("", &index);
    let lost = FrameInput { fg_focused: false, egui_focused: None, ..focused() };
    // Never had the focus: it stays, however long.
    let order = l.frame(&mut f, FrameInput { clock: 10 * FOCUS_GRACE_NS, ..lost });
    assert_eq!(order.end, FrameEnd::Draw);
    l.frame(&mut f, focused());
    let order = l.frame(&mut f, FrameInput { clock: FOCUS_GRACE_NS, ..lost });
    assert_eq!(order.end, FrameEnd::Draw);
    let half = FrameInput { egui_focused: Some(true), clock: 2 * FOCUS_GRACE_NS, ..lost };
    assert_eq!(l.frame(&mut f, half).end, FrameEnd::Draw);
    let order = l.frame(&mut f, FrameInput { clock: FOCUS_GRACE_NS + 1, ..lost });
    assert_eq!(order.end, FrameEnd::Dismissed);
}

#[test]
fn foreground_is_asked_for_in_the_first_frames() {
    let index = three_apps();
    let (mut l, mut f) = opened("", &index);
    let lost = FrameInput { fg_focused: false, egui_focused: Some(false), ..focused() };
    for _ in 0..SHOWN_FRAMES {
        assert!(l.frame(&mut f, lost).force_foreground);
    }
    assert!(!l.frame(&mut f, lost).force_foreground);
    let (mut l, mut f) = opened("", &index);
    assert!(!l.frame(&mut f, focused()).force_foreground);
    assert!(!l.frame(&mut f, lost).force_foreground);
}

#[test]
fn window_fits_its_rows() {
    let mut l = Launcher::new(Favorites::new(), 0);
    assert_eq!(l.fit_height(0), None);
    assert_eq!(l.fit_height(1), Some(HEADER_H + 44 + 16));
    assert_eq!(l.fit_height(1), None);
    assert_eq!(l.fit_height(9), Some(64 + 9 * 44 + 16));
    assert_eq!(l.fit_height(500), None);
    assert_eq!(l.fit_height(0), Some(64));
}

// Date and time

#[test]
fn time_queries() {
    for q in ["time", " NOW ", "Current Time"] {
        assert_eq!(eval(q, noon()), Some(text("3:04 PM")), "{q}");
    }
    assert_eq!(eval("times", noon()), None);
    assert_eq!(eval("", noon()), None);
}

#[test]
fn clock_has_twelve_hours() {
    let at = |hour: u16, minute: u16| bar_time(LocalTime { hour, minute, ..noon() });
    assert_eq!(at(0, 0), "12:00 AM");
    assert_eq!(at(1, 9), "1:09 AM");
    assert_eq!(at(11, 59), "11:59 AM");
    assert_eq!(at(12, 10), "12:10 PM");
    assert_eq!(at(23, 5), "11:05 PM");
}

#[test]
fn date_is_short() {
    assert_eq!(bar_date(noon()), "Sat 27 Jun");
    assert_eq!(bar_date(LocalTime { day_of_week: 0, month: 12, day: 1, ..noon() }), "Sun 1 Dec");
    assert_eq!(bar_date(LocalTime { day_of_week: 7, month: 13, day: 9, ..noon() }), " 9 ");
    assert_eq!(bar_date(LocalTime { month: 0, ..noon() }), "Sat 27 Jan");
}

// Top bar

#[test]
fn appearance_is_read_back() {
    assert!(load_translucent(None));
    assert!(load_translucent(Some("whatever")));
    assert!(!load_translucent(Some(" dark\r\n")));
    assert!(load_translucent(Some("Dark")));
    for t in [true, false] {
        assert_eq!(load_translucent(Some(save_translucent(t))), t);
    }
    assert_eq!(save_translucent(true), "translucent");
}

#[test]
fn appearance_is_chosen() {
    let mut t = TopBar::new(false, true, 0);
    assert_eq!(t.choose_appearance(false, false), None);
    assert_eq!(t.choose_appearance(true, false), None);
    assert_eq!(t.choose_appearance(false, true), Some(false));
    assert!(!t.translucent);
    assert_eq!(t.choose_appearance(false, true), None);
    assert_eq!(t.choose_appearance(true, false), Some(true));
    assert_eq!(t.choose_appearance(true, true), Some(false));
}

#[test]
fn panel_opens_and_closes() {
    let mut t = TopBar::new(false, true, 0);
    assert!(t.gear_opens());
    t.open_settings(true, 1000);
    assert!(t.settings_open && t.muted && !t.gear_opens());
    // Without ever having the focus it stays.
    assert!(t.settings_frame(None, 1000 + 2 * PANEL_GRACE_NS, false, false));
    assert!(t.settings_frame(Some(true), 1001, false, false));
    assert!(t.settings_frame(Some(false), 1000 + PANEL_GRACE_NS, false, false));
    assert!(!t.settings_frame(Some(false), 1001 + PANEL_GRACE_NS, false, false));
    assert!(!t.settings_open);
    t.open_settings(false, 0);
    assert!(!t.settings_frame(Some(true), 0, false, true));
    t.open_settings(false, 0);
    assert!(!t.settings_frame(Some(true), 0, true, false));
}

#[test]
fn magnifier_asks_for_the_launcher() {
    let mut t = TopBar::new(false, true, 0);
    t.open_settings(false, 0);
    let mut f = Flags::new();
    t.search_clicked(&mut f);
    assert!(!t.settings_open && f.show_launcher);
    let index = three_apps();
    let mut l = Launcher::new(Favorites::new(), 0);
    l.serve_requests(&mut f, &index, noon(), 0);
    assert!(l.is_visible());
}

#[test]
fn settings_button_opens_the_settings_app() {
    let mut t = TopBar::new(false, true, 0);
    t.open_settings(false, 0);
    assert_eq!(t.system_settings_clicked(), "ms-settings:");
    assert!(!t.settings_open);
}

#[test]
fn alpha_is_enabled_once_per_window() {
    let mut t = TopBar::new(false, true, 0);
    assert!(t.bar_needs_alpha());
    assert!(!t.bar_needs_alpha());
    assert!(!t.panel_needs_alpha(false));
    assert!(t.panel_needs_alpha(true));
    assert!(!t.panel_needs_alpha(true));
    t.open_settings(false, 0);
    assert!(t.panel_needs_alpha(true));
}

#[test]
fn silence_looks_muted() {
    let mut t = TopBar::new(false, true, 0);
    assert!(!t.looks_muted(false));
    assert!(t.looks_muted(true));
    t.volume_set(true);
    assert!(t.muted && t.looks_muted(false));
    t.volume_set(false);
    assert!(!t.muted);
}
