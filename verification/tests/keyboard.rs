use fast_win_launcher::hook::{
    dismiss_start_menu_later, dismiss_start_menu_now, is_extended, is_win_key, keyboard_proc,
    keyboard_proc_at, release_win_keys, send_key, suppress_start_menu_for,
    suppress_start_menu_from, Effect,
    HookState, KeyEvent, KeyInput, HC_ACTION, VK_ESCAPE, VK_F13, VK_F14, VK_LWIN, VK_RWIN,
    WM_KEYDOWN, WM_KEYUP, WM_SYSKEYDOWN, WM_SYSKEYUP,
};
use fast_win_launcher::state::{kept_ms, now_ms, Flags, INJECT_SENTINEL};
use fast_win_launcher::tray::{start_suppression_at, toggle_app};

const KEY_D: u32 = 0x44;

fn event(vk: u32, message: u32) -> KeyEvent {
    KeyEvent { code: HC_ACTION, message, vk, flags: 0, extra: 0 }
}

fn down(vk: u16) -> KeyEvent {
    event(vk as u32, WM_KEYDOWN)
}

fn up(vk: u16) -> KeyEvent {
    event(vk as u32, WM_KEYUP)
}

fn key(vk: u16, flags: u32) -> KeyInput {
    KeyInput { vk, flags, extra: INJECT_SENTINEL }
}

fn send(vk: u16, flags: u32) -> Effect {
    Effect::Send(key(vk, flags))
}

#[test]
fn keystrokes() {
    assert_eq!(send_key(0x41, true, false), key(0x41, 0));
    assert_eq!(send_key(0x41, true, true), key(0x41, 1));
    assert_eq!(send_key(0x41, false, false), key(0x41, 2));
    assert_eq!(send_key(0x41, false, true), key(0x41, 3));
    assert_eq!(release_win_keys(), vec![key(VK_LWIN, 2), key(VK_RWIN, 3)]);
    assert_eq!(dismiss_start_menu_now(), vec![key(VK_ESCAPE, 0), key(VK_ESCAPE, 2)]);
    assert_eq!(dismiss_start_menu_later(), vec![40, 80, 160]);
}

#[test]
fn win_keys() {
    for vk in [VK_LWIN, VK_RWIN, VK_F13, VK_F14] {
        assert!(is_win_key(vk as u32));
    }
    assert!(!is_win_key(KEY_D));
    assert!(!is_win_key(0x1_005B));
    assert!(is_extended(0x81));
    assert!(!is_extended(0x80));
}

#[test]
fn tap_asks_for_the_launcher() {
    let mut hook = HookState::new();
    let mut flags = Flags::new();
    let v = keyboard_proc_at(&mut hook, &mut flags, down(VK_LWIN), 1000);
    assert!(v.swallow);
    assert_eq!(v.effects, vec![send(VK_LWIN, 2), send(VK_RWIN, 3)]);
    assert!(!flags.show_launcher);
    assert!(hook.win_down);
    let v = keyboard_proc_at(&mut hook, &mut flags, up(VK_LWIN), 1050);
    assert!(v.swallow);
    assert_eq!(v.effects, vec![send(VK_LWIN, 2), send(VK_RWIN, 3), Effect::WakeUi]);
    assert!(flags.show_launcher);
    assert_eq!(flags.start_suppress_until_ms, 2550);
    assert_eq!((hook.hook_calls, hook.win_events), (2, 2));
    assert!(!hook.win_down);
}

#[test]
fn tap_closes_an_open_launcher() {
    let mut hook = HookState::new();
    let mut flags = Flags { launcher_visible: true, ..Flags::new() };
    let v = keyboard_proc_at(&mut hook, &mut flags, down(VK_RWIN), 0);
    assert_eq!(
        v.effects,
        vec![send(VK_LWIN, 2), send(VK_RWIN, 3), Effect::WakeUi, Effect::DismissStartLater]
    );
    assert!(flags.hide_launcher && !flags.launcher_visible && !flags.show_launcher);
    let v = keyboard_proc_at(&mut hook, &mut flags, up(VK_RWIN), 0);
    assert_eq!(
        v.effects,
        vec![send(VK_LWIN, 2), send(VK_RWIN, 3), Effect::DismissStartLater]
    );
    assert!(!flags.show_launcher);
}

#[test]
fn repeated_presses_of_a_held_key_do_nothing() {
    let mut hook = HookState::new();
    let mut flags = Flags::new();
    keyboard_proc_at(&mut hook, &mut flags, down(VK_LWIN), 0);
    let v = keyboard_proc_at(&mut hook, &mut flags, down(VK_LWIN), 10);
    assert!(v.swallow);
    assert_eq!(v.effects, vec![]);
    assert_eq!(flags.start_suppress_until_ms, 1510);
}

#[test]
fn combinations_are_rebuilt() {
    let mut hook = HookState::new();
    let mut flags = Flags::new();
    keyboard_proc_at(&mut hook, &mut flags, down(VK_LWIN), 0);
    let v = keyboard_proc_at(&mut hook, &mut flags, event(KEY_D, WM_KEYDOWN), 0);
    assert!(v.swallow);
    assert_eq!(v.effects, vec![send(VK_LWIN, 0), send(0x44, 0)]);
    let v = keyboard_proc_at(&mut hook, &mut flags, event(KEY_D, WM_KEYUP), 0);
    assert_eq!(v.effects, vec![send(0x44, 2)]);
    let v = keyboard_proc_at(&mut hook, &mut flags, up(VK_LWIN), 0);
    assert_eq!(v.effects, vec![send(VK_LWIN, 2)]);
    assert!(!flags.show_launcher);
}

#[test]
fn combinations_work_while_the_launcher_is_open() {
    let mut hook = HookState::new();
    let mut flags = Flags { launcher_visible: true, ..Flags::new() };
    keyboard_proc_at(&mut hook, &mut flags, down(VK_LWIN), 0);
    let v = keyboard_proc_at(&mut hook, &mut flags, event(KEY_D, WM_KEYDOWN), 0);
    assert_eq!(v.effects, vec![send(VK_LWIN, 0), send(0x44, 0)]);
    keyboard_proc_at(&mut hook, &mut flags, event(KEY_D, WM_KEYUP), 0);
    let v = keyboard_proc_at(&mut hook, &mut flags, up(VK_LWIN), 0);
    assert_eq!(v.effects, vec![send(VK_LWIN, 2), Effect::DismissStartLater]);
    assert!(flags.hide_launcher && !flags.show_launcher);
}

#[test]
fn win_events_keep_start_away_for_a_while() {
    let mut hook = HookState::new();
    let mut flags = Flags::new();
    keyboard_proc_at(&mut hook, &mut flags, down(VK_LWIN), 100);
    assert!(start_suppression_at(&flags, 1600));
    assert!(!start_suppression_at(&flags, 1601));
}

#[test]
fn switched_off_keyboard_is_left_alone() {
    let mut hook = HookState::new();
    let mut flags = Flags::new();
    toggle_app(&mut flags);
    let v = keyboard_proc_at(&mut hook, &mut flags, down(VK_LWIN), 0);
    assert!(!v.swallow && v.effects.is_empty());
    toggle_app(&mut flags);
    assert!(keyboard_proc_at(&mut hook, &mut flags, down(VK_LWIN), 0).swallow);
}

#[test]
fn extended_keys_stay_extended() {
    let mut hook = HookState { win_down: true, ..HookState::new() };
    let mut flags = Flags::new();
    let arrow = KeyEvent { flags: 1, ..event(0x25, WM_SYSKEYDOWN) };
    let v = keyboard_proc_at(&mut hook, &mut flags, arrow, 0);
    assert_eq!(v.effects, vec![send(VK_LWIN, 0), send(0x25, 1)]);
    let arrow = KeyEvent { flags: 1, ..event(0x25, WM_SYSKEYUP) };
    let v = keyboard_proc_at(&mut hook, &mut flags, arrow, 0);
    assert_eq!(v.effects, vec![send(0x25, 3)]);
}

#[test]
fn other_keys_pass_while_win_is_up() {
    let mut hook = HookState::new();
    let mut flags = Flags::new();
    let v = keyboard_proc_at(&mut hook, &mut flags, event(KEY_D, WM_KEYDOWN), 0);
    assert!(!v.swallow && v.effects.is_empty());
    assert_eq!(flags, Flags::new());
    assert_eq!(hook, HookState { hook_calls: 1, ..HookState::new() });
}

#[test]
fn other_messages_pass() {
    let mut hook = HookState::new();
    let mut flags = Flags::new();
    let v = keyboard_proc_at(&mut hook, &mut flags, event(VK_LWIN as u32, 0x0200), 7);
    assert!(!v.swallow);
    assert_eq!(flags.start_suppress_until_ms, 1507);
    assert_eq!(hook.win_events, 1);
    let mut hook = HookState { win_down: true, ..HookState::new() };
    let v = keyboard_proc_at(&mut hook, &mut flags, event(KEY_D, 0x0200), 7);
    assert!(!v.swallow && !hook.combo_used);
}

#[test]
fn own_keystrokes_pass() {
    let mut hook = HookState::new();
    let mut flags = Flags::new();
    let own = KeyEvent { extra: INJECT_SENTINEL, ..down(VK_LWIN) };
    let v = keyboard_proc_at(&mut hook, &mut flags, own, 0);
    assert!(!v.swallow && v.effects.is_empty());
    assert_eq!(hook, HookState { hook_calls: 1, ..HookState::new() });
}

#[test]
fn disabled_hook_passes_everything() {
    let mut hook = HookState::new();
    let mut flags = Flags { app_enabled: false, ..Flags::new() };
    let v = keyboard_proc_at(&mut hook, &mut flags, down(VK_LWIN), 0);
    assert!(!v.swallow && v.effects.is_empty());
    assert_eq!(flags, Flags { app_enabled: false, ..Flags::new() });
}

#[test]
fn other_hook_codes_are_not_counted() {
    let mut hook = HookState::new();
    let mut flags = Flags::new();
    let v = keyboard_proc_at(&mut hook, &mut flags, KeyEvent { code: -1, ..down(VK_LWIN) }, 0);
    assert!(!v.swallow);
    assert_eq!(hook, HookState::new());
}

#[test]
fn counters_wrap_around() {
    let mut hook = HookState { hook_calls: u32::MAX, win_events: u32::MAX, ..HookState::new() };
    let mut flags = Flags::new();
    keyboard_proc_at(&mut hook, &mut flags, down(VK_LWIN), 0);
    assert_eq!((hook.hook_calls, hook.win_events), (0, 0));
}

#[test]
fn suppression_deadlines_saturate() {
    let mut flags = Flags::new();
    suppress_start_menu_from(&mut flags, 100, 1500);
    assert_eq!(flags.start_suppress_until_ms, 1600);
    suppress_start_menu_from(&mut flags, u64::MAX - 1, 1500);
    assert_eq!(flags.start_suppress_until_ms, u64::MAX);
}

#[test]
fn suppression_starts_from_the_clock() {
    let before = now_ms();
    let mut flags = Flags::new();
    suppress_start_menu_for(&mut flags, 1500);
    let after = now_ms();
    assert!(before > 1_600_000_000_000);
    assert!(before + 1500 <= flags.start_suppress_until_ms);
    assert!(flags.start_suppress_until_ms <= after + 1500);
}

#[test]
fn events_come_at_the_time_of_the_clock() {
    let before = now_ms();
    let mut hook = HookState::new();
    let mut flags = Flags::new();
    let v = keyboard_proc(&mut hook, &mut flags, down(VK_LWIN));
    assert!(v.swallow);
    assert!(before + 1500 <= flags.start_suppress_until_ms);
    assert!(flags.start_suppress_until_ms <= now_ms() + 1500);
}

#[test]
fn clock_readings_are_kept_in_64_bits() {
    assert_eq!(kept_ms(None), 0);
    assert_eq!(kept_ms(Some(5)), 5);
    assert_eq!(kept_ms(Some((1u128 << 64) + 5)), 5);
}
