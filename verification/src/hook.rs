//! The keyboard hook that remaps the Windows key.
//!
//! A lone tap of Win toggles the launcher: a tap opens it, another closes it, and
//! the Start menu never opens while the app is active. All native Win+key
//! combinations still work: they are rebuilt by synthesizing a real Win press,
//! only when a second key is pressed. Synthesized events carry
//! [`INJECT_SENTINEL`], so that the same hook passes them straight through.
use crate::state::{now_ms, Flags, INJECT_SENTINEL};
use vstd::prelude::*;

verus! {

pub const VK_ESCAPE: u16 = 0x1B;

pub const VK_LWIN: u16 = 0x5B;

pub const VK_RWIN: u16 = 0x5C;

/// The keys that the Win keys become under the scancode remap.
pub const VK_F13: u16 = 0x7C;

pub const VK_F14: u16 = 0x7D;

pub const WM_KEYDOWN: u32 = 0x0100;

pub const WM_KEYUP: u32 = 0x0101;

pub const WM_SYSKEYDOWN: u32 = 0x0104;

pub const WM_SYSKEYUP: u32 = 0x0105;

/// The hook code of an event to act on.
pub const HC_ACTION: i32 = 0;

/// How long a Win event keeps Start surfaces away.
pub const SUPPRESS_MS: u64 = 1500;

/// What the hook remembers between events.
#[derive(Debug, Clone, Copy, PartialEq, Eq, Structural)]
pub struct HookState {
    pub win_down: bool,
    /// We swallowed the physical Win press and have restored it synthetically for a
    /// native combination.
    pub synth_win_down: bool,
    /// Another key was used during this Win hold, so it is not a lone tap.
    pub combo_used: bool,
    /// The launcher was closed on Win-down: the matching Win-up is no second tap.
    pub close_on_up: bool,
    /// Diagnostics: how many events came, and how many of them were of a Win key.
    pub hook_calls: u32,
    pub win_events: u32,
}

impl HookState {
    /// The state at startup.
    pub fn new() -> (r: HookState)
        ensures
            r == (HookState {
                win_down: false,
                synth_win_down: false,
                combo_used: false,
                close_on_up: false,
                hook_calls: 0,
                win_events: 0,
            }),
    {
        HookState {
            win_down: false,
            synth_win_down: false,
            combo_used: false,
            close_on_up: false,
            hook_calls: 0,
            win_events: 0,
        }
    }
}

/// An event as the hook receives it.
#[derive(Debug, Clone, Copy, PartialEq, Eq, Structural)]
pub struct KeyEvent {
    pub code: i32,
    pub message: u32,
    pub vk: u32,
    pub flags: u32,
    pub extra: usize,
}

/// A keystroke to synthesize.
#[derive(Debug, Clone, Copy, PartialEq, Eq, Structural)]
pub struct KeyInput {
    pub vk: u16,
    /// Bit 0 is set for an extended key, bit 1 for a release.
    pub flags: u32,
    pub extra: usize,
}

/// What the hook asks to be done, in order.
#[derive(Debug, Clone, Copy, PartialEq, Eq, Structural)]
pub enum Effect {
    Send(KeyInput),
    /// Repaint the launcher, which may be hidden.
    WakeUi,
    /// Dismiss the Start menu a few times, shortly after.
    DismissStartLater,
}

/// What the hook decided on an event.
#[derive(Debug, PartialEq, Eq)]
pub struct Verdict {
    /// The event goes no further.
    pub swallow: bool,
    pub effects: Vec<Effect>,
}

pub open spec fn win_key(vk: u32) -> bool {
    vk == VK_LWIN || vk == VK_RWIN || vk == VK_F13 || vk == VK_F14
}

pub open spec fn key_down(message: u32) -> bool {
    message == WM_KEYDOWN || message == WM_SYSKEYDOWN
}

pub open spec fn key_up(message: u32) -> bool {
    message == WM_KEYUP || message == WM_SYSKEYUP
}

/// The keystroke that presses or releases a key.
pub open spec fn stroke(vk: u16, down: bool, extended: bool) -> KeyInput {
    KeyInput {
        vk,
        flags: if down {
            if extended {
                1u32
            } else {
                0u32
            }
        } else {
            if extended {
                3u32
            } else {
                2u32
            }
        },
        extra: INJECT_SENTINEL,
    }
}

/// The releases of both Win keys.
pub open spec fn win_releases() -> Seq<KeyInput> {
    seq![stroke(VK_LWIN, false, false), stroke(VK_RWIN, false, true)]
}

/// A tap of Escape.
pub open spec fn escape_tap() -> Seq<KeyInput> {
    seq![stroke(VK_ESCAPE, true, false), stroke(VK_ESCAPE, false, false)]
}

pub open spec fn sends(keys: Seq<KeyInput>) -> Seq<Effect> {
    keys.map_values(|k: KeyInput| Effect::Send(k))
}

/// The end of a period of `d` milliseconds from `now`.
pub open spec fn deadline(now: u64, d: u64) -> u64 {
    if now + d > u64::MAX {
        u64::MAX
    } else {
        (now + d) as u64
    }
}

/// What an event comes to.
pub ghost struct Reaction {
    pub hook: HookState,
    pub flags: Flags,
    pub effects: Seq<Effect>,
    pub swallow: bool,
}

/// A Win key goes down. The first time, the hold begins and both keys are released
/// for the rest of the system; if the launcher is visible, it is dismissed. While a
/// hold goes on, nothing more happens.
pub open spec fn on_win_down(h: HookState, f: Flags) -> Reaction {
    if h.win_down {
        Reaction { hook: h, flags: f, effects: Seq::empty(), swallow: true }
    } else {
        let begun = HookState {
            win_down: true,
            combo_used: false,
            synth_win_down: false,
            close_on_up: f.launcher_visible,
            ..h
        };
        if f.launcher_visible {
            Reaction {
                hook: begun,
                flags: Flags {
                    launcher_visible: false,
                    show_launcher: false,
                    hide_launcher: true,
                    ..f
                },
                effects: sends(win_releases()) + seq![Effect::WakeUi, Effect::DismissStartLater],
                swallow: true,
            }
        } else {
            Reaction { hook: begun, flags: f, effects: sends(win_releases()), swallow: true }
        }
    }
}

/// A Win key goes up: the hold ends. If the Win press was restored, it is released
/// again. If the hold closed the launcher, that was all; if it was a lone tap, the
/// launcher is requested.
pub open spec fn on_win_up(h: HookState, f: Flags) -> Reaction {
    let released = if h.synth_win_down {
        sends(seq![stroke(VK_LWIN, false, false)])
    } else {
        sends(win_releases())
    };
    let ended = HookState {
        win_down: false,
        combo_used: false,
        synth_win_down: false,
        close_on_up: false,
        ..h
    };
    if h.close_on_up {
        Reaction {
            hook: ended,
            flags: f,
            effects: released + seq![Effect::DismissStartLater],
            swallow: true,
        }
    } else if !h.combo_used {
        Reaction {
            hook: ended,
            flags: Flags { show_launcher: true, ..f },
            effects: released + seq![Effect::WakeUi],
            swallow: true,
        }
    } else {
        Reaction { hook: ended, flags: f, effects: released, swallow: true }
    }
}

/// Another key is used while Win is held: the Win press is restored, once, and the
/// key is sent after it.
pub open spec fn on_combo(h: HookState, f: Flags, ev: KeyEvent) -> Reaction {
    let key = seq![
        Effect::Send(
            stroke((ev.vk % 0x1_0000) as u16, key_down(ev.message), ev.flags % 2 == 1),
        ),
    ];
    Reaction {
        hook: HookState { combo_used: true, synth_win_down: true, ..h },
        flags: f,
        effects: if h.synth_win_down {
            key
        } else {
            sends(seq![stroke(VK_LWIN, true, false)]) + key
        },
        swallow: true,
    }
}

/// An event is let through, and nothing else happens.
pub open spec fn pass(h: HookState, f: Flags) -> Reaction {
    Reaction { hook: h, flags: f, effects: Seq::empty(), swallow: false }
}

pub open spec fn bumped(n: u32) -> u32 {
    ((n + 1) % 0x1_0000_0000) as u32
}

/// What the hook does on an event at time `now`.
pub open spec fn reaction(h: HookState, f: Flags, ev: KeyEvent, now: u64) -> Reaction {
    if ev.code != HC_ACTION {
        pass(h, f)
    } else {
        let h = HookState { hook_calls: bumped(h.hook_calls), ..h };
        if ev.extra == INJECT_SENTINEL || !f.app_enabled {
            pass(h, f)
        } else if win_key(ev.vk) {
            let h = HookState { win_events: bumped(h.win_events), ..h };
            let f = Flags { start_suppress_until_ms: deadline(now, SUPPRESS_MS), ..f };
            if key_down(ev.message) {
                on_win_down(h, f)
            } else if key_up(ev.message) {
                on_win_up(h, f)
            } else {
                pass(h, f)
            }
        } else if h.win_down && (key_down(ev.message) || key_up(ev.message)) {
            on_combo(h, f, ev)
        } else {
            pass(h, f)
        }
    }
}

pub fn is_win_key(vk: u32) -> (r: bool)
    ensures
        r == win_key(vk),
{
    vk == VK_LWIN as u32 || vk == VK_RWIN as u32 || vk == VK_F13 as u32 || vk == VK_F14 as u32
}

/// Whether an event's flags mark an extended key.
pub fn is_extended(flags: u32) -> (r: bool)
    ensures
        r == (flags % 2 == 1),
{
    assert(flags & 1 == flags % 2) by (bit_vector);
    (flags & 0x01) != 0
}

/// The keystroke that presses or releases a key. `extended` mirrors the pressed
/// key's flag, so that keys such as the arrows work.
pub fn send_key(vk: u16, down: bool, extended: bool) -> (r: KeyInput)
    ensures
        r == stroke(vk, down, extended),
{
    let mut flags: u32 = if down {
        0
    } else {
        2
    };
    if extended {
        flags = flags + 1;
    }
    KeyInput { vk, flags, extra: INJECT_SENTINEL }
}

/// The releases of both Win keys.
pub fn release_win_keys() -> (r: Vec<KeyInput>)
    ensures
        r@ == win_releases(),
{
    let mut r: Vec<KeyInput> = Vec::new();
    r.push(send_key(VK_LWIN, false, false));
    r.push(send_key(VK_RWIN, false, true));
    assert(r@ =~= win_releases());
    r
}

/// The tap of Escape that dismisses the Start menu.
pub fn dismiss_start_menu_now() -> (r: Vec<KeyInput>)
    ensures
        r@ == escape_tap(),
{
    let mut r: Vec<KeyInput> = Vec::new();
    r.push(send_key(VK_ESCAPE, true, false));
    r.push(send_key(VK_ESCAPE, false, false));
    assert(r@ =~= escape_tap());
    r
}

/// The waits, in milliseconds, before each dismissal of the Start menu.
pub fn dismiss_start_menu_later() -> (r: Vec<u64>)
    ensures
        r@ == seq![40u64, 80u64, 160u64],
{
    let mut r: Vec<u64> = Vec::new();
    r.push(40);
    r.push(80);
    r.push(160);
    assert(r@ =~= seq![40u64, 80u64, 160u64]);
    r
}

/// Keeps Start surfaces away for `duration_ms` from time `now`.
pub fn suppress_start_menu_from(flags: &mut Flags, now: u64, duration_ms: u64)
    ensures
        *final(flags) == (Flags {
            start_suppress_until_ms: deadline(now, duration_ms),
            ..*old(flags)
        }),
{
    flags.start_suppress_until_ms = now.saturating_add(duration_ms);
}

/// Keeps Start surfaces away for `duration_ms` from now.
pub fn suppress_start_menu_for(flags: &mut Flags, duration_ms: u64)
    ensures
        exists|now: u64|
            *final(flags) == (Flags {
                start_suppress_until_ms: #[trigger] deadline(now, duration_ms),
                ..*old(flags)
            }),
{
    let now: u64 = now_ms();
    suppress_start_menu_from(flags, now, duration_ms);
}

fn push_sends(effects: &mut Vec<Effect>, keys: Vec<KeyInput>)
    ensures
        final(effects)@ == old(effects)@ + sends(keys@),
{
    let mut i: usize = 0;
    while i < keys.len()
        invariant
            i <= keys@.len(),
            effects@ == old(effects)@ + sends(keys@.take(i as int)),
        decreases keys@.len() - i,
    {
        effects.push(Effect::Send(keys[i]));
        i = i + 1;
        assert(sends(keys@.take(i as int)) =~= sends(keys@.take(i - 1)).push(
            Effect::Send(keys@[i - 1]),
        ));
    }
    assert(keys@.take(keys@.len() as int) == keys@);
}

/// Decides on a keyboard event that comes now.
pub fn keyboard_proc(hook: &mut HookState, flags: &mut Flags, ev: KeyEvent) -> (r: Verdict)
    ensures
        exists|now: u64|
            {
                let x = #[trigger] reaction(*old(hook), *old(flags), ev, now);
                *final(hook) == x.hook && *final(flags) == x.flags && r.effects@ == x.effects
                    && r.swallow == x.swallow
            },
{
    let now: u64 = now_ms();
    keyboard_proc_at(hook, flags, ev, now)
}

/// Decides on a keyboard event at time `now`.
pub fn keyboard_proc_at(hook: &mut HookState, flags: &mut Flags, ev: KeyEvent, now: u64) -> (r:
    Verdict)
    ensures
        *final(hook) == reaction(*old(hook), *old(flags), ev, now).hook,
        *final(flags) == reaction(*old(hook), *old(flags), ev, now).flags,
        r.effects@ == reaction(*old(hook), *old(flags), ev, now).effects,
        r.swallow == reaction(*old(hook), *old(flags), ev, now).swallow,
{
    let mut effects: Vec<Effect> = Vec::new();
    if ev.code != HC_ACTION {
        return Verdict { swallow: false, effects };
    }
    hook.hook_calls = hook.hook_calls.wrapping_add(1);
    if ev.extra == INJECT_SENTINEL {
        return Verdict { swallow: false, effects };
    }
    if !flags.app_enabled {
        return Verdict { swallow: false, effects };
    }
    let is_down = ev.message == WM_KEYDOWN || ev.message == WM_SYSKEYDOWN;
    let is_up = ev.message == WM_KEYUP || ev.message == WM_SYSKEYUP;
    if is_win_key(ev.vk) {
        hook.win_events = hook.win_events.wrapping_add(1);
        suppress_start_menu_from(flags, now, SUPPRESS_MS);
        if is_down {
            if !hook.win_down {
                hook.win_down = true;
                hook.combo_used = false;
                hook.close_on_up = false;
                hook.synth_win_down = false;
                push_sends(&mut effects, release_win_keys());
                if flags.launcher_visible {
                    flags.launcher_visible = false;
                    flags.show_launcher = false;
                    flags.hide_launcher = true;
                    effects.push(Effect::WakeUi);
                    hook.close_on_up = true;
                    effects.push(Effect::DismissStartLater);
                }
            }
            assert(effects@ =~= reaction(*old(hook), *old(flags), ev, now).effects);
            return Verdict { swallow: true, effects };
        }
        if is_up {
            let close_on_up = hook.close_on_up;
            let combo = hook.combo_used;
            let synth = hook.synth_win_down;
            hook.close_on_up = false;
            hook.combo_used = false;
            hook.synth_win_down = false;
            hook.win_down = false;
            if synth {
                effects.push(Effect::Send(send_key(VK_LWIN, false, false)));
            } else {
                push_sends(&mut effects, release_win_keys());
            }
            if close_on_up {
                effects.push(Effect::DismissStartLater);
            } else if !combo {
                flags.show_launcher = true;
                effects.push(Effect::WakeUi);
            }
            assert(effects@ =~= reaction(*old(hook), *old(flags), ev, now).effects);
            return Verdict { swallow: true, effects };
        }
    } else if hook.win_down {
        if is_down || is_up {
            hook.combo_used = true;
            if !hook.synth_win_down {
                effects.push(Effect::Send(send_key(VK_LWIN, true, false)));
            }
            hook.synth_win_down = true;
            let vk: u16 = (ev.vk % 0x1_0000) as u16;
            effects.push(Effect::Send(send_key(vk, is_down, is_extended(ev.flags))));
            assert(effects@ =~= reaction(*old(hook), *old(flags), ev, now).effects);
            return Verdict { swallow: true, effects };
        }
    }
    Verdict { swallow: false, effects }
}

/// An event of a real key, to be acted on.
pub open spec fn is_real(ev: KeyEvent) -> bool {
    ev.code == HC_ACTION && ev.extra != INJECT_SENTINEL
}

/// A real press of a Win key.
pub open spec fn presses_win(ev: KeyEvent) -> bool {
    is_real(ev) && win_key(ev.vk) && key_down(ev.message)
}

/// A real release of a Win key.
pub open spec fn releases_win(ev: KeyEvent) -> bool {
    is_real(ev) && win_key(ev.vk) && key_up(ev.message)
}

/// A real press or release of another key.
pub open spec fn uses_other(ev: KeyEvent) -> bool {
    is_real(ev) && !win_key(ev.vk) && (key_down(ev.message) || key_up(ev.message))
}

/// Every keystroke that is asked for is a release.
pub open spec fn only_releases(effects: Seq<Effect>) -> bool {
    forall|i: int|
        0 <= i < effects.len() ==> match #[trigger] effects[i] {
            Effect::Send(k) => k.flags / 2 == 1,
            _ => true,
        }
}

/// An event that carries the mark of a synthesized keystroke goes straight through: it
/// changes nothing but the count of events.
pub proof fn synthesized_keys_pass(
    h: HookState,
    f: Flags,
    ev: KeyEvent,
    now: u64,
    vk: u16,
    down: bool,
    extended: bool,
)
    requires
        ev.extra == stroke(vk, down, extended).extra,
    ensures
        !reaction(h, f, ev, now).swallow,
        reaction(h, f, ev, now).effects.len() == 0,
        reaction(h, f, ev, now).flags == f,
        reaction(h, f, ev, now).hook == (HookState {
            hook_calls: reaction(h, f, ev, now).hook.hook_calls,
            ..h
        }),
{
}

/// While the app is disabled, every event goes straight through.
pub proof fn disabled_passes(h: HookState, f: Flags, ev: KeyEvent, now: u64)
    requires
        !f.app_enabled,
    ensures
        !reaction(h, f, ev, now).swallow,
        reaction(h, f, ev, now).effects.len() == 0,
        reaction(h, f, ev, now).flags == f,
{
}

/// While the app is enabled, no press or release of a Win key gets past the hook.
pub proof fn win_key_is_swallowed(h: HookState, f: Flags, ev: KeyEvent, now: u64)
    requires
        f.app_enabled,
        presses_win(ev) || releases_win(ev),
    ensures
        reaction(h, f, ev, now).swallow,
        reaction(h, f, ev, now).flags.start_suppress_until_ms == deadline(now, SUPPRESS_MS),
{
}

/// While Win is not held, other keys are none of the hook's business.
pub proof fn other_keys_pass(h: HookState, f: Flags, ev: KeyEvent, now: u64)
    requires
        !h.win_down,
        !win_key(ev.vk),
    ensures
        !reaction(h, f, ev, now).swallow,
        reaction(h, f, ev, now).effects.len() == 0,
        reaction(h, f, ev, now).flags == f,
        !reaction(h, f, ev, now).hook.win_down,
{
}

/// A lone tap of Win while the launcher is closed asks for the launcher, and no key
/// press is sent to the system. Between press and release the flags may change, as
/// long as the app stays enabled.
pub proof fn tap_opens(
    h: HookState,
    f: Flags,
    down: KeyEvent,
    t1: u64,
    f2: Flags,
    up: KeyEvent,
    t2: u64,
)
    requires
        !h.win_down,
        f.app_enabled,
        !f.launcher_visible,
        f2.app_enabled,
        presses_win(down),
        releases_win(up),
    ensures
        ({
            let r1 = reaction(h, f, down, t1);
            let r2 = reaction(r1.hook, f2, up, t2);
            &&& r1.swallow && r2.swallow
            &&& r1.flags.show_launcher == f.show_launcher
            &&& r1.flags.hide_launcher == f.hide_launcher
            &&& r2.flags.show_launcher
            &&& r2.flags.hide_launcher == f2.hide_launcher
            &&& r2.effects.contains(Effect::WakeUi)
            &&& only_releases(r1.effects) && only_releases(r2.effects)
            &&& !r2.hook.win_down
        }),
{
    let r1 = reaction(h, f, down, t1);
    let r2 = reaction(r1.hook, f2, up, t2);
    assert(r2.effects.last() == Effect::WakeUi);
}

/// A lone tap of Win while the launcher is open dismisses it, on the press, and the
/// release does not ask for it again.
pub proof fn tap_closes(
    h: HookState,
    f: Flags,
    down: KeyEvent,
    t1: u64,
    f2: Flags,
    up: KeyEvent,
    t2: u64,
)
    requires
        !h.win_down,
        f.app_enabled,
        f.launcher_visible,
        f2.app_enabled,
        presses_win(down),
        releases_win(up),
    ensures
        ({
            let r1 = reaction(h, f, down, t1);
            let r2 = reaction(r1.hook, f2, up, t2);
            &&& r1.swallow && r2.swallow
            &&& r1.flags.hide_launcher && !r1.flags.show_launcher && !r1.flags.launcher_visible
            &&& r1.effects.contains(Effect::WakeUi)
            &&& r2.flags.show_launcher == f2.show_launcher
            &&& only_releases(r1.effects) && only_releases(r2.effects)
            &&& !r2.hook.win_down
        }),
{
    let r1 = reaction(h, f, down, t1);
    assert(r1.effects[2] == Effect::WakeUi);
}

/// A Win combination reaches the system as it was typed: a press of Win, the key's
/// press and release, and the release of Win. The launcher is not asked for.
pub proof fn combination_is_rebuilt(
    h: HookState,
    f: Flags,
    win_down: KeyEvent,
    t1: u64,
    press: KeyEvent,
    t2: u64,
    release: KeyEvent,
    t3: u64,
    win_up: KeyEvent,
    t4: u64,
)
    requires
        !h.win_down,
        f.app_enabled,
        presses_win(win_down),
        uses_other(press) && key_down(press.message),
        uses_other(release) && key_up(release.message),
        press.vk == release.vk,
        press.vk < 0x1_0000,
        releases_win(win_up),
    ensures
        ({
            let r1 = reaction(h, f, win_down, t1);
            let r2 = reaction(r1.hook, r1.flags, press, t2);
            let r3 = reaction(r2.hook, r2.flags, release, t3);
            let r4 = reaction(r3.hook, r3.flags, win_up, t4);
            let vk = press.vk as u16;
            &&& r1.swallow && r2.swallow && r3.swallow && r4.swallow
            &&& only_releases(r1.effects)
            &&& r2.effects == seq![
                Effect::Send(stroke(VK_LWIN, true, false)),
                Effect::Send(stroke(vk, true, press.flags % 2 == 1)),
            ]
            &&& r3.effects == seq![Effect::Send(stroke(vk, false, release.flags % 2 == 1))]
            &&& r4.effects == seq![Effect::Send(stroke(VK_LWIN, false, false))]
                + if f.launcher_visible {
                seq![Effect::DismissStartLater]
            } else {
                Seq::empty()
            }
            &&& r4.flags.show_launcher == (f.show_launcher && !f.launcher_visible)
            &&& !r4.hook.win_down && !r4.hook.synth_win_down
        }),
{
    let r1 = reaction(h, f, win_down, t1);
    let r2 = reaction(r1.hook, r1.flags, press, t2);
    let r3 = reaction(r2.hook, r2.flags, release, t3);
    let r4 = reaction(r3.hook, r3.flags, win_up, t4);
    let vk = press.vk as u16;
    assert(r2.effects =~= seq![
        Effect::Send(stroke(VK_LWIN, true, false)),
        Effect::Send(stroke(vk, true, press.flags % 2 == 1)),
    ]);
    assert(r4.effects =~= seq![Effect::Send(stroke(VK_LWIN, false, false))]
        + if f.launcher_visible {
        seq![Effect::DismissStartLater]
    } else {
        Seq::empty()
    });
}

/// Whether the system sees the left Win key held after the effects, if it did before
/// as `held` says.
pub open spec fn held_after(effects: Seq<Effect>, held: bool) -> bool
    decreases effects.len(),
{
    if effects.len() == 0 {
        held
    } else {
        match effects.last() {
            Effect::Send(k) => if k.vk == VK_LWIN {
                k.flags / 2 == 0
            } else {
                held_after(effects.drop_last(), held)
            },
            _ => held_after(effects.drop_last(), held),
        }
    }
}

/// The hook knows whether it left a Win press behind, and it leaves one only while the
/// real key is held.
pub open spec fn tracks(h: HookState, held: bool) -> bool {
    h.synth_win_down == held && (held ==> h.win_down)
}

/// No event makes the hook lose track of the Win press that it synthesized: so none is
/// ever left behind once the real key is up.
pub proof fn win_press_is_tracked(h: HookState, f: Flags, ev: KeyEvent, now: u64, held: bool)
    requires
        tracks(h, held),
        ev.vk < 0x1_0000,
    ensures
        tracks(reaction(h, f, ev, now).hook, held_after(reaction(h, f, ev, now).effects, held)),
{
    reveal_with_fuel(held_after, 5);
}

/// While the app is enabled and Win is held, every real press or release of another key is
/// swallowed and sent on: the last thing asked for is the keystroke of that key, down
/// exactly if the event was a press, and extended exactly if the event was. Before it only
/// the press of Win is asked for, and only if it was not restored yet.
pub proof fn held_win_sends_every_key(h: HookState, f: Flags, ev: KeyEvent, now: u64)
    requires
        f.app_enabled,
        h.win_down,
        ev.code == 0,
        ev.extra != 0x4857_4942,
        ev.vk != 0x5B && ev.vk != 0x5C && ev.vk != 0x7C && ev.vk != 0x7D,
        ev.message == 0x0100 || ev.message == 0x0101 || ev.message == 0x0104 || ev.message
            == 0x0105,
    ensures
        ({
            let r = reaction(h, f, ev, now);
            let down = ev.message == 0x0100 || ev.message == 0x0104;
            let k = r.effects.last()->Send_0;
            &&& r.swallow
            &&& r.effects.len() == if h.synth_win_down {
                1int
            } else {
                2int
            }
            &&& r.effects.last() is Send
            &&& k.vk == ev.vk % 0x1_0000
            &&& k.flags == (if down {
                0int
            } else {
                2int
            }) + ev.flags % 2
            &&& k.extra == 0x4857_4942
            &&& !h.synth_win_down ==> r.effects[0] is Send && r.effects[0]->Send_0.vk == 0x5B
                && r.effects[0]->Send_0.flags == 0 && r.effects[0]->Send_0.extra == 0x4857_4942
            &&& r.flags == f
            &&& r.hook.win_down && r.hook.synth_win_down && r.hook.combo_used
            &&& r.hook.close_on_up == h.close_on_up
        }),
{
}

/// The hook and the effects after some events, in order.
pub open spec fn after_events(h: HookState, f: Flags, evs: Seq<KeyEvent>, now: u64) -> (
    HookState,
    Seq<Effect>,
)
    decreases evs.len(),
{
    if evs.len() == 0 {
        (h, Seq::empty())
    } else {
        let before = after_events(h, f, evs.drop_last(), now);
        let r = reaction(before.0, f, evs.last(), now);
        (r.hook, before.1 + r.effects)
    }
}

/// Whatever keys are used during one hold of Win, all of them reach the system, in order,
/// after one press of Win.
pub proof fn hold_sends_all_keys_in_order(h: HookState, f: Flags, evs: Seq<KeyEvent>, now: u64)
    requires
        f.app_enabled,
        h.win_down,
        !h.synth_win_down,
        evs.len() > 0,
        forall|i: int|
            0 <= i < evs.len() ==> {
                let ev = #[trigger] evs[i];
                &&& ev.code == 0
                &&& ev.extra != 0x4857_4942
                &&& ev.vk != 0x5B && ev.vk != 0x5C && ev.vk != 0x7C && ev.vk != 0x7D
                &&& ev.message == 0x0100 || ev.message == 0x0101 || ev.message == 0x0104
                    || ev.message == 0x0105
            },
    ensures
        ({
            let sent = after_events(h, f, evs, now).1;
            &&& sent.len() == evs.len() + 1
            &&& sent[0] is Send && sent[0]->Send_0.vk == 0x5B && sent[0]->Send_0.flags == 0
            &&& forall|i: int|
                0 <= i < evs.len() ==> {
                    let k = (#[trigger] sent[i + 1])->Send_0;
                    &&& sent[i + 1] is Send
                    &&& k.vk == evs[i].vk % 0x1_0000
                    &&& k.flags == (if evs[i].message == 0x0100 || evs[i].message == 0x0104 {
                        0int
                    } else {
                        2int
                    }) + evs[i].flags % 2
                }
        }),
        after_events(h, f, evs, now).0.win_down,
        after_events(h, f, evs, now).0.synth_win_down,
    decreases evs.len(),
{
    let init = evs.drop_last();
    let last = evs.last();
    assert(last == evs[evs.len() - 1]);
    if init.len() == 0 {
        assert(after_events(h, f, init, now) == (h, Seq::<Effect>::empty()));
        held_win_sends_every_key(h, f, last, now);
        let sent = after_events(h, f, evs, now).1;
        assert(sent =~= reaction(h, f, last, now).effects);
        assert(sent[1] == sent.last());
    } else {
        assert forall|i: int| 0 <= i < init.len() implies {
            let ev = #[trigger] init[i];
            &&& ev.code == 0
            &&& ev.extra != 0x4857_4942
            &&& ev.vk != 0x5B && ev.vk != 0x5C && ev.vk != 0x7C && ev.vk != 0x7D
            &&& ev.message == 0x0100 || ev.message == 0x0101 || ev.message == 0x0104 || ev.message
                == 0x0105
        } by {
            assert(init[i] == evs[i]);
        }
        hold_sends_all_keys_in_order(h, f, init, now);
        let before = after_events(h, f, init, now);
        held_win_sends_every_key(before.0, f, last, now);
        let sent = after_events(h, f, evs, now).1;
        assert forall|i: int| 0 <= i < evs.len() implies {
            let k = (#[trigger] sent[i + 1])->Send_0;
            &&& sent[i + 1] is Send
            &&& k.vk == evs[i].vk % 0x1_0000
            &&& k.flags == (if evs[i].message == 0x0100 || evs[i].message == 0x0104 {
                0int
            } else {
                2int
            }) + evs[i].flags % 2
        } by {
            if i < init.len() {
                assert(sent[i + 1] == before.1[i + 1]);
                assert(init[i] == evs[i]);
            } else {
                assert(sent[i + 1] == reaction(before.0, f, last, now).effects.last());
            }
        }
        assert(sent[0] == before.1[0]);
    }
}

/// The first press of a Win key begins a hold: it is swallowed, and both Win keys are
/// released for the rest of the system, left before right. A visible launcher is dismissed
/// there and then, and nothing else is asked of it.
pub proof fn hold_begins(h: HookState, f: Flags, ev: KeyEvent, now: u64)
    requires
        f.app_enabled,
        !h.win_down,
        ev.code == 0,
        ev.extra != 0x4857_4942,
        ev.vk == 0x5B || ev.vk == 0x5C || ev.vk == 0x7C || ev.vk == 0x7D,
        ev.message == 0x0100 || ev.message == 0x0104,
    ensures
        ({
            let r = reaction(h, f, ev, now);
            &&& r.swallow
            &&& r.hook.win_down && !r.hook.synth_win_down && !r.hook.combo_used
            &&& r.hook.close_on_up == f.launcher_visible
            &&& r.effects.len() == if f.launcher_visible {
                4int
            } else {
                2int
            }
            &&& r.effects[0] is Send && r.effects[0]->Send_0.vk == 0x5B
                && r.effects[0]->Send_0.flags == 2 && r.effects[0]->Send_0.extra == 0x4857_4942
            &&& r.effects[1] is Send && r.effects[1]->Send_0.vk == 0x5C
                && r.effects[1]->Send_0.flags == 3 && r.effects[1]->Send_0.extra == 0x4857_4942
            &&& f.launcher_visible ==> r.effects[2] is WakeUi && r.effects[3] is DismissStartLater
            &&& r.flags.hide_launcher == (f.hide_launcher || f.launcher_visible)
            &&& r.flags.show_launcher == (f.show_launcher && !f.launcher_visible)
            &&& !r.flags.launcher_visible
            &&& r.flags.app_enabled && r.flags.hide_enabled == f.hide_enabled
        }),
{
}

/// While a Win key is held, further presses of one are swallowed, and nothing but the counts
/// and the time until which Start surfaces are kept away changes.
pub proof fn repeated_win_presses_do_nothing(h: HookState, f: Flags, ev: KeyEvent, now: u64)
    requires
        f.app_enabled,
        h.win_down,
        ev.code == 0,
        ev.extra != 0x4857_4942,
        ev.vk == 0x5B || ev.vk == 0x5C || ev.vk == 0x7C || ev.vk == 0x7D,
        ev.message == 0x0100 || ev.message == 0x0104,
    ensures
        ({
            let r = reaction(h, f, ev, now);
            &&& r.swallow && r.effects.len() == 0
            &&& r.hook == (HookState {
                hook_calls: r.hook.hook_calls,
                win_events: r.hook.win_events,
                ..h
            })
            &&& r.flags == (Flags {
                start_suppress_until_ms: r.flags.start_suppress_until_ms,
                ..f
            })
        }),
{
}

/// The release of a Win key ends the hold. It is swallowed, and what the system may see held
/// is released: the left Win key if its press was restored, and else both. The launcher is
/// asked for exactly if no other key was used and the press did not close it.
pub proof fn hold_ends(h: HookState, f: Flags, ev: KeyEvent, now: u64)
    requires
        f.app_enabled,
        ev.code == 0,
        ev.extra != 0x4857_4942,
        ev.vk == 0x5B || ev.vk == 0x5C || ev.vk == 0x7C || ev.vk == 0x7D,
        ev.message == 0x0101 || ev.message == 0x0105,
    ensures
        ({
            let r = reaction(h, f, ev, now);
            let releases = if h.synth_win_down {
                1int
            } else {
                2int
            };
            &&& r.swallow
            &&& !r.hook.win_down && !r.hook.synth_win_down && !r.hook.combo_used
                && !r.hook.close_on_up
            &&& r.effects[0] is Send && r.effects[0]->Send_0.vk == 0x5B
                && r.effects[0]->Send_0.flags == 2 && r.effects[0]->Send_0.extra == 0x4857_4942
            &&& !h.synth_win_down ==> r.effects[1] is Send && r.effects[1]->Send_0.vk == 0x5C
                && r.effects[1]->Send_0.flags == 3 && r.effects[1]->Send_0.extra == 0x4857_4942
            &&& h.close_on_up ==> r.effects.len() == releases + 1
                && r.effects.last() is DismissStartLater
            &&& !h.close_on_up && !h.combo_used ==> r.effects.len() == releases + 1
                && r.effects.last() is WakeUi
            &&& !h.close_on_up && h.combo_used ==> r.effects.len() == releases
            &&& r.flags.show_launcher == (f.show_launcher || (!h.close_on_up && !h.combo_used))
            &&& r.flags.hide_launcher == f.hide_launcher
            &&& r.flags.launcher_visible == f.launcher_visible
            &&& r.flags.app_enabled && r.flags.hide_enabled == f.hide_enabled
        }),
{
}

/// What the hook has no business with goes through, with nothing asked for: an event that is
/// not to be acted on, one of ours, any event while the app is disabled, a key other than
/// Win while none is held, and whatever is neither a press nor a release.
pub proof fn nothing_else_is_touched(h: HookState, f: Flags, ev: KeyEvent, now: u64)
    requires
        ({
            let win = ev.vk == 0x5B || ev.vk == 0x5C || ev.vk == 0x7C || ev.vk == 0x7D;
            let key = ev.message == 0x0100 || ev.message == 0x0101 || ev.message == 0x0104
                || ev.message == 0x0105;
            ev.code != 0 || ev.extra == 0x4857_4942 || !f.app_enabled || (!win && !h.win_down)
                || !key
        }),
    ensures
        ({
            let r = reaction(h, f, ev, now);
            &&& !r.swallow && r.effects.len() == 0
            &&& r.hook == (HookState {
                hook_calls: r.hook.hook_calls,
                win_events: r.hook.win_events,
                ..h
            })
            &&& r.flags == (Flags {
                start_suppress_until_ms: r.flags.start_suppress_until_ms,
                ..f
            })
        }),
{
}

/// Every event to be acted on is counted, and every one of a Win key that is real while the
/// app is enabled is counted as such and keeps Start surfaces away for 1.5 s.
pub proof fn events_are_counted(h: HookState, f: Flags, ev: KeyEvent, now: u64)
    requires
        h.hook_calls < u32::MAX,
        h.win_events < u32::MAX,
    ensures
        ({
            let r = reaction(h, f, ev, now);
            let win = ev.code == 0 && ev.extra != 0x4857_4942 && f.app_enabled && (ev.vk == 0x5B
                || ev.vk == 0x5C || ev.vk == 0x7C || ev.vk == 0x7D);
            &&& r.hook.hook_calls == h.hook_calls + (if ev.code == 0 {
                1int
            } else {
                0int
            })
            &&& r.hook.win_events == h.win_events + (if win {
                1int
            } else {
                0int
            })
            &&& win && now + 1500 <= u64::MAX ==> r.flags.start_suppress_until_ms == now + 1500
            &&& win && now + 1500 > u64::MAX ==> r.flags.start_suppress_until_ms == u64::MAX
            &&& !win ==> r.flags.start_suppress_until_ms == f.start_suppress_until_ms
        }),
{
}

/// Both Win keys are released, and Escape is tapped, by keystrokes that the hook lets through.
pub proof fn own_keystrokes_are_marked(vk: u16, down: bool, extended: bool)
    ensures
        stroke(vk, down, extended).vk == vk,
        stroke(vk, down, extended).extra == 0x4857_4942,
        stroke(vk, down, extended).flags == (if down {
            0int
        } else {
            2int
        }) + (if extended {
            1int
        } else {
            0int
        }),
        escape_tap() == seq![stroke(0x1B, true, false), stroke(0x1B, false, false)],
        win_releases() == seq![stroke(0x5B, false, false), stroke(0x5C, false, true)],
{
}

} // verus!
