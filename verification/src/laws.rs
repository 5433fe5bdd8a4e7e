//! What holds of the launcher as a whole.
#[allow(unused_imports)]
use crate::favorites::toggled;
#[allow(unused_imports)]
use crate::fuzzy;
#[allow(unused_imports)]
use crate::hook::{presses_win, reaction, releases_win, HookState, KeyEvent};
#[allow(unused_imports)]
use crate::launcher::{
    favorites_first, flags_served, has_star, leading_stars, next_row, previous_row, served,
    FrameInput, Model, RowKind,
};
#[allow(unused_imports)]
use crate::power::PowerAction;
#[allow(unused_imports)]
use crate::state::{AppIndex, EntryModel, Flags};
#[allow(unused_imports)]
use crate::text::trimmed;
#[allow(unused_imports)]
use crate::time_fn::LocalTime;
#[allow(unused_imports)]
use crate::tray::{suppressed, switched};
use vstd::prelude::*;

verus! {

/// The published flag says whether the launcher is visible, and no request is pending.
pub open spec fn settled(m: Model, f: Flags) -> bool {
    f.launcher_visible == m.visible && !f.show_launcher && !f.hide_launcher
}

/// A tap of Win opens the launcher if it is closed and closes it if it is open, whether
/// or not the interface draws a frame between the press and the release.
pub proof fn tap_toggles(
    h: HookState,
    f: Flags,
    m: Model,
    index: AppIndex,
    now: LocalTime,
    clock: u64,
    down: KeyEvent,
    t1: u64,
    up: KeyEvent,
    t2: u64,
    frame_between: bool,
)
    requires
        settled(m, f),
        f.app_enabled,
        !h.win_down,
        presses_win(down),
        releases_win(up),
    ensures
        ({
            let r1 = reaction(h, f, down, t1);
            let (m1, f1) = if frame_between {
                (served(m, r1.flags, index, now, clock), flags_served(r1.flags))
            } else {
                (m, r1.flags)
            };
            let r2 = reaction(r1.hook, f1, up, t2);
            let m2 = served(m1, r2.flags, index, now, clock);
            &&& m2.visible == !m.visible
            &&& settled(m2, flags_served(r2.flags))
            &&& r1.swallow && r2.swallow
            &&& !r2.hook.win_down
        }),
{
}

/// Of a simultaneous pair of requests the launcher ends hidden.
pub proof fn simultaneous_requests_end_hidden(
    m: Model,
    f: Flags,
    index: AppIndex,
    now: LocalTime,
    clock: u64,
)
    requires
        f.hide_launcher,
    ensures
        !served(m, f, index, now, clock).visible,
        !flags_served(f).launcher_visible,
{
}

/// Whatever a real Win key does while the app is enabled, Start surfaces are kept away for
/// a second and a half from then on.
pub proof fn win_event_keeps_start_away(h: HookState, f: Flags, ev: KeyEvent, now: u64, t: u64)
    requires
        f.app_enabled,
        presses_win(ev) || releases_win(ev),
        now + 1500 <= u64::MAX,
    ensures
        t <= now + 1500 <==> suppressed(reaction(h, f, ev, now).flags, t),
{
}

/// Once everything was switched off, no key is held back or sent, and the launcher is
/// hidden with the next frame.
pub proof fn switched_off_rests(
    h: HookState,
    f: Flags,
    m: Model,
    index: AppIndex,
    now: LocalTime,
    clock: u64,
    ev: KeyEvent,
    t: u64,
)
    ensures
        !reaction(h, switched(f, false), ev, t).swallow,
        reaction(h, switched(f, false), ev, t).effects.len() == 0,
        !served(m, switched(f, false), index, now, clock).visible,
        !flags_served(switched(f, false)).launcher_visible,
{
}

/// A request to show alone, such as that of the magnifying glass, ends with the launcher
/// visible, its query empty and all that belongs to a former query gone.
pub proof fn request_opens(m: Model, f: Flags, index: AppIndex, now: LocalTime, clock: u64)
    requires
        f.show_launcher,
        !f.hide_launcher,
    ensures
        ({
            let s = served(m, f, index, now, clock);
            &&& s.visible && flags_served(f).launcher_visible
            &&& s.query.len() == 0 && s.selected == 0
            &&& !s.power_menu && !s.show_all
            &&& s.math is None
            &&& s.generation == index.generation
        }),
{
}

/// The results are those for the query whenever the launcher is visible.
pub open spec fn current(m: Model) -> bool {
    m.visible ==> m.results == m.listing()
}

/// Whatever happens to the launcher, a visible one lists the results for its query.
pub proof fn results_stay_current(
    m: Model,
    f: Flags,
    index: AppIndex,
    now: LocalTime,
    clock: u64,
    input: FrameInput,
    pos: int,
    text: Seq<char>,
    math: Option<Seq<char>>,
    favorites: Set<Seq<char>>,
)
    requires
        current(m),
    ensures
        current(served(m, f, index, now, clock)),
        current(m.after_frame(input)),
        current(m.activated(pos)),
        current((Model { query: text, ..m }).recomputed(math, now)),
        current((Model { favorites, ..m }).recomputed(math, now)),
        current(m.refreshed(index).recomputed(math, now)),
        current(Model { show_all: !m.show_all, focus_input: true, ..m }),
{
}

/// The row that is activated is the one that is drawn there.
pub proof fn activated_row_is_the_drawn_one(m: Model, pos: int)
    requires
        0 <= pos < m.row_count(),
        m.app_count() <= m.results.len(),
    ensures
        m.rows() == m.lead() + m.results.take(m.app_count() as int).map_values(
            |i: usize| RowKind::App(i),
        ),
        m.rows()[pos] == m.all_rows()[pos],
{
    let app = |i: usize| RowKind::App(i);
    assert(m.rows() =~= m.lead() + m.results.take(m.app_count() as int).map_values(app));
}

/// Favorites are only moved ahead: no app is lost, and none is added.
pub proof fn favorites_first_keeps_all(
    cache: Seq<EntryModel>,
    favorites: Set<Seq<char>>,
    r: Seq<usize>,
)
    ensures
        favorites_first(cache, favorites, r).len() == r.len(),
        forall|i: usize| #[trigger]
            favorites_first(cache, favorites, r).contains(i) <==> r.contains(i),
{
    let p = |i: usize| has_star(cache, favorites, i);
    let q = |i: usize| !has_star(cache, favorites, i);
    let a = r.filter(p);
    let b = r.filter(q);
    lemma_split_len(cache, favorites, r);
    assert forall|i: usize| (a + b).contains(i) <==> r.contains(i) by {
        if r.contains(i) {
            let k = choose|k: int| 0 <= k < r.len() && r[k] == i;
            if p(i) {
                r.lemma_filter_contains(p, k);
                assert(a.contains(i));
                let j = choose|j: int| 0 <= j < a.len() && a[j] == i;
                assert((a + b)[j] == i);
            } else {
                assert(q(i));
                r.lemma_filter_contains(q, k);
                assert(b.contains(i));
                let j = choose|j: int| 0 <= j < b.len() && b[j] == i;
                assert((a + b)[a.len() + j] == i);
            }
        }
        if (a + b).contains(i) {
            let k = choose|k: int| 0 <= k < (a + b).len() && (a + b)[k] == i;
            if k < a.len() {
                assert(a[k] == i);
                r.lemma_filter_contains_rev(p, i);
            } else {
                assert(b[k - a.len()] == i);
                r.lemma_filter_contains_rev(q, i);
            }
        }
    }
}

proof fn lemma_split_len(cache: Seq<EntryModel>, favorites: Set<Seq<char>>, r: Seq<usize>)
    ensures
        r.filter(|i: usize| has_star(cache, favorites, i)).len() + r.filter(
            |i: usize| !has_star(cache, favorites, i),
        ).len() == r.len(),
    decreases r.len(),
{
    reveal_with_fuel(Seq::filter, 1);
    if r.len() > 0 {
        lemma_split_len(cache, favorites, r.drop_last());
    }
}

/// The favorites come first, without a gap: all of them, and nothing else.
pub proof fn favorites_lead(cache: Seq<EntryModel>, favorites: Set<Seq<char>>, r: Seq<usize>)
    ensures
        leading_stars(cache, favorites, favorites_first(cache, favorites, r)) == r.filter(
            |i: usize| has_star(cache, favorites, i),
        ).len(),
{
    let p = |i: usize| has_star(cache, favorites, i);
    let q = |i: usize| !has_star(cache, favorites, i);
    let a = r.filter(p);
    let b = r.filter(q);
    assert forall|k: int| 0 <= k < a.len() implies has_star(cache, favorites, #[trigger] a[k]) by {
        r.lemma_filter_pred(p, k);
    }
    if b.len() > 0 {
        r.lemma_filter_pred(q, 0);
    }
    lemma_leading(cache, favorites, a, b);
}

proof fn lemma_leading(
    cache: Seq<EntryModel>,
    favorites: Set<Seq<char>>,
    a: Seq<usize>,
    b: Seq<usize>,
)
    requires
        forall|k: int| 0 <= k < a.len() ==> has_star(cache, favorites, #[trigger] a[k]),
        b.len() > 0 ==> !has_star(cache, favorites, b[0]),
    ensures
        leading_stars(cache, favorites, a + b) == a.len(),
    decreases a.len(),
{
    if a.len() == 0 {
        assert(a + b =~= b);
    } else {
        assert((a + b)[0] == a[0]);
        assert((a + b).drop_first() =~= a.drop_first() + b);
        assert forall|k: int| 0 <= k < a.drop_first().len() implies has_star(
            cache,
            favorites,
            #[trigger] a.drop_first()[k],
        ) by {
            assert(a.drop_first()[k] == a[k + 1]);
        }
        lemma_leading(cache, favorites, a.drop_first(), b);
    }
}

/// With an empty query every app is listed, once all are asked for.
pub proof fn every_app_is_listed(m: Model)
    requires
        m.results == m.listing_for(Seq::empty()),
        m.cache.len() <= usize::MAX,
        trimmed(m.query).len() == 0,
        m.show_all,
        !m.power_menu,
        !m.power_root(),
    ensures
        m.app_count() == m.cache.len(),
        forall|i: usize| i < m.cache.len() ==> #[trigger] m.results.contains(i),
{
    let r = fuzzy::ranking(Seq::empty(), crate::launcher::names_of(m.cache));
    favorites_first_keeps_all(m.cache, m.favorites, r);
    assert forall|i: usize| i < m.cache.len() implies #[trigger] m.results.contains(i) by {
        assert(r[i as int] == i);
    }
}

/// Starring an app twice restores the favorites and the list.
pub proof fn starring_twice_restores(m: Model, i: int, math: Option<Seq<char>>, now: LocalTime)
    requires
        0 <= i < m.cache.len(),
    ensures
        ({
            let id = m.cache[i].parsing_name;
            let once = (Model { favorites: toggled(m.favorites, id), ..m }).recomputed(math, now);
            let twice = (Model { favorites: toggled(once.favorites, id), ..once }).recomputed(
                math,
                now,
            );
            twice == m.recomputed(math, now)
        }),
{
    let id = m.cache[i].parsing_name;
    crate::favorites::toggle_undoes_itself(m.favorites, id);
    let once = (Model { favorites: toggled(m.favorites, id), ..m }).recomputed(math, now);
    let twice = (Model { favorites: toggled(once.favorites, id), ..once }).recomputed(math, now);
    assert(twice.favorites == m.favorites);
    assert(twice =~= m.recomputed(math, now));
}

/// With an empty query, unless all apps are asked for, the apps shown are the favorites, in
/// the order of the index.
pub proof fn blank_query_shows_favorites(m: Model)
    requires
        m.results == m.listing_for(Seq::empty()),
        trimmed(m.query).len() == 0,
        !m.show_all,
        !m.power_menu,
        !m.power_root(),
    ensures
        m.app_count() <= m.results.len(),
        m.results.take(m.app_count() as int) == fuzzy::ranking(
            Seq::empty(),
            crate::launcher::names_of(m.cache),
        ).filter(|i: usize| m.favorite(i)),
{
    let r = fuzzy::ranking(Seq::empty(), crate::launcher::names_of(m.cache));
    favorites_lead(m.cache, m.favorites, r);
    let p = |i: usize| has_star(m.cache, m.favorites, i);
    let q = |i: usize| m.favorite(i);
    assert(p =~= q);
    assert(m.results.take(m.app_count() as int) =~= r.filter(p));
}

/// Up undoes down, and down undoes up, also around the ends.
pub proof fn arrows_undo_each_other(i: int, n: int)
    requires
        0 <= i < n,
    ensures
        previous_row(next_row(i, n), n) == i,
        next_row(previous_row(i, n), n) == i,
        0 <= next_row(i, n) < n,
        0 <= previous_row(i, n) < n,
{
    vstd::arithmetic::div_mod::lemma_small_mod(i as nat, n as nat);
    vstd::arithmetic::div_mod::lemma_mod_multiples_vanish(1, i, n);
    if i + 1 == n {
        vstd::arithmetic::div_mod::lemma_mod_self_0(n);
        vstd::arithmetic::div_mod::lemma_small_mod((n - 1) as nat, n as nat);
    } else {
        vstd::arithmetic::div_mod::lemma_small_mod((i + 1) as nat, n as nat);
    }
    if i > 0 {
        vstd::arithmetic::div_mod::lemma_mod_multiples_vanish(1, i - 1, n);
        vstd::arithmetic::div_mod::lemma_small_mod((i - 1) as nat, n as nat);
    } else {
        vstd::arithmetic::div_mod::lemma_small_mod((n - 1) as nat, n as nat);
        vstd::arithmetic::div_mod::lemma_mod_self_0(n);
    }
}

/// A query for power shows no apps. Its row opens the menu, whose entries take its place.
pub proof fn power_row_opens_the_menu(m: Model)
    requires
        m.power_root(),
    ensures
        m.app_count() == 0,
        m.lead().last() == RowKind::PowerRoot,
        m.chosen(m.lead().len() - 1) is PowerMenu,
        m.activated(m.lead().len() - 1).power_menu,
        m.activated(m.lead().len() - 1).visible == m.visible,
        m.activated(m.lead().len() - 1).app_count() == 0,
        m.activated(m.lead().len() - 1).lead().len() == m.lead().len() + 2,
{
    assert(m.all_rows()[m.lead().len() - 1] == m.lead().last());
}

/// Enter always meets a row that is shown.
pub proof fn enter_meets_a_row(m: Model)
    requires
        m.row_count() > 0,
    ensures
        0 <= m.entered() < m.row_count(),
{
}

/// After the query was edited, a favorite toggled or the apps refreshed, the first row is
/// selected, whatever was selected before, and only the answers, the results and the power
/// menu are found anew.
pub proof fn finding_anew_selects_the_first_row(
    m: Model,
    math: Option<Seq<char>>,
    now: LocalTime,
)
    ensures
        ({
            let r = m.recomputed(math, now);
            &&& r.selected == 0
            &&& r.query == m.query && r.show_all == m.show_all && r.visible == m.visible
            &&& r.focus_input == m.focus_input && r.just_shown == m.just_shown
            &&& r.focused_once == m.focused_once && r.shown_at == m.shown_at
            &&& r.cache == m.cache && r.generation == m.generation
            &&& r.favorites == m.favorites && r.cur_height == m.cur_height
            &&& r.power_menu ==> m.power_menu
            &&& r.math is Some ==> r.math == math
        }),
{
}

/// Enter right after an edit activates the first row.
pub proof fn enter_after_an_edit_activates_the_first_row(
    m: Model,
    text: Seq<char>,
    math: Option<Seq<char>>,
    now: LocalTime,
    input: FrameInput,
)
    requires
        input.fg_focused,
        !input.esc && !input.up && !input.down && input.enter,
        (Model { query: text, ..m }).recomputed(math, now).row_count() > 0,
    ensures
        ({
            let r = (Model { query: text, ..m }).recomputed(math, now);
            &&& r.frame_end(input) is Activated
            &&& r.frame_end(input)->Activated_0 == r.chosen(0)
        }),
{
    let r = (Model { query: text, ..m }).recomputed(math, now);
    let t = r.with_focus(input);
    let v = t.moved(input);
    assert(t == (Model {
        focused_once: t.focused_once,
        just_shown: t.just_shown,
        focus_input: t.focus_input,
        ..r
    }));
    lemma_same_rows(r, t);
    assert(v =~= t);
}

/// Focus has no bearing on the rows.
proof fn lemma_same_rows(m: Model, t: Model)
    requires
        t == (Model {
            focused_once: t.focused_once,
            just_shown: t.just_shown,
            focus_input: t.focus_input,
            ..m
        }),
    ensures
        t.lead() == m.lead(),
        t.all_rows() == m.all_rows(),
        t.app_count() == m.app_count(),
        t.row_count() == m.row_count(),
        forall|pos: int| #[trigger] t.chosen(pos) == m.chosen(pos),
{
}

proof fn lemma_filter_all(r: Seq<usize>, p: spec_fn(usize) -> bool)
    requires
        forall|k: int| 0 <= k < r.len() ==> p(#[trigger] r[k]),
    ensures
        r.filter(p) == r,
    decreases r.len(),
{
    reveal_with_fuel(Seq::filter, 1);
    if r.len() > 0 {
        let a = r.drop_last();
        assert forall|k: int| 0 <= k < a.len() implies p(#[trigger] a[k]) by {
            assert(a[k] == r[k]);
        }
        lemma_filter_all(a, p);
        assert(p(r[r.len() - 1]));
        assert(r =~= a.push(r.last()));
    } else {
        assert(r.filter(p) =~= r);
    }
}

/// Favorites are listed before the others, and among the favorites, as among the others, the
/// order is that of the ranking.
pub proof fn listing_is_the_ranking_with_favorites_first(m: Model, q: Seq<char>)
    requires
        forall|k: int|
            0 <= k < fuzzy::ranking(q, crate::launcher::names_of(m.cache)).len()
                ==> #[trigger] fuzzy::ranking(q, crate::launcher::names_of(m.cache))[k]
                < m.cache.len(),
    ensures
        ({
            let ranked = fuzzy::ranking(q, crate::launcher::names_of(m.cache));
            let star = |i: usize| m.favorites.contains(m.cache[i as int].parsing_name);
            let plain = |i: usize| !m.favorites.contains(m.cache[i as int].parsing_name);
            &&& m.listing_for(q).filter(star) == ranked.filter(star)
            &&& m.listing_for(q).filter(plain) == ranked.filter(plain)
        }),
        forall|a: int, b: int|
            0 <= a < b < m.listing_for(q).len() && m.favorites.contains(
                m.cache[(#[trigger] m.listing_for(q)[b]) as int].parsing_name,
            ) ==> m.favorites.contains(
                m.cache[(#[trigger] m.listing_for(q)[a]) as int].parsing_name,
            ),
{
    let ranked = fuzzy::ranking(q, crate::launcher::names_of(m.cache));
    let star = |i: usize| m.favorites.contains(m.cache[i as int].parsing_name);
    let plain = |i: usize| !m.favorites.contains(m.cache[i as int].parsing_name);
    let p = |i: usize| has_star(m.cache, m.favorites, i);
    let n = |i: usize| !has_star(m.cache, m.favorites, i);
    let a = ranked.filter(p);
    let b = ranked.filter(n);
    lemma_filter_same(ranked, p, star, m.cache.len());
    lemma_filter_same(ranked, n, plain, m.cache.len());
    assert forall|k: int| 0 <= k < a.len() implies star(#[trigger] a[k]) && !plain(a[k]) by {
        ranked.lemma_filter_pred(star, k);
    }
    assert forall|k: int| 0 <= k < b.len() implies plain(#[trigger] b[k]) && !star(b[k]) by {
        ranked.lemma_filter_pred(plain, k);
    }
    lemma_filter_all(a, star);
    lemma_filter_all(b, plain);
    a.lemma_all_neg_filter_empty(plain);
    b.lemma_all_neg_filter_empty(star);
    Seq::filter_distributes_over_add(a, b, star);
    Seq::filter_distributes_over_add(a, b, plain);
    assert(m.listing_for(q) == a + b);
    assert(a.filter(star) + b.filter(star) =~= a);
    assert(a.filter(plain) + b.filter(plain) =~= b);
    let l = m.listing_for(q);
    assert forall|x: int, y: int|
        0 <= x < y < l.len() && m.favorites.contains(
            m.cache[(#[trigger] l[y]) as int].parsing_name,
        ) implies m.favorites.contains(m.cache[(#[trigger] l[x]) as int].parsing_name) by {
        if y >= a.len() {
            assert(l[y] == b[y - a.len()]);
            assert(plain(b[y - a.len()]));
        } else {
            assert(l[x] == a[x]);
            assert(star(a[x]));
        }
    }
}

proof fn lemma_filter_same(
    r: Seq<usize>,
    p: spec_fn(usize) -> bool,
    q: spec_fn(usize) -> bool,
    n: nat,
)
    requires
        forall|k: int| 0 <= k < r.len() ==> #[trigger] r[k] < n,
        forall|i: usize| i < n ==> #[trigger] p(i) == q(i),
    ensures
        r.filter(p) == r.filter(q),
    decreases r.len(),
{
    reveal_with_fuel(Seq::filter, 1);
    if r.len() > 0 {
        let a = r.drop_last();
        assert forall|k: int| 0 <= k < a.len() implies #[trigger] a[k] < n by {
            assert(a[k] == r[k]);
        }
        lemma_filter_same(a, p, q, n);
        assert(r[r.len() - 1] < n);
        assert(p(r.last()) == q(r.last()));
    }
}

/// Opening starts afresh: an empty query, nothing chosen, the newest apps, and eight frames in
/// which the foreground is asked for. The favorites and the height stay.
pub proof fn opening_starts_afresh(m: Model, index: AppIndex, now: LocalTime, clock: u64)
    ensures
        ({
            let s = m.shown(index, now, clock);
            &&& s.visible && s.query.len() == 0 && s.selected == 0
            &&& !s.show_all && !s.power_menu && s.math is None
            &&& s.shown_at == clock && s.just_shown == 8 && s.focus_input && !s.focused_once
            &&& s.generation == index.generation
            &&& s.favorites == m.favorites && s.cur_height == m.cur_height
            &&& index.generation == m.generation ==> s.cache == m.cache
            &&& index.generation != m.generation ==> s.cache.len() == index.list@.len()
                && forall|i: int|
                0 <= i < index.list@.len() ==> #[trigger] s.cache[i] == index.list@[i]@
        }),
{
}

/// Dismissing hides the launcher and forgets the query, the request for all apps and the power
/// menu. All else stays.
pub proof fn dismissing_forgets_the_query(m: Model)
    ensures
        ({
            let h = m.hidden();
            &&& !h.visible && h.query.len() == 0 && !h.show_all && !h.power_menu
            &&& h.results == m.results && h.selected == m.selected
            &&& h.cache == m.cache && h.generation == m.generation
            &&& h.favorites == m.favorites && h.cur_height == m.cur_height
            &&& h.focused_once == m.focused_once && h.shown_at == m.shown_at
        }),
{
}

/// The rows come in this order: the result of the query as math, the time, the entry of the
/// power menu, or the three entries of the open one, and then the results.
pub proof fn rows_come_in_order(m: Model, k: int)
    requires
        0 <= k < m.results.len(),
    ensures
        ({
            let a = if m.math is Some {
                1int
            } else {
                0int
            };
            let b = a + if m.time is Some {
                1int
            } else {
                0int
            };
            let c = b + (if m.power_root() {
                1int
            } else {
                0int
            }) + (if m.power_menu {
                3int
            } else {
                0int
            });
            let rows = m.all_rows();
            &&& m.math is Some ==> rows[0] == RowKind::Math
            &&& m.time is Some ==> rows[a] == RowKind::Time
            &&& m.power_root() ==> rows[b] == RowKind::PowerRoot
            &&& m.power_menu ==> rows[b] == RowKind::Power(PowerAction::Shutdown) && rows[b + 1]
                == RowKind::Power(PowerAction::Restart) && rows[b + 2] == RowKind::Power(
                PowerAction::Sleep,
            )
            &&& m.lead().len() == c
            &&& rows.len() == c + m.results.len()
            &&& rows[c + k] == RowKind::App(m.results[k])
            &&& !(m.power_menu && m.power_root())
        }),
{
    let rows = m.all_rows();
    let apps = m.results.map_values(|i: usize| RowKind::App(i));
    assert(rows[m.lead().len() + k] == apps[k]);
}

/// A row does what it says: an answer is copied, the entry of the power menu opens it, its
/// entries run, an app is launched by its id. All but the entry of the power menu dismiss the
/// launcher; where there is no row, nothing is done, and it is dismissed, too.
pub proof fn rows_do_what_they_say(m: Model, pos: int)
    ensures
        0 <= pos < m.all_rows().len() ==> match m.all_rows()[pos] {
            RowKind::Math => m.chosen(pos) is Copy && m.chosen(pos)->Copy_0 == m.math->0,
            RowKind::Time => m.chosen(pos) is Copy && m.chosen(pos)->Copy_0 == m.time->0,
            RowKind::PowerRoot => m.chosen(pos) is PowerMenu,
            RowKind::Power(a) => m.chosen(pos) is Run && m.chosen(pos)->Run_0 == a,
            RowKind::App(i) => m.chosen(pos) is Launch && m.chosen(pos)->Launch_0
                == m.cache[i as int].parsing_name,
        },
        !(0 <= pos < m.all_rows().len()) ==> m.chosen(pos) is Nothing,
        m.chosen(pos) is PowerMenu ==> m.activated(pos).power_menu && m.activated(pos).selected == 0
            && m.activated(pos).visible == m.visible && m.activated(pos).query == m.query,
        !(m.chosen(pos) is PowerMenu) ==> !m.activated(pos).visible && m.activated(pos).query.len()
            == 0 && !m.activated(pos).power_menu,
{
}

/// What is written in a row: the query and its result as math, the time, the name of a power
/// action or of an app.
pub proof fn rows_say_what_they_are(m: Model, i: usize, a: PowerAction)
    ensures
        m.row_text(RowKind::Math) == trimmed(m.query) + seq![' ', '=', ' '] + m.math->0,
        m.row_text(RowKind::Time) == seq!['t', 'i', 'm', 'e', ' ', '=', ' '] + m.time->0,
        m.row_text(RowKind::PowerRoot) == seq!['P', 'o', 'w', 'e', 'r'],
        m.row_text(RowKind::Power(a)) == match a {
            PowerAction::Shutdown => "Shutdown"@,
            PowerAction::Restart => "Restart"@,
            PowerAction::Sleep => "Sleep"@,
        },
        m.row_text(RowKind::App(i)) == m.cache[i as int].name,
{
    reveal_strlit(" = ");
    reveal_strlit("time = ");
    reveal_strlit("Power");
    assert(" = "@ =~= seq![' ', '=', ' ']);
    assert("time = "@ =~= seq!['t', 'i', 'm', 'e', ' ', '=', ' ']);
    assert("Power"@ =~= seq!['P', 'o', 'w', 'e', 'r']);
}

/// All results are shown for a query that is not blank, and for a blank one on request. Beside
/// what concerns power no apps are shown.
pub proof fn apps_are_shown_on_request(m: Model)
    ensures
        m.power_menu || m.power_root() ==> m.app_count() == 0,
        !m.power_menu && !m.power_root() && (m.show_all || exists|i: int|
            0 <= i < m.query.len() && !crate::text::white(#[trigger] m.query[i])) ==> m.app_count()
            == m.results.len(),
        m.row_count() == m.lead().len() + m.app_count(),
{
    let (a, b) = crate::text::trimming_takes_off_white_space(m.query);
    if exists|i: int| 0 <= i < m.query.len() && !crate::text::white(#[trigger] m.query[i]) {
        let i = choose|i: int| 0 <= i < m.query.len() && !crate::text::white(#[trigger] m.query[i]);
        assert(a <= i < b);
    }
}

/// A frame dismisses the launcher on Escape, or when the window had the focus, has it by
/// neither account any more, and more than 300 ms have passed since it was shown. In no other
/// case.
pub proof fn frame_dismisses_on_escape_or_loss_of_focus(m: Model, input: FrameInput)
    ensures
        m.frame_end(input) is Dismissed <==> input.esc || (m.focused_once && !input.fg_focused
            && input.egui_focused != Some(true) && input.clock - m.shown_at > 300_000_000),
        m.frame_end(input) is Dismissed ==> !m.after_frame(input).visible,
{
}

/// A frame activates the selected row, or the last one if there are fewer, exactly on Enter,
/// if there is a row and the launcher is not dismissed.
pub proof fn frame_activates_on_enter(m: Model, input: FrameInput)
    requires
        !input.up && !input.down,
        m.frame_end(input) !is Dismissed,
    ensures
        m.frame_end(input) is Activated <==> input.enter && m.row_count() > 0,
        m.frame_end(input) is Activated ==> m.frame_end(input)->Activated_0 == m.chosen(
            if m.selected < m.row_count() {
                m.selected as int
            } else {
                m.row_count() - 1
            },
        ),
        m.frame_end(input) is Activated ==> m.after_frame(input).visible == (m.visible
            && m.frame_end(input)->Activated_0 is PowerMenu) && m.after_frame(input).power_menu == (
        m.frame_end(input)->Activated_0 is PowerMenu),
        m.frame_end(input) is Draw ==> m.after_frame(input).selected == m.selected && m.after_frame(
            input,
        ).visible == m.visible && m.after_frame(input).query == m.query,
{
    let t = m.with_focus(input);
    lemma_same_rows(m, t);
    assert(t.moved(input) =~= t);
}

/// Down selects the next row and Up the one before, around the ends; both together change
/// nothing.
pub proof fn frame_moves_the_selection(m: Model, input: FrameInput)
    requires
        !input.enter,
        m.frame_end(input) !is Dismissed,
        m.selected < m.row_count(),
        m.row_count() <= usize::MAX,
    ensures
        ({
            let n = m.row_count() as int;
            let s = m.after_frame(input).selected as int;
            &&& input.down && !input.up ==> s == if m.selected + 1 == n {
                0
            } else {
                m.selected + 1
            }
            &&& input.up && !input.down ==> s == if m.selected == 0 {
                n - 1
            } else {
                m.selected - 1
            }
            &&& input.up == input.down ==> s == m.selected
        }),
{
    let t = m.with_focus(input);
    let n = m.row_count() as int;
    let i = m.selected as int;
    lemma_same_rows(m, t);
    arrows_undo_each_other(i, n);
    if i + 1 == n {
        vstd::arithmetic::div_mod::lemma_mod_self_0(n);
    } else {
        vstd::arithmetic::div_mod::lemma_small_mod((i + 1) as nat, n as nat);
    }
    if i == 0 {
        vstd::arithmetic::div_mod::lemma_small_mod((n - 1) as nat, n as nat);
    } else {
        vstd::arithmetic::div_mod::lemma_mod_multiples_vanish(1, i - 1, n);
        vstd::arithmetic::div_mod::lemma_small_mod((i - 1) as nat, n as nat);
    }
}

/// The foreground is asked for in the frames that are counted down after showing, as long as
/// the window never had the focus. Having had it is never forgotten by a frame.
pub proof fn foreground_is_asked_for_at_first(m: Model, input: FrameInput)
    ensures
        m.wants_foreground(input) <==> m.just_shown > 0 && !m.focused_once && !input.fg_focused
            && input.egui_focused != Some(true),
        m.frame_end(input) is Draw ==> m.after_frame(input).just_shown == if m.just_shown > 0 {
            m.just_shown - 1
        } else {
            0
        },
        m.frame_end(input) is Draw ==> m.after_frame(input).focused_once == (m.focused_once
            || input.fg_focused || input.egui_focused == Some(true)),
{
}

/// The window is 64 high, and 44 more for each row up to nine, and 16 below the rows.
pub proof fn window_height_follows_the_rows(n: nat)
    ensures
        crate::launcher::height_for(n) == 64 + (if n == 0 {
            0int
        } else {
            (if n < 9 {
                n as int
            } else {
                9int
            }) * 44 + 16
        }),
{
}

/// A query asks for power exactly if, trimmed, it has the five letters of "power", each small
/// or capital. The power menu stays open only for such a query, and its entry is offered
/// while it is closed.
pub proof fn power_is_asked_for_by_name(m: Model, math: Option<Seq<char>>, now: LocalTime)
    ensures
        ({
            let q = trimmed(m.query);
            let named = q.len() == 5 && (q[0] == 'p' || q[0] == 'P') && (q[1] == 'o' || q[1] == 'O')
                && (q[2] == 'w' || q[2] == 'W') && (q[3] == 'e' || q[3] == 'E') && (q[4] == 'r'
                || q[4] == 'R');
            &&& m.power_root() <==> named && !m.power_menu
            &&& m.recomputed(math, now).power_menu <==> named && m.power_menu
        }),
{
    let q = trimmed(m.query);
    let l = crate::text::ascii_lowered(q);
    reveal_strlit("power");
    assert("power"@ =~= seq!['p', 'o', 'w', 'e', 'r']);
    lemma_lowered_to('p', 'P');
    lemma_lowered_to('o', 'O');
    lemma_lowered_to('w', 'W');
    lemma_lowered_to('e', 'E');
    lemma_lowered_to('r', 'R');
    if q.len() == 5 {
        assert(l[0] == crate::text::ascii_lower(q[0]) && l[1] == crate::text::ascii_lower(q[1])
            && l[2] == crate::text::ascii_lower(q[2]) && l[3] == crate::text::ascii_lower(q[3])
            && l[4] == crate::text::ascii_lower(q[4]));
        if l[0] == 'p' && l[1] == 'o' && l[2] == 'w' && l[3] == 'e' && l[4] == 'r' {
            assert(l =~= "power"@);
        }
    }
    if l == "power"@ {
        assert(q.len() == l.len());
    }
}

proof fn lemma_lowered_to(small: char, capital: char)
    requires
        'a' <= small <= 'z',
        capital as int + 32 == small as int,
    ensures
        forall|c: char| #[trigger] crate::text::ascii_lower(c) == small <==> c == small || c
            == capital,
{
}

/// The time is answered exactly if the query, trimmed and without regard to case, is "time",
/// "now" or "current time", and the answer is the time on the clock. The result as math is
/// shown for every expression, and only for a query with an operator. The apps listed are
/// those for the query in lowercase.
pub proof fn answers_are_those_to_the_query(m: Model, math: Option<Seq<char>>, now: LocalTime)
    ensures
        ({
            let r = m.recomputed(math, now);
            let q = crate::text::ascii_lowered(trimmed(trimmed(m.query)));
            &&& r.time is Some <==> q == "time"@ || q == "now"@ || q == "current time"@
            &&& r.time is Some ==> r.time->0 == crate::time_fn::clock_text(now)
            &&& r.results == r.listing_for(crate::text::lowercase(trimmed(m.query)))
            &&& (exists|p: Seq<crate::calc::Step>|
                #[trigger] crate::calc::reads_as(trimmed(m.query), p)) ==> r.math == math
            &&& r.math is Some ==> exists|i: int|
                0 <= i < trimmed(m.query).len() && (#[trigger] trimmed(m.query)[i] == '+' || trimmed(
                    m.query,
                )[i] == '-' || trimmed(m.query)[i] == '*' || trimmed(m.query)[i] == '/' || trimmed(
                    m.query,
                )[i] == '%')
        }),
{
    let r = m.recomputed(math, now);
    if r.math is Some {
        let q = trimmed(m.query);
        let e = choose|e: crate::calc::Expr| crate::calc::is_math(q, e);
        assert(crate::calc::reads_as(q, crate::calc::postfix(e)));
        crate::calc::math_is_well_shaped(q, crate::calc::postfix(e));
    }
    if exists|p: Seq<crate::calc::Step>| #[trigger] crate::calc::reads_as(trimmed(m.query), p) {
        let p = choose|p: Seq<crate::calc::Step>| #[trigger]
            crate::calc::reads_as(trimmed(m.query), p);
        let e = choose|e: crate::calc::Expr| #[trigger]
            crate::calc::is_math(trimmed(m.query), e) && crate::calc::postfix(e) == p;
        assert(crate::calc::is_math(trimmed(m.query), e));
    }
}

/// A starred app becomes a favorite if it was none, and no longer one if it was. No other app
/// is touched.
pub proof fn starring_touches_one_app(favorites: Set<Seq<char>>, id: Seq<char>, other: Seq<char>)
    ensures
        toggled(favorites, id).contains(id) == !favorites.contains(id),
        other != id ==> toggled(favorites, id).contains(other) == favorites.contains(other),
{
}

/// Serving takes both requests down and leaves the switches alone. Without a request nothing
/// happens.
pub proof fn served_requests_are_taken_down(
    m: Model,
    f: Flags,
    index: AppIndex,
    now: LocalTime,
    clock: u64,
)
    ensures
        !flags_served(f).show_launcher && !flags_served(f).hide_launcher,
        flags_served(f).app_enabled == f.app_enabled,
        flags_served(f).hide_enabled == f.hide_enabled,
        flags_served(f).start_suppress_until_ms == f.start_suppress_until_ms,
        !f.show_launcher && !f.hide_launcher ==> served(m, f, index, now, clock) == m
            && flags_served(f).launcher_visible == f.launcher_visible,
{
}

/// The waits, sizes and numbers that the library is built on.
pub proof fn measures()
    ensures
        crate::taskbar::REHIDE_MS == 1000,
        crate::taskbar::SW_HIDE == 0 && crate::taskbar::SW_SHOWNA == 8,
        crate::autostart::HOOKS_TIMEOUT_MS == 3000,
        crate::apps::ICON_PX == 40,
        crate::launcher::WIDTH == 640,
        crate::launcher::OFFSCREEN == -32000,
        crate::geometry::CORNER == 32,
        crate::appbar::APPBAR_CALLBACK == 0x8007 && crate::appbar::ABN_POSCHANGED == 1,
        crate::appbar::WM_DESTROY == 0x0002 && crate::appbar::WM_DISPLAYCHANGE == 0x007E,
{
}
/// Taking over the apps of the index changes the apps and their generation, and nothing else.
/// Apps are matched by their lowercase names.
pub proof fn refreshing_changes_the_apps(m: Model, index: AppIndex, i: int)
    requires
        0 <= i < index.list@.len(),
    ensures
        ({
            let r = m.refreshed(index);
            &&& r.cache.len() == index.list@.len()
            &&& r.cache[i] == index.list@[i]@
            &&& r.generation == index.generation
            &&& crate::launcher::names_of(r.cache)[i] == index.list@[i].lower_name@
            &&& r == (Model { cache: r.cache, generation: r.generation, ..m })
        }),
{
}

} // verus!
