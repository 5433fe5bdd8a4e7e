//! The launcher: a search box, quick answers, a power menu and a list of apps.
//!
//! Hidden until Win is tapped. Each frame of the interface hands in what was pressed
//! and shown, and is told what to do.
use crate::favorites::Favorites;
use crate::fuzzy;
use crate::power::{PowerAction, ACTIONS};
use crate::state::{AppEntry, AppIndex, Flags};
#[allow(unused_imports)]
use crate::state::{models, EntryModel};
use crate::text::{join2, same, to_ascii_lowercase, trim};
#[allow(unused_imports)]
use crate::text::{ascii_lowered, in_ascii, lowercase, trimmed};
use crate::time_fn;
use crate::time_fn::LocalTime;
use vstd::prelude::*;

verus! {

/// The launcher's width, in logical pixels.
pub const WIDTH: u32 = 640;

/// The height of the search row.
pub const HEADER_H: u32 = 64;

pub const ROW_H: u32 = 44;

/// As many rows are shown without scrolling.
pub const MAX_ROWS: usize = 9;

/// Where the window is parked while it is hidden, in both directions.
pub const OFFSCREEN: i32 = -32000;

/// For so many frames after showing, the window asks for the foreground.
pub const SHOWN_FRAMES: u32 = 8;

/// For so many nanoseconds after showing, a loss of focus does not dismiss.
pub const FOCUS_GRACE_NS: u64 = 300_000_000;

/// As many rows can stand before the apps.
pub const MAX_LEAD: usize = 5;

pub struct Launcher {
    query: String,
    /// Indices into `cache`, best match first, favorites before others.
    results: Vec<usize>,
    /// The result of the query as math.
    math: Option<String>,
    /// The answer to the query for the time.
    time: Option<String>,
    power_menu: bool,
    selected: usize,
    show_all: bool,
    visible: bool,
    focus_input: bool,
    just_shown: u32,
    /// The window has actually held focus: guards against hiding before it was granted.
    focused_once: bool,
    cache: Vec<AppEntry>,
    generation: u64,
    favorites: Favorites,
    cur_height: u32,
    shown_at: u64,
}

/// What the launcher holds.
#[verifier::ext_equal]
pub ghost struct Model {
    pub query: Seq<char>,
    pub results: Seq<usize>,
    pub math: Option<Seq<char>>,
    pub time: Option<Seq<char>>,
    pub power_menu: bool,
    pub selected: usize,
    pub show_all: bool,
    pub visible: bool,
    pub focus_input: bool,
    pub just_shown: u32,
    pub focused_once: bool,
    pub cache: Seq<EntryModel>,
    pub generation: u64,
    pub favorites: Set<Seq<char>>,
    pub cur_height: u32,
    pub shown_at: u64,
}

pub open spec fn text_of(o: Option<String>) -> Option<Seq<char>> {
    match o {
        Some(s) => Some(s@),
        None => None,
    }
}

impl View for Launcher {
    type V = Model;

    closed spec fn view(&self) -> Model {
        Model {
            query: self.query@,
            results: self.results@,
            math: text_of(self.math),
            time: text_of(self.time),
            power_menu: self.power_menu,
            selected: self.selected,
            show_all: self.show_all,
            visible: self.visible,
            focus_input: self.focus_input,
            just_shown: self.just_shown,
            focused_once: self.focused_once,
            cache: models(self.cache@),
            generation: self.generation,
            favorites: self.favorites@,
            cur_height: self.cur_height,
            shown_at: self.shown_at,
        }
    }
}

impl Launcher {
    /// Every result is an app of the cache.
    pub closed spec fn wf(&self) -> bool {
        &&& self.favorites.wf()
        &&& self.cache@.len() + MAX_LEAD <= usize::MAX
        &&& self.results@.len() <= self.cache@.len()
        &&& forall|k: int| 0 <= k < self.results@.len() ==> #[trigger] self.results@[k] < self.cache@.len()
    }
}

/// The lowercase names of some entries.
pub open spec fn names_of(cache: Seq<EntryModel>) -> Seq<Seq<char>> {
    cache.map_values(|e: EntryModel| e.lower_name)
}

/// The query is "power", without regard to case.
pub open spec fn asks_for_power(query: Seq<char>) -> bool {
    ascii_lowered(trimmed(query)) == "power"@
}

/// The query is a complete expression with an operator.
pub open spec fn asks_for_math(query: Seq<char>) -> bool {
    exists|e: crate::calc::Expr| crate::calc::is_math(trimmed(query), e)
}

/// The app with index `i` is a favorite.
pub open spec fn has_star(cache: Seq<EntryModel>, favorites: Set<Seq<char>>, i: usize) -> bool {
    i < cache.len() && favorites.contains(cache[i as int].parsing_name)
}

/// A list of apps with the favorites first, each part in the order that it had.
pub open spec fn favorites_first(
    cache: Seq<EntryModel>,
    favorites: Set<Seq<char>>,
    r: Seq<usize>,
) -> Seq<usize> {
    r.filter(|i: usize| has_star(cache, favorites, i)) + r.filter(
        |i: usize| !has_star(cache, favorites, i),
    )
}

impl Model {
    /// The app with index `i` is a favorite.
    pub open spec fn favorite(self, i: usize) -> bool {
        has_star(self.cache, self.favorites, i)
    }

    /// The results for a lowercase query.
    pub open spec fn listing_for(self, q: Seq<char>) -> Seq<usize> {
        favorites_first(self.cache, self.favorites, fuzzy::ranking(q, names_of(self.cache)))
    }

    /// The results for the query.
    pub open spec fn listing(self) -> Seq<usize> {
        self.listing_for(lowercase(trimmed(self.query)))
    }

    /// The answers and results for the query at time `now`. `math` is the result of the
    /// query as math; only a complete expression has one.
    pub open spec fn recomputed(self, math: Option<Seq<char>>, now: LocalTime) -> Model {
        Model {
            math: if asks_for_math(self.query) {
                math
            } else {
                None
            },
            time: time_fn::time_answer(trimmed(self.query), now),
            power_menu: self.power_menu && asks_for_power(self.query),
            results: self.listing(),
            selected: 0,
            ..self
        }
    }

    /// The apps are those of the index.
    pub open spec fn refreshed(self, index: AppIndex) -> Model {
        Model { cache: models(index.list@), generation: index.generation, ..self }
    }

    /// The launcher was asked for.
    pub open spec fn shown(self, index: AppIndex, now: LocalTime, clock: u64) -> Model {
        let opened = Model {
            visible: true,
            shown_at: clock,
            just_shown: SHOWN_FRAMES,
            focus_input: true,
            focused_once: false,
            query: Seq::empty(),
            show_all: false,
            power_menu: false,
            ..self
        };
        if index.generation != self.generation {
            opened.refreshed(index).recomputed(None, now)
        } else {
            opened.recomputed(None, now)
        }
    }

    /// The launcher was dismissed.
    pub open spec fn hidden(self) -> Model {
        Model {
            visible: false,
            query: Seq::empty(),
            show_all: false,
            power_menu: false,
            ..self
        }
    }

    /// The entry of the power menu is offered.
    pub open spec fn power_root(self) -> bool {
        !self.power_menu && asks_for_power(self.query)
    }
}

/// Whether the query is "power", without regard to case.
fn is_power(query: &str) -> (r: bool)
    ensures
        r == asks_for_power(query@),
{
    same(to_ascii_lowercase(trim(query).as_str()).as_str(), "power")
}

impl Launcher {
    /// The launcher at startup: hidden, with nothing indexed.
    pub fn new(favorites: Favorites, clock: u64) -> (r: Launcher)
        requires
            favorites.wf(),
        ensures
            r.wf(),
            r@ == (Model {
                query: Seq::empty(),
                results: Seq::empty(),
                math: None,
                time: None,
                power_menu: false,
                selected: 0,
                show_all: false,
                visible: false,
                focus_input: false,
                just_shown: 0,
                focused_once: false,
                cache: Seq::empty(),
                generation: u64::MAX,
                favorites: favorites@,
                cur_height: HEADER_H,
                shown_at: clock,
            }),
    {
        let r = Launcher {
            query: String::new(),
            results: Vec::new(),
            math: None,
            time: None,
            power_menu: false,
            selected: 0,
            show_all: false,
            visible: false,
            focus_input: false,
            just_shown: 0,
            focused_once: false,
            cache: Vec::new(),
            generation: u64::MAX,
            favorites,
            cur_height: HEADER_H,
            shown_at: clock,
        };
        assert(models(r.cache@) =~= Seq::<EntryModel>::empty());
        r
    }

    /// Whether the app with index `i` is a favorite.
    pub fn is_favorite(&self, i: usize) -> (r: bool)
        requires
            self.wf(),
        ensures
            r == self@.favorite(i),
    {
        if i < self.cache.len() {
            assert(self@.cache[i as int] == self.cache@[i as int]@);
            self.favorites.contains(self.cache[i].parsing_name.as_str())
        } else {
            false
        }
    }

    /// A list of apps with the favorites first.
    fn arrange(&self, ranked: &Vec<usize>) -> (r: Vec<usize>)
        requires
            self.favorites.wf(),
            forall|k: int| 0 <= k < ranked@.len() ==> #[trigger] ranked@[k] < self.cache@.len(),
        ensures
            r@ == favorites_first(self@.cache, self@.favorites, ranked@),
            r@.len() == ranked@.len(),
            forall|k: int| 0 <= k < r@.len() ==> #[trigger] r@[k] < self.cache@.len(),
    {
        let mut starred: Vec<usize> = Vec::new();
        let mut others: Vec<usize> = Vec::new();
        let ghost p = |i: usize| has_star(self@.cache, self@.favorites, i);
        let ghost q = |i: usize| !has_star(self@.cache, self@.favorites, i);
        let mut k: usize = 0;
        while k < ranked.len()
            invariant
                k <= ranked@.len(),
                self.favorites.wf(),
                p == (|i: usize| has_star(self@.cache, self@.favorites, i)),
                q == (|i: usize| !has_star(self@.cache, self@.favorites, i)),
                starred@ == ranked@.take(k as int).filter(p),
                others@ == ranked@.take(k as int).filter(q),
                starred@.len() + others@.len() == k,
                forall|j: int|
                    0 <= j < ranked@.len() ==> #[trigger] ranked@[j] < self.cache@.len(),
                forall|j: int|
                    0 <= j < starred@.len() ==> #[trigger] starred@[j] < self.cache@.len(),
                forall|j: int| 0 <= j < others@.len() ==> #[trigger] others@[j] < self.cache@.len(),
            decreases ranked@.len() - k,
        {
            let i: usize = ranked[k];
            proof {
                let before = ranked@.take(k as int);
                assert(ranked@.take(k + 1) =~= before.push(i));
                before.lemma_filter_push(i, p);
                before.lemma_filter_push(i, q);
                assert(self@.cache[i as int] == self.cache@[i as int]@);
            }
            if self.favorites.contains(self.cache[i].parsing_name.as_str()) {
                starred.push(i);
            } else {
                others.push(i);
            }
            k = k + 1;
        }
        assert(ranked@.take(ranked@.len() as int) == ranked@);
        let ghost s = starred@;
        let ghost o = others@;
        starred.append(&mut others);
        proof {
            assert forall|k: int| 0 <= k < starred@.len() implies #[trigger] starred@[k]
                < self.cache@.len() by {
                if k >= s.len() {
                    assert(starred@[k] == o[k - s.len()]);
                } else {
                    assert(starred@[k] == s[k]);
                }
            }
        }
        starred
    }

    /// Finds the answers and results for the query anew. `math` is the result of the
    /// query as math, if it has one.
    pub fn recompute(&mut self, math: Option<String>, now: LocalTime)
        requires
            old(self).wf(),
        ensures
            final(self).wf(),
            final(self)@ == old(self)@.recomputed(text_of(math), now),
            in_ascii(trimmed(old(self)@.query)) ==> final(self)@.results == old(self)@.listing_for(
                ascii_lowered(trimmed(old(self)@.query)),
            ),
            final(self)@.selected == 0,
            final(self)@.query == old(self)@.query,
            final(self)@.visible == old(self)@.visible,
    {
        let q = trim(self.query.as_str());
        self.math = match crate::calc::parse(q.as_str()) {
            Some(_) => math,
            None => None,
        };
        self.time = time_fn::eval(q.as_str(), now);
        if !is_power(self.query.as_str()) {
            self.power_menu = false;
        }
        assert(fuzzy::lower_names(self.cache@) =~= names_of(models(self.cache@)));
        let ranked = fuzzy::rank(self.query.as_str(), self.cache.as_slice());
        self.results = self.arrange(&ranked);
        self.selected = 0;
        assert(self@ =~= old(self)@.recomputed(text_of(math), now));
    }
}

impl Launcher {
    /// Takes over the apps of the index if they are new, and finds the answers and
    /// results anew. Returns whether they were.
    pub fn refresh_cache_if_needed(
        &mut self,
        index: &AppIndex,
        math: Option<String>,
        now: LocalTime,
    ) -> (r: bool)
        requires
            old(self).wf(),
            index.list@.len() + MAX_LEAD <= usize::MAX,
        ensures
            final(self).wf(),
            r == (index.generation != old(self)@.generation),
            final(self)@ == if r {
                old(self)@.refreshed(*index).recomputed(text_of(math), now)
            } else {
                old(self)@
            },
            final(self)@.selected == if r {
                0
            } else {
                old(self)@.selected
            },
            final(self)@.generation == index.generation,
    {
        if index.generation != self.generation {
            self.take_over(index);
            self.recompute(math, now);
            true
        } else {
            false
        }
    }

    /// Takes over the apps of the index, and no results yet.
    fn take_over(&mut self, index: &AppIndex)
        requires
            old(self).wf(),
            index.list@.len() + MAX_LEAD <= usize::MAX,
        ensures
            final(self).wf(),
            final(self)@ == (Model { results: Seq::empty(), ..old(self)@.refreshed(*index) }),
    {
        self.results = Vec::new();
        self.cache = index.list.clone();
        self.generation = index.generation;
        assert(models(self.cache@) =~= models(index.list@));
        assert(self@ =~= (Model { results: Seq::empty(), ..old(self)@.refreshed(*index) }));
    }

    /// Shows the launcher, with an empty query.
    pub fn show(&mut self, flags: &mut Flags, index: &AppIndex, now: LocalTime, clock: u64)
        requires
            old(self).wf(),
            index.list@.len() + MAX_LEAD <= usize::MAX,
        ensures
            final(self).wf(),
            final(self)@ == old(self)@.shown(*index, now, clock),
            final(self)@.results == final(self)@.listing_for(Seq::empty()),
            final(self)@.selected == 0,
            final(self)@.visible,
            final(self)@.query.len() == 0,
            *final(flags) == (Flags { launcher_visible: true, ..*old(flags) }),
    {
        self.visible = true;
        self.shown_at = clock;
        self.just_shown = SHOWN_FRAMES;
        self.focus_input = true;
        self.focused_once = false;
        self.query = String::new();
        self.show_all = false;
        self.power_menu = false;
        if index.generation != self.generation {
            self.take_over(index);
        }
        self.recompute(None, now);
        assert(ascii_lowered(trimmed(Seq::empty())) =~= Seq::<char>::empty());
        flags.launcher_visible = true;
    }

    /// Dismisses the launcher.
    pub fn dismiss(&mut self, flags: &mut Flags)
        requires
            old(self).wf(),
        ensures
            final(self).wf(),
            final(self)@ == old(self)@.hidden(),
            *final(flags) == (Flags { launcher_visible: false, ..*old(flags) }),
    {
        self.visible = false;
        self.query = String::new();
        self.show_all = false;
        self.power_menu = false;
        flags.launcher_visible = false;
    }

    /// Serves the requests that the flags hold, and takes them down. Showing comes
    /// before hiding, so that of a simultaneous pair the launcher ends hidden. Returns
    /// whether it was shown and whether it was hidden.
    pub fn serve_requests(
        &mut self,
        flags: &mut Flags,
        index: &AppIndex,
        now: LocalTime,
        clock: u64,
    ) -> (r: (bool, bool))
        requires
            old(self).wf(),
            index.list@.len() + MAX_LEAD <= usize::MAX,
        ensures
            final(self).wf(),
            r.0 == old(flags).show_launcher,
            r.1 == old(flags).hide_launcher,
            final(self)@ == served(old(self)@, *old(flags), *index, now, clock),
            *final(flags) == flags_served(*old(flags)),
    {
        let shown = flags.show_launcher;
        flags.show_launcher = false;
        if shown {
            self.show(flags, index, now, clock);
        }
        let hidden = flags.hide_launcher;
        flags.hide_launcher = false;
        if hidden {
            self.dismiss(flags);
        }
        (shown, hidden)
    }
}

/// The flags after their requests were served.
pub open spec fn flags_served(f: Flags) -> Flags {
    Flags {
        show_launcher: false,
        hide_launcher: false,
        launcher_visible: !f.hide_launcher && (f.show_launcher || f.launcher_visible),
        ..f
    }
}

/// The launcher after the requests of the flags.
pub open spec fn served(m: Model, f: Flags, index: AppIndex, now: LocalTime, clock: u64) -> Model {
    let opened = if f.show_launcher {
        m.shown(index, now, clock)
    } else {
        m
    };
    if f.hide_launcher {
        opened.hidden()
    } else {
        opened
    }
}

/// What a row of the launcher is.
#[derive(Debug, Clone, Copy, PartialEq, Eq, Structural)]
pub enum RowKind {
    /// The result of the query as math.
    Math,
    /// The answer to the query for the time.
    Time,
    /// The entry that opens the power menu.
    PowerRoot,
    /// An entry of the power menu.
    Power(PowerAction),
    /// The app with this index.
    App(usize),
}

/// A row as it is drawn.
#[derive(Debug, PartialEq, Eq)]
pub struct Row {
    pub kind: RowKind,
    pub text: String,
}

/// What activating a row comes to.
#[derive(Debug, PartialEq, Eq)]
pub enum Activation {
    /// Put this text on the clipboard.
    Copy(String),
    /// The power menu was opened.
    PowerMenu,
    Run(PowerAction),
    /// Launch the app of this id.
    Launch(String),
    Nothing,
}

/// What an activation says.
pub ghost enum ActivationModel {
    Copy(Seq<char>),
    PowerMenu,
    Run(PowerAction),
    Launch(Seq<char>),
    Nothing,
}

impl View for Activation {
    type V = ActivationModel;

    open spec fn view(&self) -> ActivationModel {
        match *self {
            Activation::Copy(s) => ActivationModel::Copy(s@),
            Activation::PowerMenu => ActivationModel::PowerMenu,
            Activation::Run(a) => ActivationModel::Run(a),
            Activation::Launch(s) => ActivationModel::Launch(s@),
            Activation::Nothing => ActivationModel::Nothing,
        }
    }
}

/// One row if it is offered, else none.
pub open spec fn row_if(offered: bool, kind: RowKind) -> Seq<RowKind> {
    if offered {
        seq![kind]
    } else {
        Seq::empty()
    }
}

/// How many of the first results are favorites without a gap.
pub open spec fn leading_stars(
    cache: Seq<EntryModel>,
    favorites: Set<Seq<char>>,
    r: Seq<usize>,
) -> nat
    decreases r.len(),
{
    if r.len() > 0 && has_star(cache, favorites, r[0]) {
        1 + leading_stars(cache, favorites, r.drop_first())
    } else {
        0
    }
}

impl Model {
    /// The rows before the apps: the quick answers, then what concerns power.
    pub open spec fn lead(self) -> Seq<RowKind> {
        row_if(self.math is Some, RowKind::Math) + row_if(self.time is Some, RowKind::Time) + row_if(
            self.power_root(),
            RowKind::PowerRoot,
        ) + if self.power_menu {
            seq![
                RowKind::Power(PowerAction::Shutdown),
                RowKind::Power(PowerAction::Restart),
                RowKind::Power(PowerAction::Sleep),
            ]
        } else {
            Seq::empty()
        }
    }

    /// All rows, shown or not.
    pub open spec fn all_rows(self) -> Seq<RowKind> {
        self.lead() + self.results.map_values(|i: usize| RowKind::App(i))
    }

    /// How many apps are shown: none beside the power menu, all for a query or on
    /// request, and else the favorites.
    pub open spec fn app_count(self) -> nat {
        if self.power_menu || self.power_root() {
            0
        } else if trimmed(self.query).len() > 0 || self.show_all {
            self.results.len()
        } else {
            leading_stars(self.cache, self.favorites, self.results)
        }
    }

    /// How many rows are shown.
    pub open spec fn row_count(self) -> nat {
        self.lead().len() + self.app_count()
    }

    /// The rows that are shown.
    pub open spec fn rows(self) -> Seq<RowKind> {
        self.all_rows().take(self.row_count() as int)
    }

    /// What is written in a row.
    pub open spec fn row_text(self, kind: RowKind) -> Seq<char> {
        match kind {
            RowKind::Math => trimmed(self.query) + " = "@ + self.math->0,
            RowKind::Time => "time = "@ + self.time->0,
            RowKind::PowerRoot => "Power"@,
            RowKind::Power(a) => a.label_text(),
            RowKind::App(i) => self.cache[i as int].name,
        }
    }

    /// What activating the row at `pos` comes to.
    pub open spec fn chosen(self, pos: int) -> ActivationModel {
        if 0 <= pos < self.all_rows().len() {
            match self.all_rows()[pos] {
                RowKind::Math => ActivationModel::Copy(self.math->0),
                RowKind::Time => ActivationModel::Copy(self.time->0),
                RowKind::PowerRoot => ActivationModel::PowerMenu,
                RowKind::Power(a) => ActivationModel::Run(a),
                RowKind::App(i) => ActivationModel::Launch(self.cache[i as int].parsing_name),
            }
        } else {
            ActivationModel::Nothing
        }
    }

    /// The launcher after the row at `pos` was activated: opening the power menu keeps
    /// it open, everything else dismisses it.
    pub open spec fn activated(self, pos: int) -> Model {
        if self.chosen(pos) is PowerMenu {
            Model { power_menu: true, selected: 0, ..self }
        } else {
            self.hidden()
        }
    }
}

impl Launcher {
    /// Whether the entry of the power menu is offered.
    pub fn power_root_visible(&self) -> (r: bool)
        ensures
            r == self@.power_root(),
    {
        !self.power_menu && is_power(self.query.as_str())
    }

    /// The number of rows before the apps.
    pub fn math_rows(&self) -> (r: usize)
        ensures
            r == self@.lead().len(),
            r <= MAX_LEAD,
    {
        let mut n: usize = 0;
        if self.math.is_some() {
            n = n + 1;
        }
        if self.time.is_some() {
            n = n + 1;
        }
        if self.power_root_visible() {
            n = n + 1;
        }
        if self.power_menu {
            n = n + ACTIONS.len();
        }
        n
    }

    /// The number of apps that are shown.
    pub fn app_count(&self) -> (r: usize)
        requires
            self.wf(),
        ensures
            r == self@.app_count(),
            r <= self@.results.len(),
    {
        if self.power_menu || self.power_root_visible() {
            0
        } else if !trim(self.query.as_str()).as_str().is_empty() || self.show_all {
            self.results.len()
        } else {
            let mut k: usize = 0;
            assert(self.results@.skip(0) =~= self.results@);
            while k < self.results.len() && self.is_favorite(self.results[k])
                invariant
                    k <= self.results@.len(),
                    self.wf(),
                    leading_stars(self@.cache, self@.favorites, self.results@) == k + leading_stars(
                        self@.cache,
                        self@.favorites,
                        self.results@.skip(k as int),
                    ),
                decreases self.results@.len() - k,
            {
                assert(self.results@.skip(k as int).drop_first() =~= self.results@.skip(k + 1));
                k = k + 1;
            }
            k
        }
    }

    /// The number of rows that are shown.
    pub fn row_count(&self) -> (r: usize)
        requires
            self.wf(),
        ensures
            r == self@.row_count(),
            r <= self@.all_rows().len(),
    {
        let a: usize = self.app_count();
        self.math_rows() + a
    }

    /// The row at `pos`, shown or not.
    fn row_at(&self, pos: usize) -> (r: Option<RowKind>)
        requires
            self.wf(),
        ensures
            r == if pos < self@.all_rows().len() {
                Some(self@.all_rows()[pos as int])
            } else {
                None
            },
            r matches Some(RowKind::App(i)) ==> i < self@.cache.len(),
            r matches Some(RowKind::Math) ==> self@.math is Some,
            r matches Some(RowKind::Time) ==> self@.time is Some,
    {
        let ghost m = self@;
        let ghost a = row_if(m.math is Some, RowKind::Math);
        let ghost b = row_if(m.time is Some, RowKind::Time);
        let ghost c = row_if(m.power_root(), RowKind::PowerRoot);
        let ghost apps = m.results.map_values(|i: usize| RowKind::App(i));
        let mut row: usize = pos;
        if self.math.is_some() {
            if row == 0 {
                return Some(RowKind::Math);
            }
            row = row - 1;
        }
        assert(row == pos - a.len());
        if self.time.is_some() {
            if row == 0 {
                return Some(RowKind::Time);
            }
            row = row - 1;
        }
        assert(row == pos - (a + b).len());
        if self.power_root_visible() {
            if row == 0 {
                return Some(RowKind::PowerRoot);
            }
            row = row - 1;
        }
        assert(row == pos - (a + b + c).len());
        if self.power_menu {
            if row < ACTIONS.len() {
                return Some(RowKind::Power(ACTIONS[row]));
            }
            row = row - ACTIONS.len();
        }
        assert(row == pos - m.lead().len());
        if row < self.results.len() {
            assert(m.all_rows()[pos as int] == apps[row as int]);
            Some(RowKind::App(self.results[row]))
        } else {
            None
        }
    }

    /// Activates the row at `pos`: copies an answer, opens the power menu, runs a power
    /// action, or launches an app.
    pub fn activate(&mut self, flags: &mut Flags, pos: usize) -> (r: Activation)
        requires
            old(self).wf(),
        ensures
            final(self).wf(),
            final(self)@ == old(self)@.activated(pos as int),
            r@ == old(self)@.chosen(pos as int),
            *final(flags) == if r@ is PowerMenu {
                *old(flags)
            } else {
                Flags { launcher_visible: false, ..*old(flags) }
            },
    {
        let r = match self.row_at(pos) {
            Some(RowKind::Math) => match &self.math {
                Some(text) => Activation::Copy(text.clone()),
                None => Activation::Nothing,
            },
            Some(RowKind::Time) => match &self.time {
                Some(text) => Activation::Copy(text.clone()),
                None => Activation::Nothing,
            },
            Some(RowKind::PowerRoot) => {
                self.power_menu = true;
                self.selected = 0;
                return Activation::PowerMenu;
            },
            Some(RowKind::Power(a)) => Activation::Run(a),
            Some(RowKind::App(i)) => {
                assert(self@.cache[i as int] == self.cache@[i as int]@);
                Activation::Launch(self.cache[i].parsing_name.clone())
            },
            None => Activation::Nothing,
        };
        self.dismiss(flags);
        r
    }
}

/// What a frame reports while the launcher is visible.
#[derive(Debug, Clone, Copy, PartialEq, Eq, Structural)]
pub struct FrameInput {
    /// Ours is the system's foreground window.
    pub fg_focused: bool,
    /// What the interface toolkit knows of the window's focus.
    pub egui_focused: Option<bool>,
    /// A monotonic clock, in nanoseconds.
    pub clock: u64,
    pub esc: bool,
    pub up: bool,
    pub down: bool,
    pub enter: bool,
}

/// How a frame ends.
#[derive(Debug, PartialEq, Eq)]
pub enum FrameEnd {
    /// The launcher was dismissed.
    Dismissed,
    /// A row was activated by the keyboard.
    Activated(Activation),
    /// The launcher is drawn.
    Draw,
}

/// What the frame is told to do.
#[derive(Debug, PartialEq, Eq)]
pub struct FrameOrder {
    /// Pull the window to the foreground.
    pub force_foreground: bool,
    pub end: FrameEnd,
}

/// What the end of a frame says.
pub ghost enum FrameEndModel {
    Dismissed,
    Activated(ActivationModel),
    Draw,
}

impl View for FrameEnd {
    type V = FrameEndModel;

    open spec fn view(&self) -> FrameEndModel {
        match *self {
            FrameEnd::Dismissed => FrameEndModel::Dismissed,
            FrameEnd::Activated(a) => FrameEndModel::Activated(a@),
            FrameEnd::Draw => FrameEndModel::Draw,
        }
    }
}

/// The window has the focus, by either account.
pub open spec fn focused(input: FrameInput) -> bool {
    input.fg_focused || input.egui_focused == Some(true)
}

/// The row after `i` of `n`, from the last to the first.
pub open spec fn next_row(i: int, n: int) -> int {
    (i + 1) % n
}

/// The row before `i` of `n`, from the first to the last.
pub open spec fn previous_row(i: int, n: int) -> int {
    (i + n - 1) % n
}

impl Model {
    /// Having had the focus is remembered. In the first frames after showing, a window
    /// that did not have it yet keeps the input focused.
    pub open spec fn with_focus(self, input: FrameInput) -> Model {
        let once = self.focused_once || focused(input);
        Model {
            focused_once: once,
            just_shown: if self.just_shown > 0 {
                (self.just_shown - 1) as u32
            } else {
                0
            },
            focus_input: self.focus_input || (self.just_shown > 0 && !once),
            ..self
        }
    }

    /// In the first frames after showing, a window that did not have the focus yet is
    /// pulled to the foreground.
    pub open spec fn wants_foreground(self, input: FrameInput) -> bool {
        self.just_shown > 0 && !self.focused_once && !focused(input)
    }

    /// The focus was had and lost, and the time of grace after showing is over.
    pub open spec fn abandoned(self, input: FrameInput) -> bool {
        self.focused_once && !focused(input) && input.clock - self.shown_at > FOCUS_GRACE_NS
    }

    /// The arrow keys move the selection, around the ends.
    pub open spec fn moved(self, input: FrameInput) -> Model {
        let n = self.row_count() as int;
        if n > 0 {
            let a = if input.down {
                next_row(self.selected as int, n)
            } else {
                self.selected as int
            };
            let b = if input.up {
                previous_row(a, n)
            } else {
                a
            };
            Model { selected: b as usize, ..self }
        } else {
            self
        }
    }

    /// The row that Enter activates.
    pub open spec fn entered(self) -> int {
        if self.selected < self.row_count() {
            self.selected as int
        } else {
            self.row_count() - 1
        }
    }

    /// The launcher after the keys and focus of a frame.
    pub open spec fn after_frame(self, input: FrameInput) -> Model {
        let t = self.with_focus(input);
        if t.abandoned(input) || input.esc {
            t.hidden()
        } else {
            let v = t.moved(input);
            if input.enter && v.row_count() > 0 {
                v.activated(v.entered())
            } else {
                v
            }
        }
    }

    /// How the frame ends.
    pub open spec fn frame_end(self, input: FrameInput) -> FrameEndModel {
        let t = self.with_focus(input);
        if t.abandoned(input) || input.esc {
            FrameEndModel::Dismissed
        } else {
            let v = t.moved(input);
            if input.enter && v.row_count() > 0 {
                FrameEndModel::Activated(v.chosen(v.entered()))
            } else {
                FrameEndModel::Draw
            }
        }
    }
}

/// The row after `i` of `n`.
fn row_after(i: usize, n: usize) -> (r: usize)
    requires
        n > 0,
    ensures
        r == next_row(i as int, n as int),
{
    let k: usize = i % n;
    proof {
        vstd::arithmetic::div_mod::lemma_add_mod_noop(i as int, 1, n as int);
        vstd::arithmetic::div_mod::lemma_add_mod_noop(k as int, 1, n as int);
        vstd::arithmetic::div_mod::lemma_mod_twice(i as int, n as int);
    }
    if k + 1 == n {
        proof {
            vstd::arithmetic::div_mod::lemma_mod_self_0(n as int);
        }
        0
    } else {
        proof {
            vstd::arithmetic::div_mod::lemma_small_mod((k + 1) as nat, n as nat);
        }
        k + 1
    }
}

/// The row before `i` of `n`.
fn row_before(i: usize, n: usize) -> (r: usize)
    requires
        n > 0,
    ensures
        r == previous_row(i as int, n as int),
{
    let k: usize = i % n;
    proof {
        vstd::arithmetic::div_mod::lemma_add_mod_noop(i as int, n - 1, n as int);
        vstd::arithmetic::div_mod::lemma_add_mod_noop(k as int, n - 1, n as int);
        vstd::arithmetic::div_mod::lemma_mod_twice(i as int, n as int);
        assert((k + (n - 1)) % (n as int) == previous_row(i as int, n as int));
    }
    if k == 0 {
        proof {
            vstd::arithmetic::div_mod::lemma_small_mod((n - 1) as nat, n as nat);
        }
        n - 1
    } else {
        proof {
            vstd::arithmetic::div_mod::lemma_mod_multiples_vanish(1, k - 1, n as int);
            vstd::arithmetic::div_mod::lemma_small_mod((k - 1) as nat, n as nat);
        }
        k - 1
    }
}

impl Launcher {
    /// Moves the selection by the arrow keys.
    fn navigate(&mut self, input: FrameInput)
        requires
            old(self).wf(),
        ensures
            final(self).wf(),
            final(self)@ == old(self)@.moved(input),
    {
        let n: usize = self.row_count();
        if n > 0 {
            if input.down {
                self.selected = row_after(self.selected, n);
            }
            if input.up {
                self.selected = row_before(self.selected, n);
            }
        }
    }

    /// Takes in the focus and the keys of a frame in which the launcher is visible.
    pub fn frame(&mut self, flags: &mut Flags, input: FrameInput) -> (r: FrameOrder)
        requires
            old(self).wf(),
        ensures
            final(self).wf(),
            final(self)@ == old(self)@.after_frame(input),
            r.end@ == old(self)@.frame_end(input),
            r.force_foreground == old(self)@.wants_foreground(input),
            *final(flags) == match r.end@ {
                FrameEndModel::Dismissed => Flags { launcher_visible: false, ..*old(flags) },
                FrameEndModel::Activated(ActivationModel::PowerMenu) => *old(flags),
                FrameEndModel::Activated(_) => Flags { launcher_visible: false, ..*old(flags) },
                FrameEndModel::Draw => *old(flags),
            },
    {
        let egui_focused = match input.egui_focused {
            Some(f) => f,
            None => false,
        };
        let has_focus = input.fg_focused || egui_focused;
        if has_focus {
            self.focused_once = true;
        }
        let mut force_foreground = false;
        if self.just_shown > 0 {
            self.just_shown = self.just_shown - 1;
            if !self.focused_once {
                force_foreground = true;
                self.focus_input = true;
            }
        }
        assert(self@ =~= old(self)@.with_focus(input));
        if self.focused_once && !has_focus && input.clock > self.shown_at && input.clock
            - self.shown_at > FOCUS_GRACE_NS {
            self.dismiss(flags);
            return FrameOrder { force_foreground, end: FrameEnd::Dismissed };
        }
        if input.esc {
            self.dismiss(flags);
            return FrameOrder { force_foreground, end: FrameEnd::Dismissed };
        }
        self.navigate(input);
        let n: usize = self.row_count();
        if input.enter && n > 0 {
            let pos: usize = if self.selected < n {
                self.selected
            } else {
                n - 1
            };
            let a = self.activate(flags, pos);
            FrameOrder { force_foreground, end: FrameEnd::Activated(a) }
        } else {
            FrameOrder { force_foreground, end: FrameEnd::Draw }
        }
    }
}

/// What the rows are.
pub open spec fn kinds(rows: Seq<Row>) -> Seq<RowKind> {
    rows.map_values(|r: Row| r.kind)
}

impl Launcher {
    fn push_row(&self, rows: &mut Vec<Row>, kind: RowKind)
        requires
            self.wf(),
            kind is Math ==> self@.math is Some,
            kind is Time ==> self@.time is Some,
            kind matches RowKind::App(i) ==> i < self@.cache.len(),
            forall|k: int|
                0 <= k < old(rows)@.len() ==> (#[trigger] old(rows)@[k]).text@ == self@.row_text(
                    old(rows)@[k].kind,
                ),
        ensures
            kinds(final(rows)@) == kinds(old(rows)@).push(kind),
            forall|k: int|
                0 <= k < final(rows)@.len() ==> (#[trigger] final(rows)@[k]).text@ == self@.row_text(
                    final(rows)@[k].kind,
                ),
    {
        let text = match kind {
            RowKind::Math => match &self.math {
                Some(v) => {
                    let label = join2(trim(self.query.as_str()).as_str(), " = ");
                    join2(label.as_str(), v.as_str())
                },
                None => String::new(),
            },
            RowKind::Time => match &self.time {
                Some(v) => join2("time = ", v.as_str()),
                None => String::new(),
            },
            RowKind::PowerRoot => "Power".to_owned(),
            RowKind::Power(a) => a.label().to_owned(),
            RowKind::App(i) => {
                assert(self@.cache[i as int] == self.cache@[i as int]@);
                self.cache[i].name.clone()
            },
        };
        assert(text@ == self@.row_text(kind));
        rows.push(Row { kind, text });
        assert(kinds(rows@) =~= kinds(old(rows)@).push(kind));
    }

    /// The rows to draw: those before the apps, and then as many apps as given.
    pub fn drawn_rows(&self, app_count: usize) -> (r: Vec<Row>)
        requires
            self.wf(),
        ensures
            kinds(r@) == self@.lead() + self@.results.take(
                if app_count < self@.results.len() {
                    app_count as int
                } else {
                    self@.results.len() as int
                },
            ).map_values(|i: usize| RowKind::App(i)),
            forall|k: int|
                0 <= k < r@.len() ==> (#[trigger] r@[k]).text@ == self@.row_text(r@[k].kind),
    {
        let mut rows: Vec<Row> = Vec::new();
        if self.math.is_some() {
            self.push_row(&mut rows, RowKind::Math);
        }
        if self.time.is_some() {
            self.push_row(&mut rows, RowKind::Time);
        }
        if self.power_root_visible() {
            self.push_row(&mut rows, RowKind::PowerRoot);
        }
        if self.power_menu {
            self.push_row(&mut rows, RowKind::Power(PowerAction::Shutdown));
            self.push_row(&mut rows, RowKind::Power(PowerAction::Restart));
            self.push_row(&mut rows, RowKind::Power(PowerAction::Sleep));
        }
        assert(kinds(rows@) =~= self@.lead());
        let n: usize = if app_count < self.results.len() {
            app_count
        } else {
            self.results.len()
        };
        let mut k: usize = 0;
        let ghost app = |i: usize| RowKind::App(i);
        while k < n
            invariant
                k <= n <= self.results@.len(),
                self.wf(),
                app == (|i: usize| RowKind::App(i)),
                kinds(rows@) == self@.lead() + self@.results.take(k as int).map_values(app),
                forall|j: int|
                    0 <= j < rows@.len() ==> (#[trigger] rows@[j]).text@ == self@.row_text(
                        rows@[j].kind,
                    ),
            decreases n - k,
        {
            let i: usize = self.results[k];
            self.push_row(&mut rows, RowKind::App(i));
            k = k + 1;
            assert(kinds(rows@) =~= self@.lead() + self@.results.take(k as int).map_values(app));
        }
        rows
    }

    /// The query was edited to `text`, whose result as math, if it has one, is `math`.
    pub fn edit_query(&mut self, text: String, math: Option<String>, now: LocalTime)
        requires
            old(self).wf(),
        ensures
            final(self).wf(),
            final(self)@ == (Model { query: text@, ..old(self)@ }).recomputed(text_of(math), now),
            in_ascii(trimmed(text@)) ==> final(self)@.results == old(self)@.listing_for(
                ascii_lowered(trimmed(text@)),
            ),
            final(self)@.selected == 0,
            final(self)@.query == text@,
    {
        self.query = text;
        self.recompute(math, now);
    }

    /// The arrow beside the search box was clicked: shows all apps, or no longer does.
    pub fn toggle_show_all(&mut self)
        requires
            old(self).wf(),
        ensures
            final(self).wf(),
            final(self)@ == (Model {
                show_all: !old(self)@.show_all,
                focus_input: true,
                ..old(self)@
            }),
    {
        self.show_all = !self.show_all;
        self.focus_input = true;
    }

    /// The search box was given the focus.
    pub fn input_focused(&mut self)
        requires
            old(self).wf(),
        ensures
            final(self).wf(),
            final(self)@ == (Model { focus_input: false, ..old(self)@ }),
    {
        self.focus_input = false;
    }

    /// Makes the app with index `i` a favorite, or no longer one, and lists anew. Returns
    /// the file that keeps the favorites; nothing happens if there is no such app.
    pub fn toggle_favorite(&mut self, i: usize, math: Option<String>, now: LocalTime) -> (r: Option<
        String,
    >)
        requires
            old(self).wf(),
        ensures
            final(self).wf(),
            r is Some <==> i < old(self)@.cache.len(),
            final(self)@ == if i < old(self)@.cache.len() {
                (Model {
                    favorites: crate::favorites::toggled(
                        old(self)@.favorites,
                        old(self)@.cache[i as int].parsing_name,
                    ),
                    ..old(self)@
                }).recomputed(text_of(math), now)
            } else {
                old(self)@
            },
            final(self)@.selected == if r is Some {
                0
            } else {
                old(self)@.selected
            },
            r matches Some(text) ==> exists|list: Seq<Seq<char>>| #[trigger]
                crate::favorites::is_listing(list, final(self)@.favorites) && text@
                    == crate::favorites::joined(list),
    {
        if i >= self.cache.len() {
            return None;
        }
        assert(self@.cache[i as int] == self.cache@[i as int]@);
        let id = self.cache[i].parsing_name.clone();
        self.favorites.toggle(id);
        let text = self.favorites.text();
        let ghost favorites = self.favorites@;
        self.recompute(math, now);
        assert(self@.favorites == favorites);
        Some(text)
    }

    /// A row with a star was clicked: a click on the star toggles the favorite, one
    /// beside it activates the row.
    pub fn star_is_meant(row_clicked: bool, star_clicked: bool, pointer_on_star: bool) -> (r: bool)
        ensures
            r == (star_clicked || (row_clicked && pointer_on_star)),
    {
        star_clicked || (row_clicked && pointer_on_star)
    }

    /// The height for so many rows. Returns it if the window does not have it yet.
    pub fn fit_height(&mut self, row_count: usize) -> (r: Option<u32>)
        requires
            old(self).wf(),
        ensures
            final(self).wf(),
            final(self)@ == (Model { cur_height: height_for(row_count as nat) as u32, ..old(self)@ }),
            r == if height_for(row_count as nat) == old(self)@.cur_height {
                None
            } else {
                Some(height_for(row_count as nat) as u32)
            },
    {
        let rows: u32 = if row_count < MAX_ROWS {
            row_count as u32
        } else {
            MAX_ROWS as u32
        };
        let target: u32 = if rows == 0 {
            HEADER_H
        } else {
            HEADER_H + rows * ROW_H + 16
        };
        if target != self.cur_height {
            self.cur_height = target;
            Some(target)
        } else {
            None
        }
    }

    pub fn query(&self) -> (r: &str)
        ensures
            r@ == self@.query,
    {
        self.query.as_str()
    }

    pub fn is_visible(&self) -> (r: bool)
        ensures
            r == self@.visible,
    {
        self.visible
    }

    pub fn shows_all(&self) -> (r: bool)
        ensures
            r == self@.show_all,
    {
        self.show_all
    }

    pub fn selected(&self) -> (r: usize)
        ensures
            r == self@.selected,
    {
        self.selected
    }

    /// The app with index `i`.
    pub fn app(&self, i: usize) -> (r: Option<&AppEntry>)
        ensures
            r is Some <==> i < self@.cache.len(),
            r matches Some(a) ==> a@ == self@.cache[i as int],
    {
        if i < self.cache.len() {
            assert(self@.cache[i as int] == self.cache@[i as int]@);
            Some(&self.cache[i])
        } else {
            None
        }
    }
}

/// The height of the window for so many rows, in logical pixels.
pub open spec fn height_for(row_count: nat) -> nat {
    if row_count == 0 {
        HEADER_H as nat
    } else if row_count < MAX_ROWS {
        (HEADER_H + row_count * ROW_H + 16) as nat
    } else {
        (HEADER_H + MAX_ROWS * ROW_H + 16) as nat
    }
}

} // verus!
