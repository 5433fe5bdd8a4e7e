//! What the core thread (keyboard hook, tray) and the interface thread share.
use vstd::prelude::*;

verus! {

/// A single indexed application.
#[derive(Debug, PartialEq, Eq)]
pub struct AppEntry {
    pub name: String,
    /// The id by which the application is launched.
    pub parsing_name: String,
    pub lower_name: String,
    /// The icon as `(width, height, tightly packed RGBA)`, if available.
    pub icon: Option<(u32, u32, Vec<u8>)>,
}

/// What an entry holds.
#[verifier::ext_equal]
pub ghost struct EntryModel {
    pub name: Seq<char>,
    pub parsing_name: Seq<char>,
    pub lower_name: Seq<char>,
    pub icon: Option<(u32, u32, Seq<u8>)>,
}

/// What an icon holds.
pub open spec fn icon_model(icon: Option<(u32, u32, Vec<u8>)>) -> Option<(u32, u32, Seq<u8>)> {
    match icon {
        Some((w, h, p)) => Some((w, h, p@)),
        None => None,
    }
}

impl View for AppEntry {
    type V = EntryModel;

    open spec fn view(&self) -> EntryModel {
        EntryModel {
            name: self.name@,
            parsing_name: self.parsing_name@,
            lower_name: self.lower_name@,
            icon: icon_model(self.icon),
        }
    }
}

impl Clone for AppEntry {
    fn clone(&self) -> (r: AppEntry)
        ensures
            r@ == self@,
    {
        let icon = match &self.icon {
            Some((w, h, p)) => {
                let q = p.clone();
                assert(q@ =~= p@);
                Some((*w, *h, q))
            },
            None => None,
        };
        AppEntry {
            name: self.name.clone(),
            parsing_name: self.parsing_name.clone(),
            lower_name: self.lower_name.clone(),
            icon,
        }
    }
}

/// What a list of entries holds.
pub open spec fn models(list: Seq<AppEntry>) -> Seq<EntryModel> {
    list.map_values(|a: AppEntry| a@)
}

/// Marks every keystroke that we synthesize, so that our own keyboard hook can
/// recognize it and let it through. ASCII "HWIB".
pub const INJECT_SENTINEL: usize = 0x4857_4942;

/// The switches and requests that pass between the threads.
#[derive(Debug, Clone, Copy, PartialEq, Eq, Structural)]
pub struct Flags {
    /// The Win key is remapped and the taskbar hidden.
    pub app_enabled: bool,
    /// Taskbar hiding is active.
    pub hide_enabled: bool,
    /// A request to show the launcher.
    pub show_launcher: bool,
    /// A request to dismiss the launcher.
    pub hide_launcher: bool,
    /// Published by the launcher, so that a tap of Win can open or close it.
    pub launcher_visible: bool,
    /// Until this time, in milliseconds since the Unix epoch, a Start surface that
    /// opens is dismissed.
    pub start_suppress_until_ms: u64,
}

impl Flags {
    /// The state at startup: enabled, hiding, and nothing requested.
    pub fn new() -> (r: Flags)
        ensures
            r == (Flags {
                app_enabled: true,
                hide_enabled: true,
                show_launcher: false,
                hide_launcher: false,
                launcher_visible: false,
                start_suppress_until_ms: 0,
            }),
    {
        Flags {
            app_enabled: true,
            hide_enabled: true,
            show_launcher: false,
            hide_launcher: false,
            launcher_visible: false,
            start_suppress_until_ms: 0,
        }
    }
}

/// `std::time::SystemTime`, a reading of the system clock.
#[verifier::external_type_specification]
#[verifier::external_body]
pub struct ExSystemTime(std::time::SystemTime);

/// `std::time::SystemTimeError`, the error of a clock that stands before the epoch.
#[verifier::external_type_specification]
#[verifier::external_body]
pub struct ExSystemTimeError(std::time::SystemTimeError);

/// `std::time::SystemTime::now` reads the clock: nothing holds of every reading.
pub assume_specification[ std::time::SystemTime::now ]() -> std::time::SystemTime;

/// `std::time::SystemTime::duration_since`, with the Unix epoch for the earlier time: of
/// the clock's readings nothing is claimed.
#[verifier::external_body]
fn since_epoch(time: std::time::SystemTime) -> (r: Result<
    std::time::Duration,
    std::time::SystemTimeError,
>) {
    time.duration_since(std::time::UNIX_EPOCH)
}

/// `std::time::Duration::as_millis`: of the clock's readings nothing is claimed.
pub assume_specification[ std::time::Duration::as_millis ](d: &std::time::Duration) -> u128;

/// A reading of the clock, in milliseconds since the Unix epoch, as it is kept: the
/// low 64 bits, and 0 for a clock that stands before the epoch.
pub fn kept_ms(reading: Option<u128>) -> (r: u64)
    ensures
        r == match reading {
            Some(ms) => ms as int % 0x1_0000_0000_0000_0000,
            None => 0,
        },
{
    match reading {
        Some(ms) => (ms % 0x1_0000_0000_0000_0000) as u64,
        None => 0,
    }
}

/// The time in milliseconds since the Unix epoch.
pub fn now_ms() -> u64 {
    let reading = match since_epoch(std::time::SystemTime::now()) {
        Ok(d) => Some(d.as_millis()),
        Err(_) => None,
    };
    kept_ms(reading)
}

/// The indexed apps.
pub struct AppIndex {
    pub list: Vec<AppEntry>,
    /// Bumped every time the list is replaced, so that the interface can drop what it
    /// derived from the one before.
    pub generation: u64,
}

impl AppIndex {
    /// An index that was not filled yet.
    pub fn new() -> (r: AppIndex)
        ensures
            r.list@.len() == 0,
            r.generation == 0,
    {
        AppIndex { list: Vec::new(), generation: 0 }
    }
}

/// The apps of the index.
pub fn apps(index: &AppIndex) -> (r: &Vec<AppEntry>)
    ensures
        r == index.list,
{
    &index.list
}

/// Replaces the apps of the index. The generation counts on, modulo 2^64.
pub fn set_apps(index: &mut AppIndex, list: Vec<AppEntry>)
    ensures
        final(index).list == list,
        final(index).generation == (old(index).generation + 1) % 0x1_0000_0000_0000_0000,
{
    index.list = list;
    index.generation = index.generation.wrapping_add(1);
}

/// A new list of apps never has the generation of the one before.
pub proof fn new_list_is_noticed(generation: u64)
    ensures
        (generation + 1) % 0x1_0000_0000_0000_0000 != generation,
{
}

/// An entry shows its fields as they are.
pub proof fn entries_show_their_fields(a: AppEntry)
    ensures
        a@.name == a.name@,
        a@.parsing_name == a.parsing_name@,
        a@.lower_name == a.lower_name@,
        a.icon is None <==> a@.icon is None,
        a.icon matches Some((w, h, p)) ==> a@.icon == Some((w, h, p@)),
{
}

/// A list shows its entries in order.
pub proof fn lists_show_their_entries(list: Seq<AppEntry>, i: int)
    requires
        0 <= i < list.len(),
    ensures
        models(list).len() == list.len(),
        models(list)[i] == list[i]@,
{
}
} // verus!
