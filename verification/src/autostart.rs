//! What goes into the registry: starting with Windows, the remap of the Win keys, and the
//! time that Windows waits for a keyboard hook.
use crate::text::{join2, to_wide};
#[allow(unused_imports)]
use crate::text::utf16;
use vstd::prelude::*;

verus! {

/// The wait for a keyboard hook that we ask for, in milliseconds.
pub const HOOKS_TIMEOUT_MS: u32 = 3000;

/// A 32-bit number as bytes, the lowest first.
pub open spec fn dword_bytes(x: int) -> Seq<u8> {
    seq![
        (x % 0x100) as u8,
        (x / 0x100 % 0x100) as u8,
        (x / 0x1_0000 % 0x100) as u8,
        (x / 0x100_0000 % 0x100) as u8,
    ]
}

fn push_dword(bytes: &mut Vec<u8>, x: u32)
    ensures
        final(bytes)@ == old(bytes)@ + dword_bytes(x as int),
{
    bytes.push((x % 0x100) as u8);
    bytes.push((x / 0x100 % 0x100) as u8);
    bytes.push((x / 0x1_0000 % 0x100) as u8);
    bytes.push((x / 0x100_0000 % 0x100) as u8);
    assert(bytes@ =~= old(bytes)@ + dword_bytes(x as int));
}

/// An entry of a scancode map: the key with the scancode `from` sends `to`.
pub open spec fn mapping(from: int, to: int) -> int {
    from * 0x1_0000 + to
}

/// The scancode map: two words of header, the number of entries, the entries, of which
/// the last is empty. The left Win key sends F13, the right one F14.
pub open spec fn scancode_map_bytes() -> Seq<u8> {
    dword_bytes(0) + dword_bytes(0) + dword_bytes(3) + dword_bytes(mapping(0xE05B, 0x64))
        + dword_bytes(mapping(0xE05C, 0x65)) + dword_bytes(0)
}

/// The scancode map that turns the Win keys into F13 and F14, so that the shell never
/// receives a Win key.
pub fn scancode_map() -> (r: Vec<u8>)
    ensures
        r@ == scancode_map_bytes(),
{
    let mut bytes: Vec<u8> = Vec::new();
    push_dword(&mut bytes, 0);
    push_dword(&mut bytes, 0);
    push_dword(&mut bytes, 3);
    push_dword(&mut bytes, 0xE05B_0064);
    push_dword(&mut bytes, 0xE05C_0065);
    push_dword(&mut bytes, 0);
    bytes
}

/// The wait to write, where `current` is the one that is set, if any.
pub open spec fn timeout_to_write(current: Option<u32>, ms: u32) -> Option<u32> {
    if current is None || current->0 < ms {
        Some(ms)
    } else {
        None
    }
}

/// The wait for a keyboard hook to write, where `current` is the one that is set, if any:
/// one that is long enough is left as it is.
pub fn ensure_lowlevel_hooks_timeout(current: Option<u32>, ms: u32) -> (r: Option<u32>)
    ensures
        r == timeout_to_write(current, ms),
{
    match current {
        Some(cur) => if cur < ms {
            Some(ms)
        } else {
            None
        },
        None => Some(ms),
    }
}

/// After the wait was seen to, it is at least what was asked for, and was never shortened.
pub proof fn timeout_is_only_raised(current: Option<u32>, ms: u32)
    ensures
        ({
            let after = match timeout_to_write(current, ms) {
                Some(written) => written,
                None => current->0,
            };
            after >= ms && (current matches Some(cur) ==> after >= cur)
        }),
{
}

/// What happens to the entry that starts us with Windows.
#[derive(Debug, PartialEq, Eq)]
pub enum RunEntry {
    /// Write this text, in UTF-16 with its terminating zero, lowest byte first.
    Write(Vec<u8>),
    Delete,
    Keep,
}

/// UTF-16 as bytes, the lowest of each unit first.
pub open spec fn wide_bytes(units: Seq<u16>) -> Seq<u8> {
    Seq::new(
        2 * units.len(),
        |i: int|
            if i % 2 == 0 {
                (units[i / 2] % 0x100) as u8
            } else {
                (units[i / 2] / 0x100) as u8
            },
    )
}

/// The text of the entry: the quoted path of the executable, with its terminating zero.
pub open spec fn run_command(exe: Seq<char>) -> Seq<u8> {
    wide_bytes(utf16(seq!['"'] + exe + seq!['"']).push(0))
}

fn to_bytes(units: &Vec<u16>) -> (r: Vec<u8>)
    ensures
        r@ == wide_bytes(units@),
{
    let mut r: Vec<u8> = Vec::new();
    let mut i: usize = 0;
    assert(r@ =~= wide_bytes(units@.take(0)));
    while i < units.len()
        invariant
            i <= units@.len(),
            r@ == wide_bytes(units@.take(i as int)),
        decreases units@.len() - i,
    {
        r.push((units[i] % 0x100) as u8);
        r.push((units[i] / 0x100) as u8);
        i = i + 1;
        assert(r@ =~= wide_bytes(units@.take(i as int)));
    }
    assert(units@.take(units@.len() as int) =~= units@);
    r
}

/// What adding or removing the entry comes to. `exe` is the path of the executable, if it
/// is known; without it nothing can be added.
pub fn set_enabled(enabled: bool, exe: Option<&str>) -> (r: RunEntry)
    ensures
        !enabled ==> r is Delete,
        enabled && exe is None ==> r is Keep,
        enabled && exe is Some ==> r is Write && r->0@ == run_command(exe->0@),
{
    if enabled {
        match exe {
            Some(path) => {
                let opened = join2("\"", path);
                let command = join2(opened.as_str(), "\"");
                proof {
                    reveal_strlit("\"");
                    assert("\""@ =~= seq!['"']);
                }
                RunEntry::Write(to_bytes(&to_wide(command.as_str())))
            },
            None => RunEntry::Keep,
        }
    } else {
        RunEntry::Delete
    }
}

/// The bytes of an entry determine its text: units are read back two bytes at a time.
pub proof fn wide_bytes_are_told_apart(a: Seq<u16>, b: Seq<u16>)
    requires
        wide_bytes(a) == wide_bytes(b),
    ensures
        a == b,
{
    assert(wide_bytes(a).len() == 2 * a.len());
    assert(wide_bytes(b).len() == 2 * b.len());
    assert forall|i: int| 0 <= i < a.len() implies a[i] == b[i] by {
        assert(wide_bytes(a)[2 * i] == (a[i] % 0x100) as u8);
        assert(wide_bytes(b)[2 * i] == (b[i] % 0x100) as u8);
        assert(wide_bytes(a)[2 * i + 1] == (a[i] / 0x100) as u8);
        assert(wide_bytes(b)[2 * i + 1] == (b[i] / 0x100) as u8);
    }
    assert(a =~= b);
}

/// The bytes of a 32-bit number give it back, the lowest first.
pub proof fn dwords_read_back(x: u32)
    ensures
        dword_bytes(x as int).len() == 4,
        dword_bytes(x as int)[0] + 0x100 * dword_bytes(x as int)[1] + 0x1_0000 * dword_bytes(
            x as int,
        )[2] + 0x100_0000 * dword_bytes(x as int)[3] == x,
{
}

/// The bytes of UTF-16 are two for each unit, the lower one first.
pub proof fn wide_bytes_of_a_unit(units: Seq<u16>, i: int)
    requires
        0 <= i < units.len(),
    ensures
        wide_bytes(units).len() == 2 * units.len(),
        wide_bytes(units)[2 * i] + 0x100 * wide_bytes(units)[2 * i + 1] == units[i],
{
    assert((2 * i) / 2 == i && (2 * i) % 2 == 0);
    assert((2 * i + 1) / 2 == i && (2 * i + 1) % 2 == 1);
}

/// The scancode map, four bytes a number: an empty header, three entries, of which the first
/// sends F13 (0x64) for the left Win key (0xE05B), the second F14 (0x65) for the right one
/// (0xE05C), and the third ends the map.
pub proof fn scancode_map_remaps_both_win_keys()
    ensures
        scancode_map_bytes() == seq![
            0u8, 0, 0, 0, 0, 0, 0, 0, 3, 0, 0, 0, 0x64, 0, 0x5B, 0xE0, 0x65, 0, 0x5C, 0xE0, 0, 0, 0, 0,
        ],
{
    assert(scancode_map_bytes() =~= seq![
        0u8, 0, 0, 0, 0, 0, 0, 0, 3, 0, 0, 0, 0x64, 0, 0x5B, 0xE0, 0x65, 0, 0x5C, 0xE0, 0, 0, 0, 0,
    ]);
}

/// The entry is the quoted path, in UTF-16, and a zero: its first unit and the last before the
/// zero are quotes, and between them stands the path.
pub proof fn run_command_is_the_quoted_path(exe: Seq<char>) -> (units: Seq<u16>)
    ensures
        run_command(exe) == wide_bytes(units),
        units == seq![0x22u16] + utf16(exe) + seq![0x22u16, 0u16],
{
    let q = seq!['"'];
    crate::text::utf16_of_parts(q, exe);
    crate::text::utf16_of_parts(q + exe, q);
    crate::text::utf16_of_a_character('"');
    assert(utf16(q) =~= seq![0x22u16]);
    let units = utf16(q + exe + q).push(0);
    assert(units =~= seq![0x22u16] + utf16(exe) + seq![0x22u16, 0u16]);
    units
}

/// The wait is written exactly if none is set or the one that is set is shorter.
pub proof fn short_timeouts_are_written(current: u32, ms: u32)
    ensures
        timeout_to_write(None, ms) == Some(ms),
        current < ms ==> timeout_to_write(Some(current), ms) == Some(ms),
        current >= ms ==> timeout_to_write(Some(current), ms) is None,
{
}
} // verus!
