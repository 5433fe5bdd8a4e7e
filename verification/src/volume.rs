//! What the master volume's mute and its endpoint come to.
use vstd::prelude::*;

verus! {

/// The output is muted, where `reading` is what the endpoint says, if it says anything.
pub open spec fn muted(reading: Option<bool>) -> bool {
    reading == Some(true)
}

/// Whether the output is muted. An endpoint that does not answer is not.
pub fn is_muted(reading: Option<bool>) -> (r: bool)
    ensures
        r == muted(reading),
{
    match reading {
        Some(m) => m,
        None => false,
    }
}

/// The state that flipping mute asks the endpoint for.
pub fn mute_to_set(reading: Option<bool>) -> (r: bool)
    ensures
        r == !muted(reading),
{
    !is_muted(reading)
}

/// What the endpoint says after it was asked to flip mute, where `reading` is what it said
/// before: the new state if it accepted, and else the same as before.
pub open spec fn reading_after(reading: Option<bool>, accepted: bool) -> Option<bool> {
    if accepted {
        Some(!muted(reading))
    } else {
        reading
    }
}

/// The state after flipping mute, where `reading` is what the endpoint said before, and
/// `accepted` whether it took the change.
pub fn toggle_mute(reading: Option<bool>, accepted: bool) -> (r: bool)
    ensures
        r == if accepted {
            !muted(reading)
        } else {
            muted(reading)
        },
{
    if accepted {
        mute_to_set(reading)
    } else {
        is_muted(reading)
    }
}

/// Whether setting the volume unmutes, too: every level but silence does.
pub fn unmutes(silent: bool) -> (r: bool)
    ensures
        r == !silent,
{
    !silent
}

/// The endpoint that a call is made on.
#[derive(Debug, Clone, Copy, PartialEq, Eq, Structural)]
pub enum Endpoint {
    /// The one that was kept.
    Kept,
    /// A new one, which is kept in its place. It is tried once.
    New,
}

/// The endpoint to make a call on. The kept one, if there is one, is tried first.
pub fn endpoint_for(kept: bool, kept_failed: bool) -> (r: Endpoint)
    ensures
        r == if kept && !kept_failed {
            Endpoint::Kept
        } else {
            Endpoint::New
        },
{
    if kept && !kept_failed {
        Endpoint::Kept
    } else {
        Endpoint::New
    }
}

/// Flipping mute returns the state that the endpoint has afterwards, whether it accepted
/// the change or not.
pub proof fn toggle_returns_the_new_state(reading: Option<bool>, accepted: bool)
    ensures
        muted(reading_after(reading, accepted)) == if accepted {
            !muted(reading)
        } else {
            muted(reading)
        },
{
}

/// Flipping mute twice on an endpoint that accepts restores it.
pub proof fn mute_undoes_itself(m: bool)
    ensures
        reading_after(reading_after(Some(m), true), true) == Some(m),
{
}

} // verus!
