//! Callback helpers.

use std::time::Duration;
use vstd::prelude::*;

use crate::watch::{MountEvent, WatchControl};

verus! {

/// How to handle the initial event, which carries the list of mount points
/// that were found when the watch started.
pub enum CoalesceInitial {
    /// Coalesce the initial event like any other event.
    Coalesce,
    /// Do not coalesce the initial event, only the subsequent events.
    PassImmediately,
}

/// Whether the always-coalesce policy opens a coalescing window for an event
/// with these marks, instead of passing the event to the user's callback.
pub open spec fn wants_coalesce(policy: CoalesceInitial, coalesced: bool, initial: bool) -> bool {
    match policy {
        CoalesceInitial::Coalesce => !coalesced,
        CoalesceInitial::PassImmediately => !(coalesced || initial),
    }
}

/// The always-coalesce policy: every event that does not itself close a
/// coalescing window opens one of length `delay`, so the user's callback sees
/// events at most once per `delay`.
///
/// Returns the control value to hand back for `event`: `Some` carries the
/// coalescing decision; `None` means the event is for the user's callback,
/// whose own control value is to be handed back instead.
///
/// The initial event is handled according to `initial_event`:
/// `PassImmediately` hands it to the user's callback at once, which can be
/// useful to get a first list of the mount points as soon as possible.
pub fn coalesce(delay: Duration, initial_event: &CoalesceInitial, event: &MountEvent) -> (r:
    Option<WatchControl>)
    ensures
        r is Some <==> wants_coalesce(*initial_event, event.coalesced, event.initial),
        wants_coalesce(*initial_event, event.coalesced, event.initial) ==> r == Some(
            WatchControl::Coalesce { delay },
        ),
{
    let pass = match initial_event {
        CoalesceInitial::Coalesce => event.coalesced,
        CoalesceInitial::PassImmediately => event.coalesced || event.initial,
    };
    if pass {
        None
    } else {
        Some(WatchControl::Coalesce { delay })
    }
}

} // verus!
