//! The coalescing state machine that drives the watch.

use std::time::Duration;
use vstd::prelude::*;
use vstd::string::StringExecFns;

use crate::diff::{added_of, dedup, dedup_mounts, diff_mounts, lemma_dedup, removed_of};
use crate::mount::{parse_proc_mounts, parse_table, LinuxMount, MountView, ParseError, ReadError};

verus! {

/// Event generated when the mounted filesystems change.
#[derive(Debug)]
pub struct MountEvent {
    /// The new filesystems that have been mounted.
    pub mounted: Vec<LinuxMount>,
    /// The old filesystems that have been unmounted.
    pub unmounted: Vec<LinuxMount>,
    /// Whether this event summarizes a coalescing window.
    ///
    /// See [`WatchControl::Coalesce`].
    pub coalesced: bool,
    /// Whether this is the first event, which carries the list of all the
    /// mounts found when the watch started.
    pub initial: bool,
}

/// Value returned by the event handler to control the watch.
#[derive(Debug)]
pub enum WatchControl {
    /// Continue watching.
    Continue,
    /// Stop watching.
    Stop,
    /// Suppress events for `delay`, then deliver one event that also carries
    /// every mount and unmount that happened during the delay.
    Coalesce { delay: Duration },
}

/// What the loop should do with a wake-up.
#[derive(Clone, Copy, Debug, PartialEq, Eq, Structural)]
pub enum TriggerAction {
    /// Absorb the wake-up: a coalescing window is open, the change will be
    /// picked up when the window's timer expires.
    Suppress,
    /// Read the mount table and observe it, with this coalescing mark.
    ReadTable { coalesced: bool },
}

/// The mathematical value of the state machine: the records last handed to
/// the handler, whether a coalescing window is open, and the freshly read
/// records awaiting the handler's decision.
#[verifier::ext_equal]
pub struct StateView {
    pub known: Seq<MountView>,
    pub coalescing: bool,
    pub pending: Option<Seq<MountView>>,
}

impl StateView {
    /// The state's invariant: no set of records holds a record twice, and a
    /// pending set awaits a decision only while no window is open.
    pub open spec fn wf(self) -> bool {
        &&& self.known.no_duplicates()
        &&& match self.pending {
            Some(p) => p.no_duplicates() && !self.coalescing,
            None => true,
        }
    }
}

/// What a wake-up does to the state, before any read: while a coalescing
/// window is open, anything but the window's own timer is absorbed; the
/// timer closes the window and marks the following read as coalesced.
pub open spec fn trigger_step(s: StateView, is_timer: bool) -> (StateView, TriggerAction) {
    if s.coalescing {
        if is_timer {
            (
                StateView { coalescing: false, ..s },
                TriggerAction::ReadTable { coalesced: true },
            )
        } else {
            (s, TriggerAction::Suppress)
        }
    } else {
        (s, TriggerAction::ReadTable { coalesced: false })
    }
}

/// What observing a freshly read table against known records yields.
pub enum Observation {
    /// The table's text was malformed at this line.
    ParseFailed { line: Seq<char> },
    /// Nothing changed: a spurious wake-up, absorbed without an event.
    NoChange,
    /// Some records appeared or disappeared; `current` is the full set read.
    Changed { mounted: Seq<MountView>, unmounted: Seq<MountView>, current: Seq<MountView> },
}

/// Parses the table and diffs its (deduplicated) records against `known`.
pub open spec fn observe_step(known: Seq<MountView>, table: Seq<char>) -> Observation {
    match parse_table(table) {
        Err(line) => Observation::ParseFailed { line },
        Ok(ms) => {
            let current = dedup(ms);
            let mounted = added_of(known, current);
            let unmounted = removed_of(known, current);
            if mounted.len() == 0 && unmounted.len() == 0 {
                Observation::NoChange
            } else {
                Observation::Changed { mounted, unmounted, current }
            }
        },
    }
}

/// What the handler's decision does to the state: a coalescing decision opens
/// the window and discards the pending set, so the next delivered event is
/// still diffed against the old baseline; any other decision makes the
/// pending set the new baseline.
pub open spec fn decision_step(s: StateView, coalesce_requested: bool) -> StateView {
    if coalesce_requested {
        StateView { known: s.known, coalescing: true, pending: None }
    } else {
        StateView { known: s.pending.unwrap(), coalescing: false, pending: None }
    }
}

/// The state machine of the watch. The loop around it feeds it every wake-up
/// through [`WatchState::on_trigger`], every table text through
/// [`WatchState::observe`], and every decision of the handler through
/// [`WatchState::apply_decision`].
pub struct WatchState {
    known_mounts: Vec<LinuxMount>,
    pending_mounts: Option<Vec<LinuxMount>>,
    coalescing: bool,
}

impl View for WatchState {
    type V = StateView;

    closed spec fn view(&self) -> StateView {
        StateView {
            known: self.known_mounts.deep_view(),
            coalescing: self.coalescing,
            pending: self.pending_mounts.deep_view(),
        }
    }
}

impl WatchState {
    /// A fresh state: no mounts known, no window open.
    pub fn new() -> (s: Self)
        ensures
            s@ == (StateView { known: Seq::<MountView>::empty(), coalescing: false, pending: None::<Seq<MountView>> }),
            s@.wf(),
    {
        let s = WatchState { known_mounts: Vec::new(), pending_mounts: None, coalescing: false };
        proof {
            assert(s@.known =~= Seq::<MountView>::empty());
            assert(s@ =~= (StateView {
                known: Seq::<MountView>::empty(),
                coalescing: false,
                pending: None::<Seq<MountView>>,
            }));
        }
        s
    }

    /// Takes a wake-up of the loop: decides whether the mount table is to be
    /// read, and with which coalescing mark, or whether the wake-up is
    /// absorbed by an open coalescing window.
    pub fn on_trigger(&mut self, is_timer: bool) -> (a: TriggerAction)
        ensures
            final(self)@ == trigger_step(old(self)@, is_timer).0,
            a == trigger_step(old(self)@, is_timer).1,
    {
        if self.coalescing {
            if is_timer {
                self.coalescing = false;
                TriggerAction::ReadTable { coalesced: true }
            } else {
                TriggerAction::Suppress
            }
        } else {
            TriggerAction::ReadTable { coalesced: false }
        }
    }

    /// Takes the freshly read text of the mount table; yields the event to
    /// hand to the handler, or `None` when nothing changed, or the parse
    /// error. On an event, the set just read is held back as pending until
    /// the handler's decision arrives.
    pub fn observe(&mut self, content: &str, coalesced: bool, initial: bool) -> (r: Result<
        Option<MountEvent>,
        ParseError,
    >)
        requires
            old(self)@.wf(),
            !old(self)@.coalescing,
            old(self)@.pending is None,
        ensures
            final(self)@.wf(),
            final(self)@.known == old(self)@.known,
            final(self)@.coalescing == false,
            match r {
                Err(e) => final(self)@ == old(self)@ && observe_step(old(self)@.known, content@)
                    == (Observation::ParseFailed { line: e.input@ }),
                Ok(None) => final(self)@ == old(self)@ && observe_step(
                    old(self)@.known,
                    content@,
                ) is NoChange,
                Ok(Some(ev)) => {
                    &&& observe_step(old(self)@.known, content@) == (Observation::Changed {
                        mounted: ev.mounted.deep_view(),
                        unmounted: ev.unmounted.deep_view(),
                        current: final(self)@.pending.unwrap(),
                    })
                    &&& final(self)@.pending is Some
                    &&& ev.coalesced == coalesced
                    &&& ev.initial == initial
                    &&& ev.mounted.deep_view().len() + ev.unmounted.deep_view().len() > 0
                },
            },
    {
        let mut raw: Vec<LinuxMount> = Vec::new();
        match parse_proc_mounts(content, &mut raw) {
            Err(e) => {
                proof {
                    assert(final(self)@ =~= old(self)@);
                }
                return Err(e);
            },
            Ok(_) => {},
        }
        proof {
            assert(raw.deep_view() =~= parse_table(content@)->Ok_0);
            lemma_dedup(raw.deep_view());
        }
        let current = dedup_mounts(&raw);
        let (mounted, unmounted) = diff_mounts(&self.known_mounts, &current);
        if mounted.len() == 0 && unmounted.len() == 0 {
            proof {
                assert(final(self)@ =~= old(self)@);
            }
            return Ok(None);
        }
        self.pending_mounts = Some(current);
        Ok(Some(MountEvent { mounted, unmounted, coalesced, initial }))
    }

    /// Whether a coalescing window is open.
    pub fn is_coalescing(&self) -> (b: bool)
        ensures
            b == self@.coalescing,
    {
        self.coalescing
    }

    /// Whether a freshly read set awaits the handler's decision.
    pub fn has_pending(&self) -> (b: bool)
        ensures
            b == (self@.pending is Some),
    {
        self.pending_mounts.is_some()
    }

    /// Takes the handler's decision for the event just delivered: on
    /// `Coalesce` the window opens and the baseline is kept, so the event
    /// after the window summarizes everything since it; otherwise the set
    /// read for that event becomes the new baseline.
    pub fn apply_decision(&mut self, control: &WatchControl)
        requires
            old(self)@.wf(),
            old(self)@.pending is Some,
        ensures
            final(self)@.wf(),
            final(self)@ == decision_step(old(self)@, *control is Coalesce),
    {
        match control {
            WatchControl::Coalesce { .. } => {
                self.pending_mounts = None;
                self.coalescing = true;
            },
            _ => {
                if let Some(cur) = self.pending_mounts.take() {
                    self.known_mounts = cur;
                }
            },
        }
    }
}

/// Round trip: re-observing a table against the very records it parses to
/// yields no event; such a wake-up is absorbed as spurious.
pub proof fn lemma_reparse_is_quiet(table: Seq<char>, ms: Seq<MountView>)
    requires
        parse_table(table) == Ok::<_, Seq<char>>(ms),
    ensures
        observe_step(dedup(ms), table) is NoChange,
{
    crate::diff::lemma_self_diff_empty(dedup(ms));
}

/// Observing the same table twice yields exactly one event: once the first
/// event's set is the baseline, the second observation sees no change.
pub proof fn lemma_observe_idempotent(
    known: Seq<MountView>,
    table: Seq<char>,
    mounted: Seq<MountView>,
    unmounted: Seq<MountView>,
    current: Seq<MountView>,
)
    requires
        observe_step(known, table) == (Observation::Changed { mounted, unmounted, current }),
    ensures
        observe_step(decision_step(
            StateView { known, coalescing: false, pending: Some(current) },
            false,
        ).known, table) is NoChange,
{
    crate::diff::lemma_self_diff_empty(current);
}

/// The state after a run of wake-ups, each taken by `trigger_step`.
pub open spec fn run_triggers(s: StateView, ts: Seq<bool>) -> StateView
    decreases ts.len(),
{
    if ts.len() == 0 {
        s
    } else {
        run_triggers(trigger_step(s, ts[0]).0, ts.drop_first())
    }
}

/// The coalescing window: any number of mount-table wake-ups while the
/// window is open leave the state untouched, so the one event observed when
/// the window's timer fires is the diff between the baseline before the
/// window and the table as it stands after the last change, however many
/// changes the window absorbed; and that one read is marked coalesced.
pub proof fn lemma_coalescing_window(s: StateView, ts: Seq<bool>, table: Seq<char>)
    requires
        s.coalescing,
        forall|i: int| 0 <= i < ts.len() ==> !ts[i],
    ensures
        run_triggers(s, ts) == s,
        trigger_step(run_triggers(s, ts), true).1 == (TriggerAction::ReadTable {
            coalesced: true,
        }),
        observe_step(trigger_step(run_triggers(s, ts), true).0.known, table) == observe_step(
            s.known,
            table,
        ),
    decreases ts.len(),
{
    if ts.len() > 0 {
        assert(trigger_step(s, ts[0]).0 == s);
        assert(forall|i: int| 0 <= i < ts.drop_first().len() ==> !ts.drop_first()[i]);
        lemma_coalescing_window(s, ts.drop_first(), table);
    }
}

/// Why setting up the watch failed.
#[derive(Debug)]
pub enum SetupFailure {
    /// The mount table could not be opened, read, or parsed.
    Read(ReadError),
    /// The readiness-notification mechanism could not be created.
    PollInit,
    /// A descriptor could not be registered for readiness notification.
    Register,
}

/// Error in the setup of the watch, before its loop ever ran.
#[derive(Debug)]
pub struct SetupError {
    /// What failed.
    pub failure: SetupFailure,
}

/// The description of a setup failure.
pub open spec fn setup_text(f: SetupFailure) -> Seq<char> {
    match f {
        SetupFailure::Read(_) => "failed to read the mount table"@,
        SetupFailure::PollInit => "failed to initialize polling"@,
        SetupFailure::Register => "failed to register a descriptor for polling"@,
    }
}

impl SetupError {
    /// The error, described for a reader.
    pub fn message(&self) -> (r: String)
        ensures
            r@ == setup_text(self.failure),
    {
        match &self.failure {
            SetupFailure::Read(_) => String::from_str("failed to read the mount table"),
            SetupFailure::PollInit => String::from_str("failed to initialize polling"),
            SetupFailure::Register => String::from_str(
                "failed to register a descriptor for polling",
            ),
        }
    }
}

/// Decides whether the loop takes another turn: it stops when the handler
/// said to stop or when a stop was requested from outside.
pub fn should_keep_running(control: &WatchControl, stop_requested: bool) -> (r: bool)
    ensures
        r == (!stop_requested && !(*control is Stop)),
{
    match control {
        WatchControl::Stop => false,
        _ => !stop_requested,
    }
}

} // verus!
