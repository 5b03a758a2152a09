use std::time::Duration;

use mount_watcher::callback::{coalesce, CoalesceInitial};
use mount_watcher::diff::{contains_mount, dedup_mounts, diff_mounts};
use mount_watcher::mount::{parse_proc_mounts, LinuxMount, ReadError};
use mount_watcher::watch::{
    should_keep_running, SetupError, SetupFailure, TriggerAction, WatchState,
};
use mount_watcher::{MountEvent, WatchControl};

const TABLE_THREE: &str = "\
sysfs /sys sysfs rw,nosuid 0 0
proc /proc proc rw,relatime 0 0
tmpfs /run tmpfs rw,size=1599352k 0 0";

const TABLE_TWO: &str = "\
sysfs /sys sysfs rw,nosuid 0 0
proc /proc proc rw,relatime 0 0";

fn parse(content: &str) -> Vec<LinuxMount> {
    let mut v = Vec::new();
    parse_proc_mounts(content, &mut v).unwrap();
    v
}

#[test]
fn initial_event_lists_all_mounts() {
    let mut state = WatchState::new();
    let event = state.observe(TABLE_THREE, false, true).unwrap().unwrap();
    assert!(event.initial);
    assert!(!event.coalesced);
    assert_eq!(event.mounted, parse(TABLE_THREE));
    assert!(event.unmounted.is_empty());
}

#[test]
fn removed_entry_is_reported_alone() {
    let mut state = WatchState::new();
    state.observe(TABLE_THREE, false, true).unwrap().unwrap();
    state.apply_decision(&WatchControl::Continue);
    let event = state.observe(TABLE_TWO, false, false).unwrap().unwrap();
    assert!(event.mounted.is_empty());
    assert_eq!(event.unmounted, vec![parse(TABLE_THREE)[2].clone()]);
    assert!(!event.coalesced);
    assert!(!event.initial);
}

#[test]
fn unchanged_table_yields_no_second_event() {
    let mut state = WatchState::new();
    let event = state.observe(TABLE_THREE, false, true).unwrap();
    assert!(event.is_some());
    state.apply_decision(&WatchControl::Continue);
    // The notification was spurious: the table did not change.
    let second = state.observe(TABLE_THREE, false, false).unwrap();
    assert!(second.is_none());
}

#[test]
fn coalescing_window_summarizes_all_changes() {
    let mut state = WatchState::new();
    state.observe(TABLE_TWO, false, true).unwrap().unwrap();
    state.apply_decision(&WatchControl::Continue);

    // A change arrives and the handler asks to coalesce.
    let event = state.observe(TABLE_THREE, false, false).unwrap().unwrap();
    assert_eq!(event.mounted, vec![parse(TABLE_THREE)[2].clone()]);
    state.apply_decision(&WatchControl::Coalesce { delay: Duration::from_secs(5) });

    // Two further raw changes inside the window are absorbed without a read.
    assert_eq!(state.on_trigger(false), TriggerAction::Suppress);
    assert_eq!(state.on_trigger(false), TriggerAction::Suppress);

    // The timer fires: one read, marked coalesced, diffed against the
    // baseline from before the window.
    assert_eq!(state.on_trigger(true), TriggerAction::ReadTable { coalesced: true });
    let final_table = "\
proc /proc proc rw,relatime 0 0
tmpfs /run tmpfs rw,size=1599352k 0 0";
    let event = state.observe(final_table, true, false).unwrap().unwrap();
    assert!(event.coalesced);
    assert_eq!(event.mounted, vec![parse(TABLE_THREE)[2].clone()]);
    assert_eq!(event.unmounted, vec![parse(TABLE_THREE)[0].clone()]);
    state.apply_decision(&WatchControl::Continue);

    // After the window, the delivered set is the new baseline.
    assert!(state.observe(final_table, false, false).unwrap().is_none());
}

#[test]
fn idle_trigger_reads_uncoalesced() {
    let mut state = WatchState::new();
    assert_eq!(state.on_trigger(false), TriggerAction::ReadTable { coalesced: false });
}

#[test]
fn parse_error_surfaces_from_observe() {
    let mut state = WatchState::new();
    let err = state.observe("bad line", false, true).unwrap_err();
    assert_eq!(err.input, "bad line");
}

#[test]
fn duplicate_lines_count_once() {
    let mut state = WatchState::new();
    let table = "\
proc /proc proc rw 0 0
proc /proc proc rw 0 0";
    let event = state.observe(table, false, true).unwrap().unwrap();
    assert_eq!(event.mounted.len(), 1);
}

#[test]
fn diff_partitions_concrete() {
    let a = parse(TABLE_THREE);
    let b = parse(TABLE_TWO);
    let (added, removed) = diff_mounts(&a, &b);
    assert!(added.is_empty());
    assert_eq!(removed, vec![a[2].clone()]);
    let (added, removed) = diff_mounts(&b, &a);
    assert_eq!(added, vec![a[2].clone()]);
    assert!(removed.is_empty());
    let (added, removed) = diff_mounts(&a, &a);
    assert!(added.is_empty());
    assert!(removed.is_empty());
}

#[test]
fn dedup_and_contains_concrete() {
    let mut doubled = parse(TABLE_TWO);
    doubled.extend(parse(TABLE_TWO));
    let deduped = dedup_mounts(&doubled);
    assert_eq!(deduped, parse(TABLE_TWO));
    assert!(contains_mount(&deduped, &doubled[0]));
    assert!(!contains_mount(&deduped, &parse(TABLE_THREE)[2]));
}

#[test]
fn loop_stops_on_stop_decision_or_request() {
    assert!(should_keep_running(&WatchControl::Continue, false));
    assert!(!should_keep_running(&WatchControl::Stop, false));
    assert!(!should_keep_running(&WatchControl::Continue, true));
    assert!(!should_keep_running(&WatchControl::Coalesce { delay: Duration::from_secs(1) }, true));
}

#[test]
fn coalesce_policy_decisions() {
    let delay = Duration::from_secs(5);
    let event = |coalesced: bool, initial: bool| MountEvent {
        mounted: Vec::new(),
        unmounted: Vec::new(),
        coalesced,
        initial,
    };
    // A fresh event opens a window under either policy.
    for policy in [CoalesceInitial::Coalesce, CoalesceInitial::PassImmediately] {
        match coalesce(delay, &policy, &event(false, false)) {
            Some(WatchControl::Coalesce { delay: d }) => assert_eq!(d, delay),
            _ => panic!("expected a coalescing decision"),
        }
        // A coalesced event is always for the user's callback.
        assert!(coalesce(delay, &policy, &event(true, false)).is_none());
    }
    // The initial event is coalesced or passed through, by policy.
    assert!(coalesce(delay, &CoalesceInitial::Coalesce, &event(false, true)).is_some());
    assert!(coalesce(delay, &CoalesceInitial::PassImmediately, &event(false, true)).is_none());
}

#[test]
fn error_messages_describe_the_failure() {
    let e = SetupError { failure: SetupFailure::PollInit };
    assert_eq!(e.message(), "failed to initialize polling");
    let e = SetupError { failure: SetupFailure::Read(ReadError::Io) };
    assert_eq!(e.message(), "failed to read the mount table");
    let e = SetupError { failure: SetupFailure::Register };
    assert_eq!(e.message(), "failed to register a descriptor for polling");
}
