//! Watch the table of mounted filesystems for changes.
//!
//! The verified core of a mount watcher: a parser for the mount-table text,
//! a differ that computes which mounts appeared and disappeared between two
//! reads, and the coalescing state machine that decides, on every wake-up of
//! the polling loop, whether to read the table, which event to hand to the
//! user's handler, and how to apply the handler's decision.
//!
//! The operating-system side (the pseudo-file holding the table, the
//! readiness notifications, the one-shot timer, the background thread) is
//! driven by an unverified shell around this crate; every decision that shell
//! takes is computed here.

pub mod callback;
pub mod diff;
pub mod mount;
pub mod watch;

pub use watch::{MountEvent, WatchControl};
