//! Tracks which installed command-line executables are actually invoked, so
//! that unused binaries and the library packages only they depend on can be
//! identified for safe removal.
//!
//! The crate holds the verified core: the usage ledger (a state machine over
//! binary records, path aliases, dependency edges and cached package
//! resolutions), the monitor supervisor's restart/backoff logic, the
//! filesystem scanner's classification rules, and the orphan detector.
//! Process spawning, the on-disk store and terminal output live outside it.

#![verifier::loop_isolation(false)]

use vstd::prelude::*;

pub mod strutil;
pub mod ledger;
pub mod config;
pub mod scan;
pub mod monitor;
pub mod deps;
pub mod ui;
pub mod defaults;
pub mod distro;
pub mod linux;
pub mod macos;

verus! {

/// How many seconds the monitor supervisor waits before the first respawn
/// attempt.
pub const BACKOFF_INITIAL_SECS: u64 = 2;

/// Ceiling on the supervisor's respawn delay.
pub const BACKOFF_MAX_SECS: u64 = 60;

} // verus!
