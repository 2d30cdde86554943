//! Verified core of a process running-time tracker.
//!
//! Snapshots of the machine's process state arrive as plain
//! `RawObservation` values. A relevance filter drops records the user does
//! not care about, a name normalizer turns executable identifiers into
//! display labels, an aggregator merges duplicate records of one snapshot,
//! and a ledger accrues cumulative running time per identity across poll
//! cycles, tolerating gaps and restarts.

pub mod aggregate;
pub mod config;
pub mod cycle;
pub mod errors;
pub mod filter;
pub mod format;
pub mod ledger;
pub mod model;
pub mod normalize;
pub mod provider;
pub mod text;

use vstd::prelude::*;

verus! {

/// The widest polling interval the configuration accepts, in seconds.
pub const MAX_POLLING_INTERVAL_SECS: u64 = 3600;

/// The narrowest polling interval the configuration accepts, in seconds.
pub const MIN_POLLING_INTERVAL_SECS: u64 = 1;

} // verus!
