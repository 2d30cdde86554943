//! The data model: raw observations, aggregated processes and ledger
//! entries, each with a mathematical view.

use vstd::prelude::*;

verus! {

/// One raw process record, as handed over by the snapshot provider.
/// Ephemeral: produced fresh each poll cycle, never persisted directly.
pub struct RawObservation {
    /// The process name; the grouping key for aggregation and accrual.
    pub identity: String,
    /// Path of the executable.
    pub path: String,
    /// Whether the operating system reports the process as running.
    pub is_running: bool,
    /// Run time since process start as reported by the OS, in seconds.
    pub run_time_seconds: u64,
}

/// Mathematical image of a [`RawObservation`].
pub struct ObservationView {
    pub identity: Seq<char>,
    pub path: Seq<char>,
    pub is_running: bool,
    pub run_time_seconds: int,
}

impl View for RawObservation {
    type V = ObservationView;

    open spec fn view(&self) -> ObservationView {
        ObservationView {
            identity: self.identity@,
            path: self.path@,
            is_running: self.is_running,
            run_time_seconds: self.run_time_seconds as int,
        }
    }
}

impl Clone for RawObservation {
    fn clone(&self) -> (r: Self)
        ensures
            r == *self,
    {
        RawObservation {
            identity: self.identity.clone(),
            path: self.path.clone(),
            is_running: self.is_running,
            run_time_seconds: self.run_time_seconds,
        }
    }
}

/// One logical process per distinct identity within one poll cycle.
/// Constructed fresh each cycle and folded into the ledger, never retained.
pub struct AggregatedProcess {
    /// The grouping key shared by all merged observations.
    pub identity: String,
    /// Human-readable label derived from the identity.
    pub display_name: String,
    /// Executable path of the first observation seen for this identity.
    pub path: String,
    /// How many observations shared this identity in the cycle.
    pub instance_count: u32,
    /// The largest run time any of them reported, in seconds.
    pub max_observed_run_time: u64,
}

/// Mathematical image of an [`AggregatedProcess`].
pub struct AggregatedView {
    pub identity: Seq<char>,
    pub display_name: Seq<char>,
    pub path: Seq<char>,
    pub instance_count: int,
    pub max_observed_run_time: int,
}

impl View for AggregatedProcess {
    type V = AggregatedView;

    open spec fn view(&self) -> AggregatedView {
        AggregatedView {
            identity: self.identity@,
            display_name: self.display_name@,
            path: self.path@,
            instance_count: self.instance_count as int,
            max_observed_run_time: self.max_observed_run_time as int,
        }
    }
}

/// One persisted row of the running-time ledger.
pub struct LedgerEntry {
    /// The identity this entry accrues time for; unique within a ledger.
    pub identity: String,
    /// Executable path recorded when the identity was first seen.
    pub path: String,
    /// Total accrued running time, in seconds; never decreases.
    pub cumulative_run_time_seconds: u64,
    /// Seconds since the epoch of the most recent accrual write.
    pub last_updated_at: u64,
}

/// Mathematical image of a [`LedgerEntry`].
pub struct EntryView {
    pub identity: Seq<char>,
    pub path: Seq<char>,
    pub cumulative_run_time_seconds: int,
    pub last_updated_at: int,
}

impl View for LedgerEntry {
    type V = EntryView;

    open spec fn view(&self) -> EntryView {
        EntryView {
            identity: self.identity@,
            path: self.path@,
            cumulative_run_time_seconds: self.cumulative_run_time_seconds as int,
            last_updated_at: self.last_updated_at as int,
        }
    }
}

impl Clone for LedgerEntry {
    fn clone(&self) -> (r: Self)
        ensures
            r == *self,
    {
        LedgerEntry {
            identity: self.identity.clone(),
            path: self.path.clone(),
            cumulative_run_time_seconds: self.cumulative_run_time_seconds,
            last_updated_at: self.last_updated_at,
        }
    }
}

/// The views of a sequence of observations, element for element.
pub open spec fn obs_views(s: Seq<RawObservation>) -> Seq<ObservationView> {
    s.map_values(|o: RawObservation| o@)
}

/// The views of a sequence of aggregated processes, element for element.
pub open spec fn agg_views(s: Seq<AggregatedProcess>) -> Seq<AggregatedView> {
    s.map_values(|a: AggregatedProcess| a@)
}

} // verus!
