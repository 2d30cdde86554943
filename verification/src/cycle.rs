//! One poll cycle of the tracker's core: filter, aggregate, accrue.
//!
//! The snapshot provider and the persistent store stay outside; the cycle
//! takes the provider's outcome as a plain value and leaves persistence to
//! the caller, so a failed write discards the cycle's results and the next
//! cycle retries independently.

use vstd::prelude::*;

use crate::aggregate::{aggregate, aggregate_spec, lemma_aggregate_spec_props};
use crate::config::Config;
use crate::errors::TrackerError;
use crate::filter::{filter_observations, relevant_of, relevant_pred, str_views};
use crate::ledger::{distinct_snapshot, update_ready, update_spec, Ledger};
use crate::model::{agg_views, obs_views, AggregatedProcess, AggregatedView, RawObservation};

verus! {

/// The aggregated snapshot one cycle folds into the ledger: the relevant
/// observations, merged by identity.
pub open spec fn cycle_snapshot(obs: Seq<RawObservation>, config: Config) -> Seq<AggregatedView> {
    aggregate_spec(
        obs_views(
            relevant_of(obs, str_views(config.blocked_names@), str_views(config.blocked_prefixes@)),
        ),
    )
}

/// Runs one poll cycle: filters the snapshot, aggregates it, and folds it
/// into the ledger. A missing snapshot is a recoverable
/// [`TrackerError::ProviderUnavailable`]: the ledger is left unchanged and
/// the next interval retries.
pub fn run_cycle(
    ledger: &mut Ledger,
    snapshot: Option<Vec<RawObservation>>,
    now: u64,
    config: &Config,
) -> (r: Result<Vec<AggregatedProcess>, TrackerError>)
    requires
        old(ledger).wf(),
        config.wf(),
        update_ready(old(ledger)@, now as int, config.polling_interval_secs as int),
        snapshot matches Some(obs) ==> obs@.len() <= u32::MAX,
    ensures
        snapshot is None ==> final(ledger)@ == old(ledger)@ && r == Err::<
            Vec<AggregatedProcess>,
            TrackerError,
        >(TrackerError::ProviderUnavailable),
        snapshot matches Some(obs) ==> {
            let snap = cycle_snapshot(obs@, *config);
            &&& r matches Ok(a) && agg_views(a@) == snap
            &&& final(ledger)@ == update_spec(
                old(ledger)@,
                snap,
                now as int,
                config.polling_interval_secs as int,
            )
        },
        final(ledger).wf(),
{
    match snapshot {
        None => Err(TrackerError::ProviderUnavailable),
        Some(obs) => {
            let relevant = filter_observations(
                &obs,
                &config.blocked_names,
                &config.blocked_prefixes,
            );
            proof {
                obs@.lemma_filter_len(
                    relevant_pred(
                        str_views(config.blocked_names@),
                        str_views(config.blocked_prefixes@),
                    ),
                );
            }
            let agg = aggregate(&relevant);
            proof {
                assert(forall|k: int|
                    0 <= k < obs_views(relevant@).len() ==> (#[trigger] obs_views(relevant@)[
                        k
                    ]).run_time_seconds >= 0) by {
                    assert(forall|k: int|
                        0 <= k < relevant@.len() ==> (#[trigger] obs_views(relevant@)[k])
                            == relevant@[k]@);
                }
                lemma_aggregate_spec_props(obs_views(relevant@));
                assert(distinct_snapshot(agg_views(agg@)));
            }
            ledger.update(&agg, now, config.polling_interval_secs);
            Ok(agg)
        },
    }
}

} // verus!
