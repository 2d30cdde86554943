//! The snapshot aggregator: merges duplicate observations of one poll
//! cycle into one logical entry per distinct identity.
//!
//! For each group sharing an identity the instance count is the size of
//! the group, the run time is the largest one reported, and the path is
//! the one of the first observation seen (should paths diverge within a
//! group, the first-seen one wins; whether diverging paths should instead
//! split the identity is an open product question, not resolved here).

use vstd::prelude::*;

use crate::model::{
    agg_views, obs_views, AggregatedProcess, AggregatedView, ObservationView, RawObservation,
};
use crate::normalize::{normalize, normalize_spec};

verus! {

/// How many observations of the snapshot carry this identity.
pub open spec fn count_of(s: Seq<ObservationView>, id: Seq<char>) -> int
    decreases s.len(),
{
    if s.len() == 0 {
        0
    } else {
        count_of(s.drop_last(), id) + if s.last().identity == id {
            1int
        } else {
            0int
        }
    }
}

/// The largest run time reported by any observation carrying this
/// identity; zero when there is none.
pub open spec fn max_run_time_of(s: Seq<ObservationView>, id: Seq<char>) -> int
    decreases s.len(),
{
    if s.len() == 0 {
        0
    } else {
        let m = max_run_time_of(s.drop_last(), id);
        if s.last().identity == id && s.last().run_time_seconds > m {
            s.last().run_time_seconds
        } else {
            m
        }
    }
}

/// The path of the first observation carrying this identity; empty when
/// there is none.
pub open spec fn first_path_of(s: Seq<ObservationView>, id: Seq<char>) -> Seq<char>
    decreases s.len(),
{
    if s.len() == 0 {
        Seq::empty()
    } else if s.last().identity == id && count_of(s.drop_last(), id) == 0 {
        s.last().path
    } else {
        first_path_of(s.drop_last(), id)
    }
}

/// Whether some aggregated entry carries this identity.
pub open spec fn agg_has(a: Seq<AggregatedView>, id: Seq<char>) -> bool {
    exists|i: int| 0 <= i < a.len() && a[i].identity == id
}

/// The index of the first aggregated entry carrying this identity; the
/// length when there is none.
pub open spec fn agg_idx(a: Seq<AggregatedView>, id: Seq<char>) -> int
    decreases a.len(),
{
    if a.len() == 0 {
        0
    } else if a.first().identity == id {
        0
    } else {
        1 + agg_idx(a.drop_first(), id)
    }
}

/// The sum of the instance counts of the aggregated entries.
pub open spec fn sum_counts(a: Seq<AggregatedView>) -> int
    decreases a.len(),
{
    if a.len() == 0 {
        0
    } else {
        sum_counts(a.drop_last()) + a.last().instance_count
    }
}

/// What [`aggregate`] returns: observations folded left to right; one that
/// carries a known identity raises that entry's count and run-time
/// maximum, any other identity opens a new entry at the end.
pub open spec fn aggregate_spec(s: Seq<ObservationView>) -> Seq<AggregatedView>
    decreases s.len(),
{
    if s.len() == 0 {
        Seq::empty()
    } else {
        let acc = aggregate_spec(s.drop_last());
        let o = s.last();
        if agg_has(acc, o.identity) {
            let j = agg_idx(acc, o.identity);
            let e = acc[j];
            acc.update(
                j,
                AggregatedView {
                    identity: e.identity,
                    display_name: e.display_name,
                    path: e.path,
                    instance_count: e.instance_count + 1,
                    max_observed_run_time: if o.run_time_seconds > e.max_observed_run_time {
                        o.run_time_seconds
                    } else {
                        e.max_observed_run_time
                    },
                },
            )
        } else {
            acc.push(
                AggregatedView {
                    identity: o.identity,
                    display_name: normalize_spec(o.identity),
                    path: o.path,
                    instance_count: 1,
                    max_observed_run_time: o.run_time_seconds,
                },
            )
        }
    }
}

/// The count is never negative and never above the snapshot's length.
pub proof fn lemma_count_bounds(s: Seq<ObservationView>, id: Seq<char>)
    ensures
        0 <= count_of(s, id) <= s.len(),
    decreases s.len(),
{
    if s.len() > 0 {
        lemma_count_bounds(s.drop_last(), id);
    }
}

/// The count is positive exactly when some observation carries the
/// identity.
pub proof fn lemma_count_pos(s: Seq<ObservationView>, id: Seq<char>)
    ensures
        count_of(s, id) > 0 <==> exists|k: int| 0 <= k < s.len() && s[k].identity == id,
    decreases s.len(),
{
    lemma_count_bounds(s, id);
    if s.len() > 0 {
        lemma_count_pos(s.drop_last(), id);
        lemma_count_bounds(s.drop_last(), id);
        if s.last().identity == id {
            assert(s[s.len() - 1].identity == id);
        } else if count_of(s.drop_last(), id) > 0 {
            let k = choose|k: int| 0 <= k < s.drop_last().len() && s.drop_last()[k].identity == id;
            assert(s[k].identity == id);
        } else if exists|k: int| 0 <= k < s.len() && s[k].identity == id {
            let k = choose|k: int| 0 <= k < s.len() && s[k].identity == id;
            assert(s.drop_last()[k].identity == id);
        }
    }
}

/// Where nothing carries the identity, the run-time maximum is zero.
pub proof fn lemma_count_zero_max(s: Seq<ObservationView>, id: Seq<char>)
    requires
        count_of(s, id) == 0,
    ensures
        max_run_time_of(s, id) == 0,
    decreases s.len(),
{
    if s.len() > 0 {
        lemma_count_bounds(s.drop_last(), id);
        lemma_count_zero_max(s.drop_last(), id);
    }
}

/// Replacing one entry changes the sum by the difference of the counts.
proof fn lemma_sum_update(a: Seq<AggregatedView>, j: int, e: AggregatedView)
    requires
        0 <= j < a.len(),
    ensures
        sum_counts(a.update(j, e)) == sum_counts(a) - a[j].instance_count + e.instance_count,
    decreases a.len(),
{
    if j == a.len() - 1 {
        assert(a.update(j, e).drop_last() =~= a.drop_last());
        assert(a.update(j, e).last() == e);
    } else {
        assert(a.update(j, e).drop_last() =~= a.drop_last().update(j, e));
        assert(a.update(j, e).last() == a.last());
        lemma_sum_update(a.drop_last(), j, e);
    }
}

/// Where the identity occurs, its first occurrence is a proper index that
/// carries it, and nothing before it does; where it does not, the index is
/// the length.
pub proof fn lemma_agg_idx(a: Seq<AggregatedView>, id: Seq<char>)
    ensures
        agg_has(a, id) ==> {
            let j = agg_idx(a, id);
            &&& 0 <= j < a.len()
            &&& a[j].identity == id
            &&& forall|k: int| 0 <= k < j ==> a[k].identity != id
        },
        !agg_has(a, id) ==> agg_idx(a, id) == a.len(),
    decreases a.len(),
{
    if a.len() > 0 {
        lemma_agg_idx(a.drop_first(), id);
        if a.first().identity == id {
            assert(agg_idx(a, id) == 0);
            assert(a[0].identity == id);
        } else {
            assert(agg_idx(a, id) == 1 + agg_idx(a.drop_first(), id));
            assert(a[0].identity != id);
            assert(agg_has(a, id) ==> agg_has(a.drop_first(), id)) by {
                if agg_has(a, id) {
                    let i = choose|i: int| 0 <= i < a.len() && a[i].identity == id;
                    assert(a.drop_first()[i - 1].identity == id);
                }
            }
            assert(agg_has(a.drop_first(), id) ==> agg_has(a, id)) by {
                if agg_has(a.drop_first(), id) {
                    let i = choose|i: int|
                        0 <= i < a.drop_first().len() && a.drop_first()[i].identity == id;
                    assert(a[i + 1].identity == id);
                }
            }
            assert(forall|k: int|
                1 <= k < a.len() ==> #[trigger] a[k] == a.drop_first()[k - 1]);
        }
    }
}

/// The laws of aggregation. With `a` for the aggregated snapshot:
/// identities are pairwise distinct and cover exactly the observed ones;
/// each entry's count is the number of observations carrying its identity,
/// at least one; its run time is the group's maximum; its path is the
/// first-seen one; its display name is the normalized identity; and the
/// counts sum to the number of observations.
pub proof fn lemma_aggregate_spec_props(s: Seq<ObservationView>)
    requires
        forall|k: int| 0 <= k < s.len() ==> (#[trigger] s[k]).run_time_seconds >= 0,
    ensures
        ({
            let a = aggregate_spec(s);
            &&& a.len() <= s.len()
            &&& forall|i: int, j: int|
                0 <= i < j < a.len() ==> (#[trigger] a[i]).identity != (#[trigger] a[j]).identity
            &&& forall|k: int|
                0 <= k < s.len() ==> agg_has(a, (#[trigger] s[k]).identity)
            &&& forall|i: int|
                0 <= i < a.len() ==> (#[trigger] a[i]).instance_count == count_of(s, a[i].identity)
            &&& forall|i: int| 0 <= i < a.len() ==> (#[trigger] a[i]).instance_count >= 1
            &&& forall|i: int|
                0 <= i < a.len() ==> (#[trigger] a[i]).max_observed_run_time == max_run_time_of(
                    s,
                    a[i].identity,
                )
            &&& forall|i: int|
                0 <= i < a.len() ==> (#[trigger] a[i]).path == first_path_of(s, a[i].identity)
            &&& forall|i: int|
                0 <= i < a.len() ==> (#[trigger] a[i]).display_name == normalize_spec(
                    a[i].identity,
                )
            &&& sum_counts(a) == s.len()
        }),
    decreases s.len(),
{
    if s.len() > 0 {
        let rest = s.drop_last();
        let o = s.last();
        lemma_aggregate_spec_props(rest);
        let acc = aggregate_spec(rest);
        let a = aggregate_spec(s);
        assert(forall|k: int| 0 <= k < rest.len() ==> rest[k] == #[trigger] s[k]);
        lemma_count_pos(rest, o.identity);
        if agg_has(acc, o.identity) {
            let j = agg_idx(acc, o.identity);
            lemma_agg_idx(acc, o.identity);
            lemma_sum_update(acc, j, a[j]);
            assert(count_of(rest, o.identity) > 0) by {
                assert(acc[j].instance_count == count_of(rest, o.identity));
            }
            assert(forall|i: int|
                0 <= i < a.len() && i != j ==> a[i] == (#[trigger] acc[i]));
            assert(forall|k: int|
                0 <= k < s.len() ==> agg_has(a, (#[trigger] s[k]).identity)) by {
                assert forall|k: int| 0 <= k < s.len() implies agg_has(
                    a,
                    (#[trigger] s[k]).identity,
                ) by {
                    if k < s.len() - 1 {
                        assert(agg_has(acc, s[k].identity));
                        let i = choose|i: int|
                            0 <= i < acc.len() && acc[i].identity == s[k].identity;
                        assert(a[i].identity == s[k].identity);
                    } else {
                        assert(a[j].identity == o.identity);
                    }
                }
            }
        } else {
            assert(count_of(rest, o.identity) == 0) by {
                lemma_count_bounds(rest, o.identity);
                if count_of(rest, o.identity) > 0 {
                    let k = choose|k: int|
                        0 <= k < rest.len() && rest[k].identity == o.identity;
                    assert(agg_has(acc, (#[trigger] rest[k]).identity));
                }
            }
            lemma_count_zero_max(rest, o.identity);
            assert(a == acc.push(
                AggregatedView {
                    identity: o.identity,
                    display_name: normalize_spec(o.identity),
                    path: o.path,
                    instance_count: 1,
                    max_observed_run_time: o.run_time_seconds,
                },
            ));
            assert(a.drop_last() =~= acc);
            assert(forall|i: int| 0 <= i < acc.len() ==> a[i] == (#[trigger] acc[i]));
            assert(forall|k: int|
                0 <= k < s.len() ==> agg_has(a, (#[trigger] s[k]).identity)) by {
                assert forall|k: int| 0 <= k < s.len() implies agg_has(
                    a,
                    (#[trigger] s[k]).identity,
                ) by {
                    if k < s.len() - 1 {
                        assert(agg_has(acc, s[k].identity));
                        let i = choose|i: int|
                            0 <= i < acc.len() && acc[i].identity == s[k].identity;
                        assert(a[i].identity == s[k].identity);
                    } else {
                        assert(a[a.len() - 1].identity == o.identity);
                    }
                }
            }
            assert(o.run_time_seconds >= 0) by {
                assert(s[s.len() - 1].run_time_seconds >= 0);
            }
        }
    }
}

/// The position of the first aggregated entry carrying the identity, if
/// any entry does.
fn find_identity(out: &Vec<AggregatedProcess>, id: &String) -> (r: Option<usize>)
    ensures
        match r {
            Some(j) => j < out@.len() && agg_views(out@)[j as int].identity == id@ && forall|
                k: int,
            | 0 <= k < j ==> agg_views(out@)[k].identity != id@,
            None => forall|k: int|
                0 <= k < out@.len() ==> agg_views(out@)[k].identity != id@,
        },
{
    let mut j: usize = 0;
    while j < out.len()
        invariant
            j <= out@.len(),
            forall|k: int| 0 <= k < j ==> agg_views(out@)[k].identity != id@,
        decreases out@.len() - j,
    {
        if out[j].identity == *id {
            return Some(j);
        }
        j = j + 1;
    }
    None
}

/// Merges the snapshot's observations into one entry per distinct
/// identity, counting instances, keeping the largest reported run time and
/// the first-seen path, and labelling each entry with its normalized
/// identity. The instance counts over the output sum to the number of
/// input observations.
pub fn aggregate(obs: &Vec<RawObservation>) -> (r: Vec<AggregatedProcess>)
    requires
        obs@.len() <= u32::MAX,
    ensures
        agg_views(r@) == aggregate_spec(obs_views(obs@)),
        sum_counts(agg_views(r@)) == obs@.len(),
{
    let ghost ov = obs_views(obs@);
    let mut out: Vec<AggregatedProcess> = Vec::new();
    let mut i: usize = 0;
    while i < obs.len()
        invariant
            i <= obs@.len(),
            obs@.len() <= u32::MAX,
            ov == obs_views(obs@),
            agg_views(out@) == aggregate_spec(ov.take(i as int)),
        decreases obs@.len() - i,
    {
        let o = &obs[i];
        proof {
            assert(ov.take(i as int + 1).drop_last() =~= ov.take(i as int));
            assert(ov.take(i as int + 1).last() == obs@[i as int]@);
        }
        let ghost prefix = ov.take(i as int);
        let ghost acc = aggregate_spec(prefix);
        let pos = find_identity(&out, &o.identity);
        proof {
            lemma_agg_idx(acc, obs@[i as int]@.identity);
            match pos {
                Some(j) => {
                    assert(agg_has(acc, obs@[i as int]@.identity));
                    assert(j as int == agg_idx(acc, obs@[i as int]@.identity)) by {
                        assert(acc[j as int].identity == obs@[i as int]@.identity);
                    }
                },
                None => {
                    assert(!agg_has(acc, obs@[i as int]@.identity));
                },
            }
        }
        if let Some(j) = pos {
            proof {
                lemma_aggregate_spec_props(prefix);
                assert(acc[j as int].instance_count == count_of(prefix, acc[j as int].identity));
                lemma_count_bounds(prefix, acc[j as int].identity);
            }
            let rt = o.run_time_seconds;
            let e = &mut out[j];
            e.instance_count = e.instance_count + 1;
            if e.max_observed_run_time < rt {
                e.max_observed_run_time = rt;
            }
            proof {
                assert(agg_views(out@) =~= aggregate_spec(ov.take(i as int + 1)));
            }
        } else {
            let entry = AggregatedProcess {
                identity: o.identity.clone(),
                display_name: normalize(o.identity.as_str()),
                path: o.path.clone(),
                instance_count: 1,
                max_observed_run_time: o.run_time_seconds,
            };
            out.push(entry);
            proof {
                assert(agg_views(out@) =~= aggregate_spec(ov.take(i as int + 1)));
            }
        }
        i = i + 1;
    }
    proof {
        assert(ov.take(obs@.len() as int) =~= ov);
        lemma_aggregate_spec_props(ov);
    }
    out
}

} // verus!
