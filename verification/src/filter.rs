//! The relevance filter: drops observations that are not user-relevant.
//!
//! A record is dropped when its path is empty, when the process is not
//! running, when its name matches a blocked name exactly, or when its path
//! starts with a blocked prefix. Both exclusion sets are supplied by the
//! configuration, not hard-coded here.

use vstd::prelude::*;

use crate::model::{ObservationView, RawObservation};
use crate::text::{is_char_prefix, str_chars};

verus! {

/// The views of a list of strings, element for element.
pub open spec fn str_views(s: Seq<String>) -> Seq<Seq<char>> {
    s.map_values(|t: String| t@)
}

/// Whether one observation survives the relevance filter, given the
/// exact-name block-list and the blocked path prefixes.
pub open spec fn is_relevant(
    o: ObservationView,
    blocked_names: Seq<Seq<char>>,
    blocked_prefixes: Seq<Seq<char>>,
) -> bool {
    &&& o.path.len() > 0
    &&& o.is_running
    &&& !blocked_names.contains(o.identity)
    &&& forall|i: int|
        0 <= i < blocked_prefixes.len() ==> !(#[trigger] blocked_prefixes[i]).is_prefix_of(o.path)
}

/// [`is_relevant`] as a predicate on observations, with the exclusion sets
/// fixed.
pub open spec fn relevant_pred(
    blocked_names: Seq<Seq<char>>,
    blocked_prefixes: Seq<Seq<char>>,
) -> spec_fn(RawObservation) -> bool {
    |o: RawObservation| is_relevant(o@, blocked_names, blocked_prefixes)
}

/// The relevant observations of a snapshot, in order of appearance.
pub open spec fn relevant_of(
    s: Seq<RawObservation>,
    blocked_names: Seq<Seq<char>>,
    blocked_prefixes: Seq<Seq<char>>,
) -> Seq<RawObservation> {
    s.filter(relevant_pred(blocked_names, blocked_prefixes))
}

/// Whether the observation survives the relevance filter.
pub fn is_relevant_process(
    obs: &RawObservation,
    blocked_names: &Vec<String>,
    blocked_prefixes: &Vec<String>,
) -> (r: bool)
    ensures
        r == is_relevant(obs@, str_views(blocked_names@), str_views(blocked_prefixes@)),
{
    if obs.path.as_str().is_empty() {
        return false;
    }
    if !obs.is_running {
        return false;
    }
    let mut i: usize = 0;
    while i < blocked_names.len()
        invariant
            i <= blocked_names@.len(),
            forall|j: int| 0 <= j < i ==> #[trigger] blocked_names@[j]@ != obs.identity@,
        decreases blocked_names@.len() - i,
    {
        if obs.identity == blocked_names[i] {
            assert(str_views(blocked_names@)[i as int] == obs@.identity);
            return false;
        }
        i = i + 1;
    }
    assert(!str_views(blocked_names@).contains(obs@.identity)) by {
        assert(forall|j: int|
            0 <= j < blocked_names@.len() ==> #[trigger] str_views(blocked_names@)[j]
                != obs@.identity);
    }
    let path_chars = str_chars(&obs.path);
    let mut k: usize = 0;
    while k < blocked_prefixes.len()
        invariant
            k <= blocked_prefixes@.len(),
            path_chars@ == obs@.path,
            forall|j: int|
                0 <= j < k ==> !(#[trigger] blocked_prefixes@[j])@.is_prefix_of(obs@.path),
        decreases blocked_prefixes@.len() - k,
    {
        let pref_chars = str_chars(&blocked_prefixes[k]);
        if is_char_prefix(&pref_chars, &path_chars) {
            assert(str_views(blocked_prefixes@)[k as int].is_prefix_of(obs@.path));
            return false;
        }
        k = k + 1;
    }
    assert(forall|j: int|
        0 <= j < blocked_prefixes@.len() ==> !(#[trigger] str_views(blocked_prefixes@)[j]).is_prefix_of(
            obs@.path,
        ));
    true
}

/// The snapshot with every irrelevant observation removed; order and
/// duplicates of the relevant ones are kept.
pub fn filter_observations(
    obs: &Vec<RawObservation>,
    blocked_names: &Vec<String>,
    blocked_prefixes: &Vec<String>,
) -> (r: Vec<RawObservation>)
    ensures
        r@ == relevant_of(obs@, str_views(blocked_names@), str_views(blocked_prefixes@)),
{
    let ghost nv = str_views(blocked_names@);
    let ghost pv = str_views(blocked_prefixes@);
    let mut out: Vec<RawObservation> = Vec::new();
    let mut i: usize = 0;
    while i < obs.len()
        invariant
            i <= obs@.len(),
            nv == str_views(blocked_names@),
            pv == str_views(blocked_prefixes@),
            out@ == relevant_of(obs@.take(i as int), nv, pv),
        decreases obs@.len() - i,
    {
        let o = &obs[i];
        let keep = is_relevant_process(o, blocked_names, blocked_prefixes);
        proof {
            assert(obs@.take(i as int + 1).drop_last() =~= obs@.take(i as int));
            assert(obs@.take(i as int + 1).last() == obs@[i as int]);
        }
        if keep {
            out.push(o.clone());
        }
        proof {
            reveal(Seq::filter);
            assert(relevant_pred(nv, pv)(obs@[i as int]) == keep);
            assert(out@ == relevant_of(obs@.take(i as int + 1), nv, pv));
        }
        i = i + 1;
    }
    proof {
        assert(obs@.take(obs@.len() as int) =~= obs@);
    }
    out
}

/// Filtering is idempotent: every observation the filter keeps, it keeps
/// again, so applying the relevance filter twice yields the same snapshot
/// as applying it once.
pub proof fn lemma_filter_idempotent(
    s: Seq<RawObservation>,
    blocked_names: Seq<Seq<char>>,
    blocked_prefixes: Seq<Seq<char>>,
)
    ensures
        relevant_of(relevant_of(s, blocked_names, blocked_prefixes), blocked_names, blocked_prefixes)
            == relevant_of(s, blocked_names, blocked_prefixes),
{
    let pred = relevant_pred(blocked_names, blocked_prefixes);
    let once = s.filter(pred);
    assert forall|i: int| 0 <= i < once.len() implies pred(#[trigger] once[i]) by {
        s.lemma_filter_pred(pred, i);
    }
    lemma_filter_all_retained(once, pred);
}

/// A sequence whose members all satisfy the predicate is unchanged by
/// filtering with it.
proof fn lemma_filter_all_retained<A>(s: Seq<A>, pred: spec_fn(A) -> bool)
    requires
        forall|i: int| 0 <= i < s.len() ==> pred(#[trigger] s[i]),
    ensures
        s.filter(pred) == s,
    decreases s.len(),
{
    reveal(Seq::filter);
    if s.len() == 0 {
        assert(s.filter(pred) =~= s);
    } else {
        lemma_filter_all_retained(s.drop_last(), pred);
        assert(s.filter(pred) =~= s);
    }
}

} // verus!
