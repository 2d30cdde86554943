//! The running-time ledger: the accrual engine.
//!
//! Given the aggregated snapshot of one poll cycle and the prior persisted
//! state, it computes updated cumulative running time per identity. An
//! identity seen for the first time gets an entry with zero accrued time;
//! accrual begins on the next cycle that observes it. A reappearing
//! identity is credited with the time elapsed since its last update,
//! except that a gap longer than twice the polling interval is treated as
//! a restart and credited with exactly one polling interval. Entries whose
//! identity is absent from the snapshot are left untouched.

use vstd::prelude::*;

use crate::errors::TrackerError;
use crate::model::{agg_views, AggregatedProcess, AggregatedView, EntryView, LedgerEntry};
use crate::{MAX_POLLING_INTERVAL_SECS, MIN_POLLING_INTERVAL_SECS};

verus! {

/// The views of a list of ledger entries, element for element.
pub open spec fn entry_views(s: Seq<LedgerEntry>) -> Seq<EntryView> {
    s.map_values(|e: LedgerEntry| e@)
}

/// What chrono's `NaiveDateTime::parse_from_str` with the fixed format
/// `%Y-%m-%d %H:%M:%S`, followed by `timestamp`, yields on these
/// characters: seconds since the epoch, or nothing where the text is not a
/// timestamp in that format.
pub uninterp spec fn epoch_seconds_of(s: Seq<char>) -> Option<i64>;

/// Relies on chrono's `NaiveDateTime::parse_from_str` and on
/// `DateTime::timestamp`: parsing a naive timestamp and taking its epoch
/// seconds is a pure function of the characters alone.
#[verifier::external_body]
fn parse_datetime_epoch(s: &str) -> (r: Option<i64>)
    ensures
        r == epoch_seconds_of(s@),
{
    match chrono::NaiveDateTime::parse_from_str(s, "%Y-%m-%d %H:%M:%S") {
        Ok(dt) => Some(dt.and_utc().timestamp()),
        Err(_) => None,
    }
}

/// Reads a persisted timestamp. Anything unparseable, including a time
/// before the epoch, is a [`TrackerError::LedgerCorruption`]: malformed
/// persisted state is surfaced, never silently recovered.
pub fn parse_ledger_timestamp(s: &str) -> (r: Result<u64, TrackerError>)
    ensures
        r == match epoch_seconds_of(s@) {
            Some(t) => if t >= 0 {
                Ok::<u64, TrackerError>(t as u64)
            } else {
                Err::<u64, TrackerError>(TrackerError::LedgerCorruption)
            },
            None => Err::<u64, TrackerError>(TrackerError::LedgerCorruption),
        },
{
    match parse_datetime_epoch(s) {
        Some(t) => if t >= 0 {
            Ok(t as u64)
        } else {
            Err(TrackerError::LedgerCorruption)
        },
        None => Err(TrackerError::LedgerCorruption),
    }
}

/// Seconds between the last update and now; a last update in the future
/// counts as no elapsed time.
pub open spec fn elapsed_since(last_updated_at: int, now: int) -> int {
    if now >= last_updated_at {
        now - last_updated_at
    } else {
        0
    }
}

/// What one accrual adds: the full elapsed time, except that a gap longer
/// than twice the polling interval is credited with exactly one interval.
pub open spec fn accrual_increment(elapsed: int, interval: int) -> int {
    if elapsed > 2 * interval {
        interval
    } else {
        elapsed
    }
}

/// Whether some entry carries this identity.
pub open spec fn entry_has(l: Seq<EntryView>, id: Seq<char>) -> bool {
    exists|i: int| 0 <= i < l.len() && l[i].identity == id
}

/// The index of the first entry carrying this identity; the length when
/// there is none.
pub open spec fn entry_idx(l: Seq<EntryView>, id: Seq<char>) -> int
    decreases l.len(),
{
    if l.len() == 0 {
        0
    } else if l.first().identity == id {
        0
    } else {
        1 + entry_idx(l.drop_first(), id)
    }
}

/// The entry carrying this identity, if any does.
pub open spec fn entry_of(l: Seq<EntryView>, id: Seq<char>) -> Option<EntryView> {
    if entry_has(l, id) {
        Some(l[entry_idx(l, id)])
    } else {
        None
    }
}

/// The accrued total for this identity; zero where no entry exists.
pub open spec fn cumulative_of(l: Seq<EntryView>, id: Seq<char>) -> int {
    match entry_of(l, id) {
        Some(e) => e.cumulative_run_time_seconds,
        None => 0,
    }
}

/// Identities are pairwise distinct across the entries.
pub open spec fn distinct_identities(l: Seq<EntryView>) -> bool {
    forall|i: int, j: int|
        0 <= i < j < l.len() ==> (#[trigger] l[i]).identity != (#[trigger] l[j]).identity
}

/// What one accrual does to the ledger, and the total it reports. An
/// unseen identity gets a fresh entry with zero accrued time; a known one
/// is credited per [`accrual_increment`] and stamped with `now`.
pub open spec fn accrue_spec(
    l: Seq<EntryView>,
    id: Seq<char>,
    path: Seq<char>,
    now: int,
    interval: int,
) -> (Seq<EntryView>, int) {
    if !entry_has(l, id) {
        (
            l.push(
                EntryView {
                    identity: id,
                    path: path,
                    cumulative_run_time_seconds: 0,
                    last_updated_at: now,
                },
            ),
            0,
        )
    } else {
        let j = entry_idx(l, id);
        let e = l[j];
        let c = e.cumulative_run_time_seconds + accrual_increment(
            elapsed_since(e.last_updated_at, now),
            interval,
        );
        (
            l.update(
                j,
                EntryView {
                    identity: e.identity,
                    path: e.path,
                    cumulative_run_time_seconds: c,
                    last_updated_at: now,
                },
            ),
            c,
        )
    }
}

/// One cycle's accruals: the aggregated entries folded into the ledger
/// left to right.
pub open spec fn update_spec(
    l: Seq<EntryView>,
    snap: Seq<AggregatedView>,
    now: int,
    interval: int,
) -> Seq<EntryView>
    decreases snap.len(),
{
    if snap.len() == 0 {
        l
    } else {
        accrue_spec(
            update_spec(l, snap.drop_last(), now, interval),
            snap.last().identity,
            snap.last().path,
            now,
            interval,
        ).0
    }
}

/// Where the identity occurs, its first entry is a proper index that
/// carries it and nothing before it does; where it does not, the index is
/// the length.
pub proof fn lemma_entry_idx(l: Seq<EntryView>, id: Seq<char>)
    ensures
        entry_has(l, id) ==> {
            let j = entry_idx(l, id);
            &&& 0 <= j < l.len()
            &&& l[j].identity == id
            &&& forall|k: int| 0 <= k < j ==> l[k].identity != id
        },
        !entry_has(l, id) ==> entry_idx(l, id) == l.len(),
    decreases l.len(),
{
    if l.len() > 0 {
        lemma_entry_idx(l.drop_first(), id);
        if l.first().identity == id {
            assert(entry_idx(l, id) == 0);
            assert(l[0].identity == id);
        } else {
            assert(entry_idx(l, id) == 1 + entry_idx(l.drop_first(), id));
            assert(l[0].identity != id);
            assert(entry_has(l, id) ==> entry_has(l.drop_first(), id)) by {
                if entry_has(l, id) {
                    let i = choose|i: int| 0 <= i < l.len() && l[i].identity == id;
                    assert(l.drop_first()[i - 1].identity == id);
                }
            }
            assert(entry_has(l.drop_first(), id) ==> entry_has(l, id)) by {
                if entry_has(l.drop_first(), id) {
                    let i = choose|i: int|
                        0 <= i < l.drop_first().len() && l.drop_first()[i].identity == id;
                    assert(l[i + 1].identity == id);
                }
            }
            assert(forall|k: int|
                1 <= k < l.len() ==> #[trigger] l[k] == l.drop_first()[k - 1]);
        }
    }
}

/// How appending an entry shows up in lookups.
pub proof fn lemma_entry_of_push(l: Seq<EntryView>, e: EntryView, id: Seq<char>)
    ensures
        entry_has(l, id) ==> entry_of(l.push(e), id) == entry_of(l, id),
        !entry_has(l, id) && e.identity == id ==> entry_of(l.push(e), id) == Some(e),
        !entry_has(l, id) && e.identity != id ==> entry_of(l.push(e), id) == None::<EntryView>,
    decreases l.len(),
{
    lemma_entry_idx(l, id);
    lemma_entry_idx(l.push(e), id);
    if entry_has(l, id) {
        let j = entry_idx(l, id);
        assert(l.push(e)[j].identity == id);
        assert(entry_has(l.push(e), id));
        let j2 = entry_idx(l.push(e), id);
        assert(j2 == j) by {
            if j2 < j {
                assert(l[j2].identity == l.push(e)[j2].identity);
            }
            if j < j2 {
                assert(l.push(e)[j].identity == id);
            }
        }
        assert(l.push(e)[j] == l[j]);
    } else {
        if e.identity == id {
            assert(l.push(e)[l.len() as int].identity == id);
            assert(entry_has(l.push(e), id));
            let j2 = entry_idx(l.push(e), id);
            assert(j2 == l.len()) by {
                if j2 < l.len() {
                    assert(l[j2].identity == l.push(e)[j2].identity);
                    assert(l[j2].identity == id);
                }
            }
        } else {
            assert(!entry_has(l.push(e), id)) by {
                if entry_has(l.push(e), id) {
                    let i = choose|i: int|
                        0 <= i < l.push(e).len() && l.push(e)[i].identity == id;
                    if i < l.len() {
                        assert(l[i].identity == id);
                    }
                }
            }
        }
    }
}

/// Replacing an entry with one of the same identity moves neither the
/// index of any identity nor whether it occurs.
pub proof fn lemma_entry_idx_update(l: Seq<EntryView>, j: int, e: EntryView, id: Seq<char>)
    requires
        0 <= j < l.len(),
        e.identity == l[j].identity,
    ensures
        entry_has(l.update(j, e), id) == entry_has(l, id),
        entry_idx(l.update(j, e), id) == entry_idx(l, id),
    decreases l.len(),
{
    let lu = l.update(j, e);
    assert(forall|k: int| 0 <= k < l.len() ==> (#[trigger] lu[k]).identity == l[k].identity);
    assert(entry_has(lu, id) == entry_has(l, id)) by {
        if entry_has(l, id) {
            let i = choose|i: int| 0 <= i < l.len() && l[i].identity == id;
            assert(lu[i].identity == id);
        }
        if entry_has(lu, id) {
            let i = choose|i: int| 0 <= i < lu.len() && lu[i].identity == id;
            assert(l[i].identity == id);
        }
    }
    if l.len() > 0 {
        if j == 0 {
            assert(lu.first().identity == l.first().identity);
            if l.first().identity != id {
                assert(lu.drop_first() =~= l.drop_first());
            }
        } else {
            assert(lu.first() == l.first());
            if l.first().identity != id {
                assert(lu.drop_first() =~= l.drop_first().update(j - 1, e));
                assert(l.drop_first()[j - 1].identity == l[j].identity);
                lemma_entry_idx_update(l.drop_first(), j - 1, e, id);
            }
        }
    }
}

/// Accruing one identity leaves every other identity's entry unchanged.
pub proof fn lemma_accrue_frame(
    l: Seq<EntryView>,
    id: Seq<char>,
    path: Seq<char>,
    now: int,
    interval: int,
    other: Seq<char>,
)
    requires
        other != id,
    ensures
        entry_of(accrue_spec(l, id, path, now, interval).0, other) == entry_of(l, other),
{
    lemma_entry_idx(l, id);
    lemma_entry_idx(l, other);
    if !entry_has(l, id) {
        let e = EntryView { identity: id, path: path, cumulative_run_time_seconds: 0, last_updated_at: now };
        lemma_entry_of_push(l, e, other);
    } else {
        let j = entry_idx(l, id);
        let e = l[j];
        let c = e.cumulative_run_time_seconds + accrual_increment(
            elapsed_since(e.last_updated_at, now),
            interval,
        );
        let e2 = EntryView {
            identity: e.identity,
            path: e.path,
            cumulative_run_time_seconds: c,
            last_updated_at: now,
        };
        lemma_entry_idx_update(l, j, e2, other);
        if entry_has(l, other) {
            assert(entry_idx(l, other) != j);
        }
    }
}

/// One accrual never lowers any identity's accrued total, and the total it
/// reports is at least the identity's prior total.
pub proof fn lemma_accrue_monotonic(
    l: Seq<EntryView>,
    id: Seq<char>,
    path: Seq<char>,
    now: int,
    interval: int,
    any: Seq<char>,
)
    requires
        interval >= 0,
    ensures
        cumulative_of(accrue_spec(l, id, path, now, interval).0, any) >= cumulative_of(l, any),
        accrue_spec(l, id, path, now, interval).1 >= cumulative_of(l, id),
{
    lemma_entry_idx(l, id);
    if !entry_has(l, id) {
        let e = EntryView { identity: id, path: path, cumulative_run_time_seconds: 0, last_updated_at: now };
        lemma_entry_of_push(l, e, any);
        if any == id {
            assert(cumulative_of(l, id) == 0);
        }
    } else {
        let j = entry_idx(l, id);
        let e = l[j];
        let c = e.cumulative_run_time_seconds + accrual_increment(
            elapsed_since(e.last_updated_at, now),
            interval,
        );
        let e2 = EntryView {
            identity: e.identity,
            path: e.path,
            cumulative_run_time_seconds: c,
            last_updated_at: now,
        };
        lemma_entry_idx_update(l, j, e2, any);
        if any == id {
            assert(entry_of(accrue_spec(l, id, path, now, interval).0, id) == Some(e2));
        } else {
            lemma_accrue_frame(l, id, path, now, interval, any);
        }
    }
}

/// One accrual keeps identities pairwise distinct.
pub proof fn lemma_accrue_distinct(
    l: Seq<EntryView>,
    id: Seq<char>,
    path: Seq<char>,
    now: int,
    interval: int,
)
    requires
        distinct_identities(l),
    ensures
        distinct_identities(accrue_spec(l, id, path, now, interval).0),
{
    lemma_entry_idx(l, id);
    let l2 = accrue_spec(l, id, path, now, interval).0;
    if !entry_has(l, id) {
        assert forall|i: int, j: int| 0 <= i < j < l2.len() implies (#[trigger] l2[i]).identity
            != (#[trigger] l2[j]).identity by {
            if j < l.len() {
                assert(l[i].identity != l[j].identity);
            } else {
                assert(l2[j].identity == id);
                assert(l2[i] == l[i]);
            }
        }
    } else {
        assert forall|i: int, j: int| 0 <= i < j < l2.len() implies (#[trigger] l2[i]).identity
            != (#[trigger] l2[j]).identity by {
            assert(l[i].identity != l[j].identity);
            assert(l2[i].identity == l[i].identity);
            assert(l2[j].identity == l[j].identity);
        }
    }
}

/// Identities absent from the snapshot keep their entry through a cycle:
/// no decay, no deletion.
pub proof fn lemma_update_untouched(
    l: Seq<EntryView>,
    snap: Seq<AggregatedView>,
    now: int,
    interval: int,
    id: Seq<char>,
)
    requires
        forall|k: int| 0 <= k < snap.len() ==> (#[trigger] snap[k]).identity != id,
    ensures
        entry_of(update_spec(l, snap, now, interval), id) == entry_of(l, id),
    decreases snap.len(),
{
    if snap.len() > 0 {
        assert(forall|k: int|
            0 <= k < snap.drop_last().len() ==> (#[trigger] snap.drop_last()[k]).identity != id);
        lemma_update_untouched(l, snap.drop_last(), now, interval, id);
        assert(snap[snap.len() - 1].identity != id);
        lemma_accrue_frame(
            update_spec(l, snap.drop_last(), now, interval),
            snap.last().identity,
            snap.last().path,
            now,
            interval,
            id,
        );
    }
}

/// A cycle never lowers any identity's accrued total.
pub proof fn lemma_update_monotonic(
    l: Seq<EntryView>,
    snap: Seq<AggregatedView>,
    now: int,
    interval: int,
    id: Seq<char>,
)
    requires
        interval >= 0,
    ensures
        cumulative_of(update_spec(l, snap, now, interval), id) >= cumulative_of(l, id),
    decreases snap.len(),
{
    if snap.len() > 0 {
        lemma_update_monotonic(l, snap.drop_last(), now, interval, id);
        lemma_accrue_monotonic(
            update_spec(l, snap.drop_last(), now, interval),
            snap.last().identity,
            snap.last().path,
            now,
            interval,
            id,
        );
    }
}

/// What a reappearing identity's new total is, from its persisted
/// timestamp text. Mirrors one persisted row through one observation:
/// unparseable text is corruption; otherwise the prior total plus the
/// gap-capped increment. A total never shrinks, and a gap beyond twice the
/// interval is credited with exactly one interval, however large it is.
pub fn get_new_running_time(
    created_at: &str,
    running_time: u64,
    now: u64,
    interval: u64,
) -> (r: Result<u64, TrackerError>)
    requires
        MIN_POLLING_INTERVAL_SECS <= interval <= MAX_POLLING_INTERVAL_SECS,
        running_time + 2 * interval <= u64::MAX,
    ensures
        epoch_seconds_of(created_at@) is None ==> r == Err::<u64, TrackerError>(
            TrackerError::LedgerCorruption,
        ),
        epoch_seconds_of(created_at@) matches Some(t) ==> if t < 0 {
            r == Err::<u64, TrackerError>(TrackerError::LedgerCorruption)
        } else {
            r matches Ok(v) && v == running_time + accrual_increment(
                elapsed_since(t as int, now as int),
                interval as int,
            )
        },
        r matches Ok(v) ==> v >= running_time,
        epoch_seconds_of(created_at@) matches Some(t) ==> ((0 <= t && now as int - t > 2
            * interval as int) ==> (r matches Ok(v) && v == running_time + interval)),
{
    match parse_datetime_epoch(created_at) {
        None => Err(TrackerError::LedgerCorruption),
        Some(t) => {
            if t < 0 {
                Err(TrackerError::LedgerCorruption)
            } else {
                let ts = t as u64;
                let elapsed = if now >= ts {
                    now - ts
                } else {
                    0
                };
                let inc = if elapsed > 2 * interval {
                    interval
                } else {
                    elapsed
                };
                Ok(running_time + inc)
            }
        },
    }
}

/// Precondition of one accrual: where an entry for the identity exists,
/// its last update is not in the future and its total has room for the
/// largest possible increment.
pub open spec fn accrue_ready(l: Seq<EntryView>, id: Seq<char>, now: int, interval: int) -> bool {
    entry_has(l, id) ==> {
        let e = l[entry_idx(l, id)];
        &&& e.last_updated_at <= now
        &&& e.cumulative_run_time_seconds + 2 * interval <= u64::MAX
    }
}

/// Precondition of one cycle's accruals: no entry's last update is in the
/// future and each total has room for one increment.
pub open spec fn update_ready(l: Seq<EntryView>, now: int, interval: int) -> bool {
    forall|k: int|
        0 <= k < l.len() ==> {
            &&& (#[trigger] l[k]).last_updated_at <= now
            &&& l[k].cumulative_run_time_seconds + 2 * interval <= u64::MAX
        }
}

/// Identities are pairwise distinct across an aggregated snapshot.
pub open spec fn distinct_snapshot(s: Seq<AggregatedView>) -> bool {
    forall|i: int, j: int|
        0 <= i < j < s.len() ==> (#[trigger] s[i]).identity != (#[trigger] s[j]).identity
}

/// The running-time ledger: one entry per identity, identities pairwise
/// distinct.
pub struct Ledger {
    entries: Vec<LedgerEntry>,
}

impl View for Ledger {
    type V = Seq<EntryView>;

    closed spec fn view(&self) -> Seq<EntryView> {
        entry_views(self.entries@)
    }
}

/// The position of the first entry carrying the identity, if any does.
fn find_entry(entries: &Vec<LedgerEntry>, identity: &String) -> (r: Option<usize>)
    ensures
        match r {
            Some(j) => j < entries@.len() && entry_views(entries@)[j as int].identity == identity@
                && forall|k: int|
                0 <= k < j ==> entry_views(entries@)[k].identity != identity@,
            None => forall|k: int|
                0 <= k < entries@.len() ==> entry_views(entries@)[k].identity != identity@,
        },
{
    let mut j: usize = 0;
    while j < entries.len()
        invariant
            j <= entries@.len(),
            forall|k: int| 0 <= k < j ==> entry_views(entries@)[k].identity != identity@,
        decreases entries@.len() - j,
    {
        if entries[j].identity == *identity {
            return Some(j);
        }
        j = j + 1;
    }
    None
}

impl Ledger {
    /// Identities are pairwise distinct.
    pub open spec fn wf(&self) -> bool {
        distinct_identities(self@)
    }

    /// An empty ledger.
    pub fn new() -> (r: Ledger)
        ensures
            r@ == Seq::<EntryView>::empty(),
            r.wf(),
    {
        let r = Ledger { entries: Vec::new() };
        proof {
            assert(r@ =~= Seq::<EntryView>::empty());
        }
        r
    }

    /// Rebuilds a ledger from persisted rows. Two rows carrying one
    /// identity are corrupt persisted state, never silently merged.
    pub fn from_entries(entries: Vec<LedgerEntry>) -> (r: Result<Ledger, TrackerError>)
        ensures
            distinct_identities(entry_views(entries@)) ==> (r matches Ok(l) && l@ == entry_views(
                entries@,
            ) && l.wf()),
            !distinct_identities(entry_views(entries@)) ==> r == Err::<Ledger, TrackerError>(
                TrackerError::LedgerCorruption,
            ),
    {
        let mut i: usize = 0;
        while i < entries.len()
            invariant
                i <= entries@.len(),
                forall|a: int, b: int|
                    0 <= a < b < i ==> (#[trigger] entry_views(entries@)[a]).identity
                        != (#[trigger] entry_views(entries@)[b]).identity,
            decreases entries@.len() - i,
        {
            let mut k: usize = 0;
            while k < i
                invariant
                    k <= i,
                    i < entries@.len(),
                    forall|a: int|
                        0 <= a < k ==> (#[trigger] entry_views(entries@)[a]).identity
                            != entry_views(entries@)[i as int].identity,
                decreases i - k,
            {
                if entries[k].identity == entries[i].identity {
                    proof {
                        assert(entry_views(entries@)[k as int].identity == entry_views(entries@)[
                            i as int
                        ].identity);
                        assert(!distinct_identities(entry_views(entries@)));
                    }
                    return Err(TrackerError::LedgerCorruption);
                }
                k = k + 1;
            }
            i = i + 1;
        }
        assert(distinct_identities(entry_views(entries@)));
        Ok(Ledger { entries })
    }

    /// The persisted rows, in ledger order.
    pub fn entries(&self) -> (r: &Vec<LedgerEntry>)
        ensures
            entry_views(r@) == self@,
    {
        &self.entries
    }

    /// The accrued total for this identity, where an entry exists.
    pub fn get_cumulative(&self, identity: &str) -> (r: Option<u64>)
        ensures
            match entry_of(self@, identity@) {
                Some(e) => r matches Some(c) && c as int == e.cumulative_run_time_seconds,
                None => r is None,
            },
    {
        let id = identity.to_owned();
        let pos = find_entry(&self.entries, &id);
        proof {
            lemma_entry_idx(self@, identity@);
        }
        match pos {
            Some(j) => {
                proof {
                    assert(entry_has(self@, identity@));
                    assert(self@[j as int].identity == identity@);
                    assert(j as int == entry_idx(self@, identity@));
                }
                Some(self.entries[j].cumulative_run_time_seconds)
            },
            None => {
                proof {
                    assert(!entry_has(self@, identity@));
                }
                None
            },
        }
    }

    /// Folds one aggregated process into the ledger and returns the
    /// identity's updated cumulative running time. A first-seen identity
    /// gets an entry with zero accrued time; a known one is credited with
    /// the elapsed time since its last update, capped at one polling
    /// interval where the gap exceeds twice the interval; either way its
    /// entry is stamped with `now`. The total never decreases.
    pub fn accrue(&mut self, agg: &AggregatedProcess, now: u64, interval: u64) -> (r: u64)
        requires
            old(self).wf(),
            MIN_POLLING_INTERVAL_SECS <= interval <= MAX_POLLING_INTERVAL_SECS,
            accrue_ready(old(self)@, agg@.identity, now as int, interval as int),
        ensures
            final(self)@ == accrue_spec(
                old(self)@,
                agg@.identity,
                agg@.path,
                now as int,
                interval as int,
            ).0,
            r as int == accrue_spec(
                old(self)@,
                agg@.identity,
                agg@.path,
                now as int,
                interval as int,
            ).1,
            final(self).wf(),
            r as int >= cumulative_of(old(self)@, agg@.identity),
            entry_has(old(self)@, agg@.identity) && elapsed_since(
                old(self)@[entry_idx(old(self)@, agg@.identity)].last_updated_at,
                now as int,
            ) > 2 * interval ==> r as int == cumulative_of(old(self)@, agg@.identity) + interval,
    {
        let ghost l0 = self@;
        let ghost id = agg@.identity;
        let pos = find_entry(&self.entries, &agg.identity);
        proof {
            lemma_entry_idx(l0, id);
        }
        match pos {
            None => {
                proof {
                    assert(!entry_has(l0, id));
                }
                let entry = LedgerEntry {
                    identity: agg.identity.clone(),
                    path: agg.path.clone(),
                    cumulative_run_time_seconds: 0,
                    last_updated_at: now,
                };
                self.entries.push(entry);
                proof {
                    assert(self@ =~= accrue_spec(l0, id, agg@.path, now as int, interval as int).0);
                    lemma_accrue_distinct(l0, id, agg@.path, now as int, interval as int);
                    lemma_accrue_monotonic(l0, id, agg@.path, now as int, interval as int, id);
                }
                0
            },
            Some(j) => {
                proof {
                    assert(entry_has(l0, id));
                    assert(j as int == entry_idx(l0, id)) by {
                        assert(l0[j as int].identity == id);
                    }
                }
                let last = self.entries[j].last_updated_at;
                let elapsed = now - last;
                let inc = if elapsed > 2 * interval {
                    interval
                } else {
                    elapsed
                };
                let c = self.entries[j].cumulative_run_time_seconds + inc;
                let e = &mut self.entries[j];
                e.cumulative_run_time_seconds = c;
                e.last_updated_at = now;
                proof {
                    assert(self@ =~= accrue_spec(l0, id, agg@.path, now as int, interval as int).0);
                    assert(c as int == accrue_spec(
                        l0,
                        id,
                        agg@.path,
                        now as int,
                        interval as int,
                    ).1);
                    lemma_accrue_distinct(l0, id, agg@.path, now as int, interval as int);
                    lemma_accrue_monotonic(l0, id, agg@.path, now as int, interval as int, id);
                }
                c
            },
        }
    }

    /// Folds one cycle's aggregated snapshot into the ledger, left to
    /// right. Entries whose identity is absent from the snapshot are left
    /// untouched; no total decreases.
    pub fn update(&mut self, snapshot: &Vec<AggregatedProcess>, now: u64, interval: u64)
        requires
            old(self).wf(),
            MIN_POLLING_INTERVAL_SECS <= interval <= MAX_POLLING_INTERVAL_SECS,
            update_ready(old(self)@, now as int, interval as int),
            distinct_snapshot(agg_views(snapshot@)),
        ensures
            final(self)@ == update_spec(
                old(self)@,
                agg_views(snapshot@),
                now as int,
                interval as int,
            ),
            final(self).wf(),
    {
        let ghost sv = agg_views(snapshot@);
        let ghost l0 = self@;
        let mut i: usize = 0;
        while i < snapshot.len()
            invariant
                i <= snapshot@.len(),
                sv == agg_views(snapshot@),
                MIN_POLLING_INTERVAL_SECS <= interval <= MAX_POLLING_INTERVAL_SECS,
                update_ready(l0, now as int, interval as int),
                distinct_snapshot(sv),
                distinct_identities(l0),
                self@ == update_spec(l0, sv.take(i as int), now as int, interval as int),
                self.wf(),
            decreases snapshot@.len() - i,
        {
            proof {
                assert(forall|k: int|
                    0 <= k < i ==> (#[trigger] sv.take(i as int)[k]).identity != sv[
                        i as int
                    ].identity);
                lemma_update_untouched(
                    l0,
                    sv.take(i as int),
                    now as int,
                    interval as int,
                    sv[i as int].identity,
                );
                lemma_entry_idx(l0, sv[i as int].identity);
                lemma_entry_idx(self@, sv[i as int].identity);
                assert(accrue_ready(self@, sv[i as int].identity, now as int, interval as int));
            }
            self.accrue(&snapshot[i], now, interval);
            proof {
                assert(sv.take(i as int + 1).drop_last() =~= sv.take(i as int));
                assert(sv.take(i as int + 1).last() == sv[i as int]);
                assert(self@ == update_spec(
                    l0,
                    sv.take(i as int + 1),
                    now as int,
                    interval as int,
                ));
            }
            i = i + 1;
        }
        proof {
            assert(sv.take(sv.len() as int) =~= sv);
        }
    }
}

} // verus!
