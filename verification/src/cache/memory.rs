//! The in-memory result cache: records by key, with hit accounting and a
//! reload that merges a snapshot into what is there.

use crate::dash::{
    cache_entries, entries_get, entries_insert, entries_is_empty, entries_len, entries_new,
};
use crate::models::{CacheEntry, CacheEntryView};
use dashmap::DashMap;
use vstd::prelude::*;

verus! {

/// The share of lookups that found a record, as an exact fraction. With no
/// lookup at all both parts are zero, and the rate counts as zero.
#[derive(Debug, Clone, Copy, PartialEq, Eq, Structural)]
pub struct HitRate {
    pub hits: u64,
    pub lookups: u64,
}

impl HitRate {
    /// Whether the rate is zero: no lookup found a record.
    pub open spec fn spec_is_zero(&self) -> bool {
        self.hits == 0
    }

    /// Whether the rate is zero: no lookup found a record.
    pub fn is_zero(&self) -> (zero: bool)
        ensures
            zero == self.spec_is_zero(),
    {
        self.hits == 0
    }
}

/// Why a snapshot could not be had.
#[derive(Debug, Clone, Copy, PartialEq, Eq, Structural)]
pub enum ReloadError {
    /// The snapshot could not be read.
    Io,
    /// The snapshot was read but is not a list of records.
    Parse,
}

/// A counter after one more event; it stays at the end of its range.
pub open spec fn counted(counter: u64) -> u64 {
    if counter == u64::MAX {
        counter
    } else {
        (counter + 1) as u64
    }
}

/// The records after each of `records` is stored under its number, in
/// order: a later record replaces an earlier one with the same number, and
/// what `base` holds under other keys stays.
pub open spec fn merge_entries(
    base: Map<u64, CacheEntryView>,
    records: Seq<CacheEntry>,
) -> Map<u64, CacheEntryView>
    decreases records.len(),
{
    if records.len() == 0 {
        base
    } else {
        merge_entries(base, records.drop_last()).insert(records.last().number, records.last()@)
    }
}

/// How many of the lookups with the given `outcomes` found a record.
pub open spec fn count_hits(outcomes: Seq<bool>) -> nat
    decreases outcomes.len(),
{
    if outcomes.len() == 0 {
        0
    } else {
        count_hits(outcomes.drop_last()) + if outcomes.last() {
            1nat
        } else {
            0nat
        }
    }
}

/// What a `FactorizationCache` holds, as mathematical values.
pub struct CacheView {
    pub entries: Map<u64, CacheEntryView>,
    pub total_requests: u64,
    pub cache_hits: u64,
}

impl CacheView {
    /// The keys are finitely many, every record is stored under its own
    /// number, and no more hits than lookups were counted.
    pub open spec fn wf(&self) -> bool {
        &&& self.entries.dom().finite()
        &&& forall|key: u64|
            self.entries.contains_key(key) ==> (#[trigger] self.entries[key]).number == key
        &&& self.cache_hits <= self.total_requests
    }

    /// The state after one lookup that found a record or did not.
    pub open spec fn looked_up(self, hit: bool) -> CacheView {
        CacheView {
            total_requests: counted(self.total_requests),
            cache_hits: if hit {
                counted(self.cache_hits)
            } else {
                self.cache_hits
            },
            ..self
        }
    }

    /// The state after a series of lookups, each of which found a record
    /// or did not.
    pub open spec fn after_lookups(self, outcomes: Seq<bool>) -> CacheView
        decreases outcomes.len(),
    {
        if outcomes.len() == 0 {
            self
        } else {
            self.after_lookups(outcomes.drop_last()).looked_up(outcomes.last())
        }
    }

    /// The state after `entry` is stored under `key`.
    pub open spec fn stored(self, key: u64, entry: CacheEntryView) -> CacheView {
        CacheView { entries: self.entries.insert(key, entry), ..self }
    }

    /// The state after a snapshot is merged in.
    pub open spec fn merged(self, records: Seq<CacheEntry>) -> CacheView {
        CacheView { entries: merge_entries(self.entries, records), ..self }
    }

    /// The hit rate of the state.
    pub open spec fn hit_rate(self) -> HitRate {
        HitRate { hits: self.cache_hits, lookups: self.total_requests }
    }
}

/// Results by number, with counters of lookups and of hits.
pub struct FactorizationCache {
    inner: DashMap<u64, CacheEntry>,
    total_requests: u64,
    cache_hits: u64,
}

impl View for FactorizationCache {
    type V = CacheView;

    closed spec fn view(&self) -> CacheView {
        CacheView {
            entries: cache_entries(self.inner),
            total_requests: self.total_requests,
            cache_hits: self.cache_hits,
        }
    }
}

impl FactorizationCache {
    /// The invariant of the cache, over its view.
    pub open spec fn wf(&self) -> bool {
        self@.wf()
    }

    /// An empty cache that has seen no lookup.
    pub fn new() -> (cache: Self)
        ensures
            cache.wf(),
            cache@.entries == Map::<u64, CacheEntryView>::empty(),
            cache@.total_requests == 0,
            cache@.cache_hits == 0,
    {
        FactorizationCache { inner: entries_new(), total_requests: 0, cache_hits: 0 }
    }

    /// Looks `n` up. Every call counts as a lookup; a call that finds a
    /// record counts as a hit and returns a copy of the record.
    pub fn get(&mut self, n: u64) -> (found: Option<CacheEntry>)
        requires
            old(self).wf(),
        ensures
            final(self).wf(),
            final(self)@ == old(self)@.looked_up(found.is_some()),
            match found {
                Some(entry) => old(self)@.entries.contains_key(n) && entry@ == old(
                    self,
                )@.entries[n],
                None => !old(self)@.entries.contains_key(n),
            },
    {
        self.total_requests = self.total_requests.saturating_add(1);
        match entries_get(&self.inner, n) {
            Some(entry) => {
                self.cache_hits = self.cache_hits.saturating_add(1);
                Some(entry)
            },
            None => None,
        }
    }

    /// Stores a record for `n`, replacing the one that was there.
    pub fn insert_with_factors(
        &mut self,
        n: u64,
        factors: Vec<u64>,
        computation_time_ms: u64,
        algorithm: String,
    )
        requires
            old(self).wf(),
        ensures
            final(self).wf(),
            final(self)@ == old(self)@.stored(
                n,
                CacheEntryView {
                    number: n,
                    factors: factors@,
                    computation_time_ms,
                    algorithm: algorithm@,
                },
            ),
    {
        let entry = CacheEntry { number: n, factors, computation_time_ms, algorithm };
        entries_insert(&mut self.inner, n, entry);
    }

    /// The number of records.
    pub fn len(&self) -> (count: usize)
        ensures
            count == self@.entries.dom().len(),
    {
        entries_len(&self.inner)
    }

    /// Whether the cache holds no record.
    pub fn is_empty(&self) -> (empty: bool)
        requires
            self.wf(),
        ensures
            empty == (self@.entries.dom().len() == 0),
            empty <==> (forall|key: u64| !self@.entries.contains_key(key)),
    {
        proof {
            if self@.entries.dom().len() == 0 {
                self@.entries.dom().lemma_len0_is_empty();
            } else {
                assert(!(self@.entries.dom() =~= Set::<u64>::empty()));
            }
        }
        entries_is_empty(&self.inner)
    }

    /// Merges a snapshot into the cache: each record is stored under its
    /// number, in order. Nothing is removed. Returns the number of records
    /// in the snapshot.
    pub fn merge_snapshot(&mut self, snapshot: Vec<CacheEntry>) -> (count: usize)
        requires
            old(self).wf(),
        ensures
            final(self).wf(),
            final(self)@ == old(self)@.merged(snapshot@),
            count == snapshot.len(),
            forall|key: u64|
                old(self)@.entries.contains_key(key) ==> final(self)@.entries.contains_key(key),
            forall|i: int|
                0 <= i < snapshot.len() ==> final(self)@.entries.contains_key(
                    (#[trigger] snapshot[i]).number,
                ),
    {
        proof {
            lemma_merge_is_additive(old(self)@.entries, snapshot@);
        }
        let count: usize = snapshot.len();
        let ghost records = snapshot@;
        for entry in it: snapshot.into_iter()
            invariant
                it.seq() == records,
                self.wf(),
                self@ == old(self)@.merged(records.take(it.index() as int)),
        {
            proof {
                let done = records.take(it.index() as int);
                let next = records.take(it.index() + 1);
                assert(next.drop_last() == done);
                assert(next.last() == entry);
            }
            let key: u64 = entry.number;
            entries_insert(&mut self.inner, key, entry);
        }
        proof {
            assert(records.take(records.len() as int) == records);
        }
        count
    }

    /// One reload: where the snapshot could be had it is merged in and the
    /// number of its records is returned; where it could not, the cache stays
    /// as it is and the error is handed on.
    pub fn reload(&mut self, source: Result<Vec<CacheEntry>, ReloadError>) -> (outcome: Result<
        usize,
        ReloadError,
    >)
        requires
            old(self).wf(),
        ensures
            final(self).wf(),
            match source {
                Ok(snapshot) => outcome == Ok::<usize, ReloadError>(snapshot.len())
                    && final(self)@ == old(self)@.merged(snapshot@),
                Err(error) => outcome == Err::<usize, ReloadError>(error) && final(self)@ == old(
                    self,
                )@,
            },
    {
        match source {
            Ok(snapshot) => Ok(self.merge_snapshot(snapshot)),
            Err(error) => Err(error),
        }
    }

    /// The share of lookups that found a record; zero before any lookup.
    pub fn get_hit_rate(&self) -> (rate: HitRate)
        requires
            self.wf(),
        ensures
            rate == self@.hit_rate(),
            rate.hits <= rate.lookups,
            self@.total_requests == 0 ==> rate.spec_is_zero(),
    {
        HitRate { hits: self.cache_hits, lookups: self.total_requests }
    }

    /// The number of lookups, the number of hits, and the hit rate.
    pub fn get_cache_stats(&self) -> (stats: (u64, u64, HitRate))
        requires
            self.wf(),
        ensures
            stats.0 == self@.total_requests,
            stats.1 == self@.cache_hits,
            stats.2 == self@.hit_rate(),
            stats.1 <= stats.0,
    {
        let total: u64 = self.total_requests;
        let hits: u64 = self.cache_hits;
        (total, hits, HitRate { hits, lookups: total })
    }
}

/// Lookups are counted exactly: after a series of lookups the hit rate is
/// the hits so far plus those of the series, over the lookups so far plus
/// the length of the series, as long as the number of lookups fits the
/// counter. For a cache that had seen no lookup this is the number of hits
/// over the number of lookups. Lookups leave the records alone.
pub proof fn lemma_hit_rate_counts_lookups(start: CacheView, outcomes: Seq<bool>)
    requires
        start.cache_hits <= start.total_requests,
        start.total_requests + outcomes.len() <= u64::MAX,
    ensures
        count_hits(outcomes) <= outcomes.len(),
        start.after_lookups(outcomes).hit_rate() == (HitRate {
            hits: (start.cache_hits + count_hits(outcomes)) as u64,
            lookups: (start.total_requests + outcomes.len()) as u64,
        }),
        start.after_lookups(outcomes).entries == start.entries,
    decreases outcomes.len(),
{
    if outcomes.len() > 0 {
        lemma_hit_rate_counts_lookups(start, outcomes.drop_last());
    }
}

/// Merging is additive. Every key of the base and every number of the
/// snapshot is a key afterwards, and no other. A key that the snapshot does
/// not name keeps its record, and a number that the snapshot names has the
/// record of its last occurrence.
pub proof fn lemma_merge_is_additive(base: Map<u64, CacheEntryView>, records: Seq<CacheEntry>)
    ensures
        forall|key: u64| #[trigger]
            merge_entries(base, records).contains_key(key) <==> base.contains_key(key) || exists|
                i: int,
            |
                0 <= i < records.len() && (#[trigger] records[i]).number == key,
        forall|key: u64|
            base.contains_key(key) && (forall|i: int|
                0 <= i < records.len() ==> (#[trigger] records[i]).number != key)
                ==> #[trigger] merge_entries(base, records)[key] == base[key],
        forall|i: int|
            0 <= i < records.len() && (forall|j: int|
                i < j < records.len() ==> (#[trigger] records[j]).number != records[i].number)
                ==> merge_entries(base, records)[(#[trigger] records[i]).number] == records[i]@,
        base.dom().finite() ==> merge_entries(base, records).dom().finite(),
    decreases records.len(),
{
    if records.len() > 0 {
        let front = records.drop_last();
        let last = records.last();
        lemma_merge_is_additive(base, front);
        let merged = merge_entries(base, records);
        assert(merged == merge_entries(base, front).insert(last.number, last@));
        assert forall|key: u64| #[trigger]
            merged.contains_key(key) <==> base.contains_key(key) || exists|i: int|
                0 <= i < records.len() && (#[trigger] records[i]).number == key by {
            if merged.contains_key(key) && !base.contains_key(key) {
                if key == last.number {
                    assert(records[records.len() - 1].number == key);
                } else {
                    assert(merge_entries(base, front).contains_key(key));
                    let i = choose|i: int|
                        0 <= i < front.len() && (#[trigger] front[i]).number == key;
                    assert(records[i].number == key);
                }
            }
            if exists|i: int| 0 <= i < records.len() && (#[trigger] records[i]).number == key {
                let i = choose|i: int|
                    0 <= i < records.len() && (#[trigger] records[i]).number == key;
                if i < front.len() {
                    assert(front[i].number == key);
                }
            }
        }
        assert forall|key: u64|
            base.contains_key(key) && (forall|i: int|
                0 <= i < records.len() ==> (#[trigger] records[i]).number != key)
                implies #[trigger] merged[key] == base[key] by {
            assert(records[records.len() - 1].number != key);
            assert forall|i: int| 0 <= i < front.len() implies (#[trigger] front[i]).number
                != key by {
                assert(records[i].number != key);
            }
        }
        assert forall|i: int|
            0 <= i < records.len() && (forall|j: int|
                i < j < records.len() ==> (#[trigger] records[j]).number != records[i].number)
                implies merged[(#[trigger] records[i]).number] == records[i]@ by {
            if i < front.len() {
                assert(records[records.len() - 1].number != records[i].number);
                assert(front[i] == records[i]);
                assert forall|j: int| i < j < front.len() implies (#[trigger] front[j]).number
                    != front[i].number by {
                    assert(records[j].number != records[i].number);
                }
            }
        }
    }
}

/// No store is lost: after the records of a snapshot with distinct numbers,
/// none of them a key of the base, are stored one by one, the map has grown
/// by exactly as many keys as the snapshot has records.
pub proof fn lemma_distinct_records_all_kept(
    base: Map<u64, CacheEntryView>,
    records: Seq<CacheEntry>,
)
    requires
        base.dom().finite(),
        forall|i: int| 0 <= i < records.len() ==> !base.contains_key((#[trigger] records[i]).number),
        forall|i: int, j: int|
            0 <= i < j < records.len() ==> (#[trigger] records[i]).number != (
            #[trigger] records[j]).number,
    ensures
        merge_entries(base, records).dom().finite(),
        merge_entries(base, records).dom().len() == base.dom().len() + records.len(),
    decreases records.len(),
{
    if records.len() > 0 {
        let front = records.drop_last();
        let last = records.last();
        assert forall|i: int| 0 <= i < front.len() implies !base.contains_key(
            (#[trigger] front[i]).number,
        ) by {
            assert(front[i] == records[i]);
        }
        assert forall|i: int, j: int| 0 <= i < j < front.len() implies (#[trigger] front[i]).number
            != (#[trigger] front[j]).number by {
            assert(front[i] == records[i]);
            assert(front[j] == records[j]);
        }
        lemma_distinct_records_all_kept(base, front);
        lemma_merge_is_additive(base, front);
        let before = merge_entries(base, front);
        assert(!before.contains_key(last.number)) by {
            assert(!base.contains_key(records[records.len() - 1].number));
            if exists|i: int| 0 <= i < front.len() && (#[trigger] front[i]).number == last.number {
                let i = choose|i: int|
                    0 <= i < front.len() && (#[trigger] front[i]).number == last.number;
                assert(records[i].number != records[records.len() - 1].number);
            }
        }
        assert(merge_entries(base, records).dom() == before.dom().insert(last.number));
    }
}

} // verus!
