//! The concurrent maps of the `dashmap` crate, as this library uses them.
//!
//! Nothing in this file is proved. Each function states, over a name for what
//! a map holds, what the `dashmap` method it calls does to those contents.
//! The maps are reached through `&mut` for every change, so that no other
//! holder can alter them between two calls.

use crate::models::{CacheEntry, CacheEntryView};
use dashmap::DashMap;
use vstd::prelude::*;

verus! {

/// `dashmap::DashMap`, as a value that is carried and never looked into.
#[verifier::external_type_specification]
#[verifier::external_body]
#[verifier::reject_recursive_types(K)]
#[verifier::reject_recursive_types(V)]
#[verifier::reject_recursive_types(S)]
pub struct ExDashMap<K, V, S>(DashMap<K, V, S>);

/// The records that a result map holds, by key.
pub uninterp spec fn cache_entries(map: DashMap<u64, CacheEntry>) -> Map<u64, CacheEntryView>;

/// The sample series that a history map holds, by name.
pub uninterp spec fn sample_series(map: DashMap<String, Vec<usize>>) -> Map<Seq<char>, Seq<usize>>;

/// `DashMap::new`: a result map that holds nothing.
#[verifier::external_body]
pub(crate) fn entries_new() -> (created: DashMap<u64, CacheEntry>)
    ensures
        cache_entries(created) == (Map::<u64, CacheEntryView>::empty()),
{
    DashMap::new()
}

/// `DashMap::get`, with the record copied out of the guard: the record
/// stored under `key`, or `None` where the map has no such key. The map is
/// left as it was.
#[verifier::external_body]
pub(crate) fn entries_get(map: &DashMap<u64, CacheEntry>, key: u64) -> (found: Option<CacheEntry>)
    ensures
        match found {
            Some(entry) => cache_entries(*map).contains_key(key) && entry@ == cache_entries(
                *map,
            )[key],
            None => !cache_entries(*map).contains_key(key),
        },
{
    match map.get(&key) {
        Some(guard) => Some(guard.value().clone()),
        None => None,
    }
}

/// `DashMap::insert`: afterwards `key` maps to `entry`, whether or not the
/// key was there before, and every other key maps to what it did.
#[verifier::external_body]
pub(crate) fn entries_insert(map: &mut DashMap<u64, CacheEntry>, key: u64, entry: CacheEntry)
    ensures
        cache_entries(*final(map)) == cache_entries(*old(map)).insert(key, entry@),
{
    map.insert(key, entry);
}

/// `DashMap::len`: the number of keys in the map.
#[verifier::external_body]
pub(crate) fn entries_len(map: &DashMap<u64, CacheEntry>) -> (count: usize)
    ensures
        count == cache_entries(*map).dom().len(),
{
    map.len()
}

/// `DashMap::is_empty`: whether the number of keys in the map is zero.
#[verifier::external_body]
pub(crate) fn entries_is_empty(map: &DashMap<u64, CacheEntry>) -> (empty: bool)
    ensures
        empty == (cache_entries(*map).dom().len() == 0),
{
    map.is_empty()
}

/// `DashMap::new`: a history map that holds no series.
#[verifier::external_body]
pub(crate) fn series_new() -> (created: DashMap<String, Vec<usize>>)
    ensures
        sample_series(created) == (Map::<Seq<char>, Seq<usize>>::empty()),
{
    DashMap::new()
}

/// `DashMap::get`, with the series copied out of the guard: the series
/// stored under `name`, or `None` where the map has no such name. The map is
/// left as it was.
#[verifier::external_body]
pub(crate) fn series_get(map: &DashMap<String, Vec<usize>>, name: &str) -> (found: Option<
    Vec<usize>,
>)
    ensures
        match found {
            Some(samples) => sample_series(*map).contains_key(name@) && samples@ == sample_series(
                *map,
            )[name@],
            None => !sample_series(*map).contains_key(name@),
        },
{
    match map.get(name) {
        Some(guard) => Some(guard.value().clone()),
        None => None,
    }
}

/// `DashMap::insert`: afterwards `name` maps to `samples`, whether or not
/// the name was there before, and every other name maps to what it did.
#[verifier::external_body]
pub(crate) fn series_insert(map: &mut DashMap<String, Vec<usize>>, name: String, samples: Vec<usize>)
    ensures
        sample_series(*final(map)) == sample_series(*old(map)).insert(name@, samples@),
{
    map.insert(name, samples);
}

} // verus!
