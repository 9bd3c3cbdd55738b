//! The decisions behind each endpoint, from plain values to plain values.
//! Routing, serialization and timestamps belong to the host.

use crate::cache::memory::{CacheView, FactorizationCache, HitRate};
use crate::clock::{elapsed_millis, start_timer};
use crate::factorization::primes::{
    is_fast_factorization, is_prime, is_prime_factorization, lemma_single_factor_iff_prime,
};
use crate::factorization::simple::{factorize, factorize_fast};
use crate::load_balancer::{
    compute_share, count_after_entry, load_level_of, series_average, LoadBalancer, LoadLevel,
    HISTORY_CAPACITY,
};
use crate::models::{
    AppError, CacheEntry, CacheEntryView, FactorizationResponse, FactorizationResponseView,
};
use vstd::prelude::*;
use vstd::string::StringExecFns;

verus! {

/// The smallest number that the service factorizes.
pub const MIN_NUMBER: u64 = 2;

/// A computation that took longer than this many milliseconds is cached.
pub const CACHE_THRESHOLD_MS: u128 = 100;

/// The reason given for a number below the smallest valid one.
pub open spec fn rejection_text() -> Seq<char> {
    "Number must be greater than 1"@
}

/// The algorithm recorded with a result that the service computed.
pub open spec fn algorithm_name() -> Seq<char> {
    "simple_trial"@
}

/// `factors` is the one entry `number`: how the service tells a prime.
pub open spec fn single_factor(number: u64, factors: Seq<u64>) -> bool {
    factors.len() == 1 && factors[0] == number
}

/// A duration in milliseconds as it is reported: its low 64 bits.
pub open spec fn reported_millis(elapsed_ms: u128) -> u64 {
    (elapsed_ms % 0x1_0000_0000_0000_0000) as u64
}

/// `factors` is what the service computes for `number` at `level`: the
/// fast method's result under high load, the prime factorization otherwise.
pub open spec fn computed_at(level: LoadLevel, number: u64, factors: Seq<u64>) -> bool {
    if level == LoadLevel::High {
        is_fast_factorization(number, factors)
    } else {
        is_prime_factorization(number, factors)
    }
}

/// The answer that is built from a cached record.
pub open spec fn answer_from_cache(number: u64, entry: CacheEntryView) -> FactorizationResponseView {
    FactorizationResponseView {
        number,
        factors: entry.factors,
        is_prime: single_factor(number, entry.factors),
        cached: true,
        computation_time_ms: Some(entry.computation_time_ms),
    }
}

/// The answer that is built from freshly computed factors.
pub open spec fn answer_computed(
    number: u64,
    factors: Seq<u64>,
    elapsed_ms: u128,
) -> FactorizationResponseView {
    FactorizationResponseView {
        number,
        factors,
        is_prime: single_factor(number, factors),
        cached: false,
        computation_time_ms: Some(reported_millis(elapsed_ms)),
    }
}

/// The cache after a computation that took `elapsed_ms`: the result is
/// stored where that is more than the threshold.
pub open spec fn cache_after_computing(
    before: CacheView,
    number: u64,
    factors: Seq<u64>,
    elapsed_ms: u128,
) -> CacheView {
    if elapsed_ms > CACHE_THRESHOLD_MS {
        before.stored(
            number,
            CacheEntryView {
                number,
                factors,
                computation_time_ms: reported_millis(elapsed_ms),
                algorithm: algorithm_name(),
            },
        )
    } else {
        before
    }
}

/// Outside high load the answer tells primes: the prime flag of an answer
/// built from the prime factorization of a number is set exactly where the
/// number is prime. Under high load the flag carries no such promise.
pub proof fn lemma_exact_answer_tells_primes(number: u64, factors: Seq<u64>, elapsed_ms: u128)
    requires
        is_prime_factorization(number, factors),
    ensures
        answer_computed(number, factors, elapsed_ms).is_prime <==> is_prime(number as int),
{
    lemma_single_factor_iff_prime(number, factors);
}

/// Whether `factors` is the one entry `number`.
pub fn is_single_factor(number: u64, factors: &Vec<u64>) -> (single: bool)
    ensures
        single == single_factor(number, factors@),
{
    factors.len() == 1 && factors[0] == number
}

/// The answer for a number whose record was found in the cache.
pub fn respond_from_cache(number: u64, entry: CacheEntry) -> (response: FactorizationResponse)
    ensures
        response@ == answer_from_cache(number, entry@),
{
    let is_prime = is_single_factor(number, &entry.factors);
    FactorizationResponse {
        number,
        factors: entry.factors,
        is_prime,
        cached: true,
        computation_time_ms: Some(entry.computation_time_ms),
    }
}

/// The factors of `number` by the method that fits the load: the fast one
/// under high load, the exact one otherwise.
pub fn compute_factors(level: LoadLevel, number: u64) -> (factors: Vec<u64>)
    requires
        number >= 1,
    ensures
        computed_at(level, number, factors@),
{
    match level {
        LoadLevel::High => factorize_fast(number),
        _ => factorize(number),
    }
}

/// Finishes a request whose factors were computed in `elapsed_ms`: stores
/// the result where the computation was slow, and builds the answer.
pub fn complete_factorize(
    number: u64,
    factors: Vec<u64>,
    elapsed_ms: u128,
    cache: &mut FactorizationCache,
) -> (response: FactorizationResponse)
    requires
        old(cache).wf(),
    ensures
        final(cache).wf(),
        final(cache)@ == cache_after_computing(old(cache)@, number, factors@, elapsed_ms),
        response@ == answer_computed(number, factors@, elapsed_ms),
{
    let is_prime = is_single_factor(number, &factors);
    let millis: u64 = (elapsed_ms % 0x1_0000_0000_0000_0000) as u64;
    if elapsed_ms > CACHE_THRESHOLD_MS {
        cache.insert_with_factors(
            number,
            factors.clone(),
            millis,
            String::from_str("simple_trial"),
        );
    }
    FactorizationResponse {
        number,
        factors,
        is_prime,
        cached: false,
        computation_time_ms: Some(millis),
    }
}

/// What a request for `number` may end in, given the cache and the load
/// level at the time: a rejection below the smallest valid number; the
/// cached record where there is one; else freshly computed factors, which
/// are stored or not by the time that the clock measured.
pub open spec fn served(
    number: u64,
    level: LoadLevel,
    before: CacheView,
    after: CacheView,
    outcome: Result<FactorizationResponse, AppError>,
) -> bool {
    if number < MIN_NUMBER {
        &&& after == before
        &&& outcome matches Err(AppError::InvalidInput(reason))
        &&& reason@ == rejection_text()
    } else if before.entries.contains_key(number) {
        &&& after == before.looked_up(true)
        &&& outcome matches Ok(response)
        &&& response@ == answer_from_cache(number, before.entries[number])
    } else {
        &&& outcome matches Ok(response)
        &&& computed_at(level, number, response.factors@)
        &&& exists|elapsed_ms: u128|
            {
                &&& response@ == #[trigger] answer_computed(number, response.factors@, elapsed_ms)
                &&& after == cache_after_computing(
                    before.looked_up(false),
                    number,
                    response.factors@,
                    elapsed_ms,
                )
            }
    }
}

/// Serves one request against the cache at the given load level.
fn serve_factorize(number: u64, level: LoadLevel, cache: &mut FactorizationCache) -> (outcome:
    Result<FactorizationResponse, AppError>)
    requires
        old(cache).wf(),
    ensures
        final(cache).wf(),
        served(number, level, old(cache)@, final(cache)@, outcome),
{
    if number < MIN_NUMBER {
        return Err(AppError::InvalidInput(String::from_str("Number must be greater than 1")));
    }
    if let Some(entry) = cache.get(number) {
        return Ok(respond_from_cache(number, entry));
    }
    let factors = compute_factors(level, number);
    let start = start_timer();
    let elapsed_ms: u128 = elapsed_millis(&start);
    let ghost computed = factors@;
    let response = complete_factorize(number, factors, elapsed_ms, cache);
    proof {
        assert(response@ == answer_computed(number, computed, elapsed_ms));
    }
    Ok(response)
}

/// Handles one factorization request. The request is counted as in flight
/// while it is served and no longer when the function returns, whatever the
/// outcome. The load level that picks the method is the one with this
/// request counted.
pub fn handle_factorize(
    number: u64,
    cache: &mut FactorizationCache,
    load_balancer: &mut LoadBalancer,
) -> (outcome: Result<FactorizationResponse, AppError>)
    requires
        old(cache).wf(),
    ensures
        final(cache).wf(),
        final(load_balancer)@ == old(load_balancer)@,
        served(
            number,
            load_level_of(
                count_after_entry(old(load_balancer)@.active_requests),
                old(load_balancer)@.config,
            ),
            old(cache)@,
            final(cache)@,
            outcome,
        ),
{
    load_balancer.increment_request();
    let level = load_balancer.get_load_level();
    let outcome = serve_factorize(number, level, cache);
    load_balancer.decrement_request();
    outcome
}

/// How the service describes its own state.
#[derive(Debug, Clone, Copy, PartialEq, Eq, Structural)]
pub enum HealthStatus {
    Healthy,
    Degraded,
}

impl HealthStatus {
    /// The name of the status.
    pub open spec fn spec_label(&self) -> Seq<char> {
        match self {
            HealthStatus::Healthy => "healthy"@,
            HealthStatus::Degraded => "degraded"@,
        }
    }

    /// The name of the status, as it appears in reports.
    pub fn label(&self) -> (name: &'static str)
        ensures
            name@ == self.spec_label(),
    {
        match self {
            HealthStatus::Healthy => "healthy",
            HealthStatus::Degraded => "degraded",
        }
    }
}

/// The status that goes with a load level: degraded under high load,
/// healthy otherwise.
pub open spec fn status_at(level: LoadLevel) -> HealthStatus {
    if level == LoadLevel::High {
        HealthStatus::Degraded
    } else {
        HealthStatus::Healthy
    }
}

/// The load report of the service.
#[derive(Debug, Clone, Copy)]
pub struct LoadReport {
    pub active_requests: usize,
    pub load_level: LoadLevel,
    pub current_worker_threads: usize,
    pub recommended_compute_threads: usize,
    pub recommended_query_threads: usize,
    pub average_load: usize,
    pub history_size: usize,
}

/// The health report of the service.
#[derive(Debug, Clone, Copy)]
pub struct HealthReport {
    pub status: HealthStatus,
    pub load_level: LoadLevel,
    pub active_requests: usize,
}

/// The cache report of the service.
#[derive(Debug, Clone, Copy)]
pub struct CacheReport {
    pub cache_entries: usize,
    pub is_empty: bool,
    pub hit_rate: HitRate,
}

/// The current load, the stored and the recommended thread counts, and the
/// mean and length of the load history.
pub fn load_stats(load_balancer: &LoadBalancer) -> (report: LoadReport)
    requires
        load_balancer.wf(),
    ensures
        report.active_requests == load_balancer@.active_requests,
        report.load_level == load_balancer@.load_level(),
        report.current_worker_threads == load_balancer@.current_worker_threads,
        report.recommended_compute_threads == compute_share(
            load_balancer@.config,
            load_balancer@.current_worker_threads,
        ),
        report.recommended_query_threads == load_balancer@.current_worker_threads,
        report.average_load == series_average(load_balancer@.load_history),
        report.history_size == load_balancer@.load_history.len(),
        report.history_size <= HISTORY_CAPACITY,
{
    let stats = load_balancer.get_stats();
    LoadReport {
        active_requests: stats.active_requests,
        load_level: stats.load_level,
        current_worker_threads: load_balancer.get_current_worker_threads(),
        recommended_compute_threads: stats.recommended_compute_threads,
        recommended_query_threads: stats.recommended_query_threads,
        average_load: stats.average_load,
        history_size: stats.history_size,
    }
}

/// The health of the service: degraded exactly under high load.
pub fn system_health(load_balancer: &LoadBalancer) -> (report: HealthReport)
    requires
        load_balancer.wf(),
    ensures
        report.status == status_at(load_balancer@.load_level()),
        report.load_level == load_balancer@.load_level(),
        report.active_requests == load_balancer@.active_requests,
{
    let stats = load_balancer.get_stats();
    let status = if stats.load_level == LoadLevel::High {
        HealthStatus::Degraded
    } else {
        HealthStatus::Healthy
    };
    HealthReport { status, load_level: stats.load_level, active_requests: stats.active_requests }
}

/// The size of the cache and its hit rate.
pub fn cache_stats(cache: &FactorizationCache) -> (report: CacheReport)
    requires
        cache.wf(),
    ensures
        report.cache_entries == cache@.entries.dom().len(),
        report.is_empty == (cache@.entries.dom().len() == 0),
        report.hit_rate == cache@.hit_rate(),
{
    let count: usize = cache.len();
    let is_empty = cache.is_empty();
    let hit_rate = cache.get_hit_rate();
    CacheReport { cache_entries: count, is_empty, hit_rate }
}

} // verus!
