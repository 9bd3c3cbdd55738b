//! Load monitoring and the worker-allocation policy.
//!
//! A `LoadBalancer` counts the requests in flight, classifies that count
//! against two thresholds, and recomputes on every tick how many threads of a
//! fixed budget it recommends for query work. The recommendation is stored
//! and reported; resizing a running pool is the host's business.

use crate::dash::{sample_series, series_get, series_insert, series_new};
use dashmap::DashMap;
use vstd::arithmetic::div_mod::{
    lemma_add_mod_noop_right, lemma_mod_add_multiples_vanish, lemma_mod_self_0, lemma_small_mod,
};
use vstd::prelude::*;
use vstd::string::StringExecFns;

verus! {

/// Coarse classification of the number of requests in flight.
#[derive(Debug, Clone, Copy, PartialEq, Eq, Structural)]
pub enum LoadLevel {
    Low,
    Normal,
    High,
}

impl LoadLevel {
    /// The name of the level.
    pub open spec fn spec_label(&self) -> Seq<char> {
        match self {
            LoadLevel::Low => "Low"@,
            LoadLevel::Normal => "Normal"@,
            LoadLevel::High => "High"@,
        }
    }

    /// The name of the level, as it appears in reports.
    pub fn label(&self) -> (name: &'static str)
        ensures
            name@ == self.spec_label(),
    {
        match self {
            LoadLevel::Low => "Low",
            LoadLevel::Normal => "Normal",
            LoadLevel::High => "High",
        }
    }
}

/// Thresholds and thread budget of the allocation policy.
#[derive(Debug, Clone, Copy)]
pub struct LoadBalancerConfig {
    /// Fewer active requests than this is low load.
    pub low_load_threshold: usize,
    /// More active requests than this is high load.
    pub high_load_threshold: usize,
    /// Interval between two policy ticks, in milliseconds.
    pub check_interval_ms: u64,
    /// Threads reserved for compute work.
    pub max_compute_threads: usize,
    /// Upper bound of the query pool.
    pub max_query_threads: usize,
}

impl LoadBalancerConfig {
    /// A usable configuration: the thresholds are ordered, the query pool can
    /// hold the minimum of two workers, and the whole budget is a machine word.
    pub open spec fn valid(&self) -> bool {
        &&& self.low_load_threshold < self.high_load_threshold
        &&& self.max_query_threads >= 2
        &&& self.max_compute_threads + self.max_query_threads <= usize::MAX
    }

    /// Whether the configuration is usable.
    pub fn is_valid(&self) -> (ok: bool)
        ensures
            ok == self.valid(),
    {
        self.low_load_threshold < self.high_load_threshold && self.max_query_threads >= 2
            && self.max_compute_threads <= usize::MAX - self.max_query_threads
    }
}

impl Default for LoadBalancerConfig {
    fn default() -> (config: Self)
        ensures
            config.low_load_threshold == 5,
            config.high_load_threshold == 20,
            config.check_interval_ms == 5000,
            config.max_compute_threads == 4,
            config.max_query_threads == 8,
            config.valid(),
    {
        LoadBalancerConfig {
            low_load_threshold: 5,
            high_load_threshold: 20,
            check_interval_ms: 5000,
            max_compute_threads: 4,
            max_query_threads: 8,
        }
    }
}

/// The most samples that the load history keeps.
pub const HISTORY_CAPACITY: usize = 100;

/// The name under which the load history is stored.
pub open spec fn history_name() -> Seq<char> {
    "active_requests"@
}

/// The level that `active` requests amount to under `config`: low strictly
/// below the low threshold, high strictly above the high one, normal between
/// and on the thresholds.
pub open spec fn load_level_of(active: usize, config: LoadBalancerConfig) -> LoadLevel {
    if active < config.low_load_threshold {
        LoadLevel::Low
    } else if active > config.high_load_threshold {
        LoadLevel::High
    } else {
        LoadLevel::Normal
    }
}

/// The size of the query pool that the policy recommends for `active`
/// requests: half the pool under low load, but at least two; under normal
/// load half the pool below five requests and two thirds of it from five on;
/// the whole pool under high load; in every case held within two and the
/// pool's bound.
pub open spec fn recommended_threads(active: usize, config: LoadBalancerConfig) -> int {
    let pool = config.max_query_threads as int;
    let wanted = match load_level_of(active, config) {
        LoadLevel::Low => if pool / 2 >= 2 {
            pool / 2
        } else {
            2
        },
        LoadLevel::Normal => if active < 5 {
            pool / 2
        } else {
            pool * 2 / 3
        },
        LoadLevel::High => pool,
    };
    if wanted < 2 {
        2
    } else if wanted > pool {
        pool
    } else {
        wanted
    }
}

/// What is left of the whole budget once `query_threads` are taken for the
/// query pool, and never less than one.
pub open spec fn compute_share(config: LoadBalancerConfig, query_threads: usize) -> int {
    let rest = config.max_compute_threads + config.max_query_threads - query_threads;
    if rest >= 1 {
        rest
    } else {
        1
    }
}

/// The count of requests in flight after one more has entered.
pub open spec fn count_after_entry(active: usize) -> usize {
    if active == usize::MAX {
        0
    } else {
        (active + 1) as usize
    }
}

/// The count of requests in flight after one has left.
pub open spec fn count_after_exit(active: usize) -> usize {
    if active == 0 {
        usize::MAX
    } else {
        (active - 1) as usize
    }
}

/// The history after `sample` is appended: the oldest sample leaves once the
/// length has passed the capacity.
pub open spec fn history_after(history: Seq<usize>, sample: usize) -> Seq<usize> {
    let longer = history.push(sample);
    if longer.len() > HISTORY_CAPACITY {
        longer.remove(0)
    } else {
        longer
    }
}

/// The history after each of `samples` is appended in turn.
pub open spec fn history_after_all(history: Seq<usize>, samples: Seq<usize>) -> Seq<usize>
    decreases samples.len(),
{
    if samples.len() == 0 {
        history
    } else {
        history_after(history_after_all(history, samples.drop_last()), samples.last())
    }
}

/// The last `count` of `samples`, or all of them where they are fewer.
pub open spec fn most_recent(samples: Seq<usize>, count: nat) -> Seq<usize> {
    if samples.len() <= count {
        samples
    } else {
        samples.subrange(samples.len() - count, samples.len() as int)
    }
}

/// The count of requests in flight after a series of events, each the
/// entry of a request (`true`) or the exit of one (`false`).
pub open spec fn count_after_events(active: usize, events: Seq<bool>) -> usize
    decreases events.len(),
{
    if events.len() == 0 {
        active
    } else {
        let before = count_after_events(active, events.drop_last());
        if events.last() {
            count_after_entry(before)
        } else {
            count_after_exit(before)
        }
    }
}

/// The number of entries among `events` less the number of exits.
pub open spec fn net_entries(events: Seq<bool>) -> int
    decreases events.len(),
{
    if events.len() == 0 {
        0
    } else {
        net_entries(events.drop_last()) + if events.last() {
            1int
        } else {
            -1int
        }
    }
}

/// The sum of the samples.
pub open spec fn series_sum(samples: Seq<usize>) -> int
    decreases samples.len(),
{
    if samples.len() == 0 {
        0
    } else {
        series_sum(samples.drop_last()) + samples.last()
    }
}

/// The mean of the samples, rounded down; zero for no samples.
pub open spec fn series_average(samples: Seq<usize>) -> int {
    if samples.len() == 0 {
        0
    } else {
        series_sum(samples) / (samples.len() as int)
    }
}

/// A change of the recommended query pool, with what caused it.
#[derive(Debug, Clone, Copy, PartialEq, Eq, Structural)]
pub struct Adjustment {
    pub previous_threads: usize,
    pub new_threads: usize,
    pub load_level: LoadLevel,
    pub active_requests: usize,
}

/// What one tick of the policy observed and decided.
#[derive(Debug, Clone, Copy)]
pub struct TickReport {
    pub load_level: LoadLevel,
    pub active_requests: usize,
    pub worker_threads: usize,
    /// Present exactly when the tick changed the recommendation.
    pub adjustment: Option<Adjustment>,
}

/// A snapshot of the balancer for reporting.
#[derive(Debug, Clone, Copy)]
pub struct LoadBalancerStats {
    pub active_requests: usize,
    pub load_level: LoadLevel,
    pub recommended_compute_threads: usize,
    pub recommended_query_threads: usize,
    pub average_load: usize,
    pub history_size: usize,
}

/// Counter of requests in flight, the stored recommendation, and the history
/// of load samples.
#[derive(Debug)]
pub struct LoadBalancer {
    active_requests: usize,
    current_worker_threads: usize,
    load_history: DashMap<String, Vec<usize>>,
    config: LoadBalancerConfig,
}

/// What a `LoadBalancer` holds, as mathematical values.
pub struct LoadBalancerView {
    pub active_requests: usize,
    pub current_worker_threads: usize,
    pub load_history: Seq<usize>,
    pub config: LoadBalancerConfig,
}

impl LoadBalancerView {
    /// The configuration is usable, the recommendation lies within two and
    /// the query pool's bound, and the history is within its capacity.
    pub open spec fn wf(&self) -> bool {
        &&& self.config.valid()
        &&& 2 <= self.current_worker_threads <= self.config.max_query_threads
        &&& self.load_history.len() <= HISTORY_CAPACITY
    }

    /// The state after the current load is recorded.
    pub open spec fn recorded(self) -> LoadBalancerView {
        LoadBalancerView {
            load_history: history_after(self.load_history, self.active_requests),
            ..self
        }
    }

    /// The state after the recommendation is recomputed.
    pub open spec fn adjusted(self) -> LoadBalancerView {
        LoadBalancerView {
            current_worker_threads: recommended_threads(
                self.active_requests,
                self.config,
            ) as usize,
            ..self
        }
    }

    /// The load level of the state.
    pub open spec fn load_level(self) -> LoadLevel {
        load_level_of(self.active_requests, self.config)
    }

    /// The change that recomputing the recommendation makes to the state:
    /// none where the stored recommendation already is the recomputed one.
    pub open spec fn adjustment(self) -> Option<Adjustment> {
        let threads = recommended_threads(self.active_requests, self.config) as usize;
        if threads != self.current_worker_threads {
            Some(
                Adjustment {
                    previous_threads: self.current_worker_threads,
                    new_threads: threads,
                    load_level: self.load_level(),
                    active_requests: self.active_requests,
                },
            )
        } else {
            None
        }
    }
}

impl View for LoadBalancer {
    type V = LoadBalancerView;

    closed spec fn view(&self) -> LoadBalancerView {
        let stored = sample_series(self.load_history);
        LoadBalancerView {
            active_requests: self.active_requests,
            current_worker_threads: self.current_worker_threads,
            load_history: if stored.contains_key(history_name()) {
                stored[history_name()]
            } else {
                Seq::empty()
            },
            config: self.config,
        }
    }
}

impl LoadBalancer {
    /// The invariant of the balancer, over its view.
    pub open spec fn wf(&self) -> bool {
        self@.wf()
    }

    /// A balancer with no request in flight, an empty history, and the whole
    /// query pool recommended.
    pub fn new(config: LoadBalancerConfig) -> (balancer: Self)
        requires
            config.valid(),
        ensures
            balancer.wf(),
            balancer@.active_requests == 0,
            balancer@.current_worker_threads == config.max_query_threads,
            balancer@.load_history == Seq::<usize>::empty(),
            balancer@.config == config,
    {
        let initial_threads: usize = config.max_query_threads;
        LoadBalancer {
            active_requests: 0,
            current_worker_threads: initial_threads,
            load_history: series_new(),
            config,
        }
    }

    /// The configuration that the balancer was made with.
    pub fn config(&self) -> (config: LoadBalancerConfig)
        ensures
            config == self@.config,
    {
        self.config
    }

    /// Counts one more request in flight. The count wraps at the end of the
    /// machine word.
    pub fn increment_request(&mut self)
        ensures
            final(self)@ == (LoadBalancerView {
                active_requests: count_after_entry(old(self)@.active_requests),
                ..old(self)@
            }),
    {
        self.active_requests = self.active_requests.wrapping_add(1);
    }

    /// Counts one request in flight less. The count wraps below zero.
    pub fn decrement_request(&mut self)
        ensures
            final(self)@ == (LoadBalancerView {
                active_requests: count_after_exit(old(self)@.active_requests),
                ..old(self)@
            }),
    {
        self.active_requests = self.active_requests.wrapping_sub(1);
    }

    /// The number of requests in flight.
    pub fn get_active_requests(&self) -> (active: usize)
        ensures
            active == self@.active_requests,
    {
        self.active_requests
    }

    /// The load level of the current count of requests.
    pub fn get_load_level(&self) -> (level: LoadLevel)
        ensures
            level == load_level_of(self@.active_requests, self@.config),
    {
        let current: usize = self.get_active_requests();
        if current < self.config.low_load_threshold {
            LoadLevel::Low
        } else if current > self.config.high_load_threshold {
            LoadLevel::High
        } else {
            LoadLevel::Normal
        }
    }

    /// The stored recommendation for the query pool.
    pub fn get_current_worker_threads(&self) -> (threads: usize)
        ensures
            threads == self@.current_worker_threads,
    {
        self.current_worker_threads
    }

    /// Recomputes the recommendation from the current load alone and stores
    /// it. Returns the recommendation and, exactly where it differs from the
    /// one that was stored, the change with what caused it.
    pub fn adjust_worker_threads(&mut self) -> (outcome: (usize, Option<Adjustment>))
        requires
            old(self).wf(),
        ensures
            final(self).wf(),
            final(self)@ == old(self)@.adjusted(),
            outcome.0 == recommended_threads(old(self)@.active_requests, old(self)@.config),
            2 <= outcome.0 <= old(self)@.config.max_query_threads,
            outcome.1 == old(self)@.adjustment(),
    {
        let current_load: usize = self.get_active_requests();
        let load_level = self.get_load_level();
        let current_threads: usize = self.get_current_worker_threads();
        let pool: usize = self.config.max_query_threads;

        let wanted: usize = match load_level {
            LoadLevel::Low => {
                if pool / 2 >= 2 {
                    pool / 2
                } else {
                    2
                }
            },
            LoadLevel::Normal => {
                if current_load < 5 {
                    pool / 2
                } else {
                    two_thirds(pool)
                }
            },
            LoadLevel::High => pool,
        };

        let new_threads: usize = if wanted < 2 {
            2
        } else if wanted > pool {
            pool
        } else {
            wanted
        };

        if new_threads != current_threads {
            self.current_worker_threads = new_threads;
            let change = Adjustment {
                previous_threads: current_threads,
                new_threads,
                load_level,
                active_requests: current_load,
            };
            (new_threads, Some(change))
        } else {
            (new_threads, None)
        }
    }

    /// The threads recommended for compute work: the budget that the query
    /// pool leaves, and at least one.
    pub fn calculate_compute_threads(&self) -> (threads: usize)
        requires
            self.wf(),
        ensures
            threads == compute_share(self@.config, self@.current_worker_threads),
            threads >= 1,
    {
        let total_threads: usize = self.config.max_compute_threads + self.config.max_query_threads;
        let query_threads: usize = self.get_current_worker_threads();
        let rest: usize = total_threads.saturating_sub(query_threads);
        if rest >= 1 {
            rest
        } else {
            1
        }
    }

    /// The threads recommended for query work: the stored recommendation.
    pub fn calculate_query_threads(&self) -> (threads: usize)
        ensures
            threads == self@.current_worker_threads,
    {
        self.get_current_worker_threads()
    }

    /// Appends the current count of requests to the history; once the
    /// history has passed its capacity the oldest sample leaves.
    pub fn record_load_history(&mut self)
        requires
            old(self).wf(),
        ensures
            final(self).wf(),
            final(self)@ == old(self)@.recorded(),
    {
        let current: usize = self.get_active_requests();
        let mut samples: Vec<usize> = match series_get(&self.load_history, "active_requests") {
            Some(stored) => stored,
            None => Vec::new(),
        };
        samples.push(current);
        if samples.len() > HISTORY_CAPACITY {
            samples.remove(0);
        }
        series_insert(&mut self.load_history, String::from_str("active_requests"), samples);
    }

    /// The recorded samples, oldest first.
    pub fn load_history(&self) -> (samples: Vec<usize>)
        ensures
            samples@ == self@.load_history,
    {
        match series_get(&self.load_history, "active_requests") {
            Some(stored) => stored,
            None => Vec::new(),
        }
    }

    /// One step of the control loop: records the load, recomputes the
    /// recommendation, and reports what it saw and whether it changed
    /// anything.
    pub fn tick(&mut self) -> (report: TickReport)
        requires
            old(self).wf(),
        ensures
            final(self).wf(),
            final(self)@ == old(self)@.recorded().adjusted(),
            report.load_level == old(self)@.load_level(),
            report.active_requests == old(self)@.active_requests,
            report.worker_threads == final(self)@.current_worker_threads,
            report.adjustment == old(self)@.adjustment(),
    {
        self.record_load_history();
        let (worker_threads, adjustment) = self.adjust_worker_threads();
        let load_level = self.get_load_level();
        let active_requests: usize = self.get_active_requests();
        TickReport { load_level, active_requests, worker_threads, adjustment }
    }

    /// The current load, the two recommendations, and the mean and length of
    /// the history.
    pub fn get_stats(&self) -> (stats: LoadBalancerStats)
        requires
            self.wf(),
        ensures
            stats.active_requests == self@.active_requests,
            stats.load_level == self@.load_level(),
            stats.recommended_compute_threads == compute_share(
                self@.config,
                self@.current_worker_threads,
            ),
            stats.recommended_query_threads == self@.current_worker_threads,
            stats.average_load == series_average(self@.load_history),
            stats.history_size == self@.load_history.len(),
            stats.history_size <= HISTORY_CAPACITY,
    {
        let current: usize = self.get_active_requests();
        let level = self.get_load_level();
        let stored = series_get(&self.load_history, "active_requests");
        let (avg_load, history_size) = match stored {
            Some(samples) => (average(&samples), samples.len()),
            None => (0, 0),
        };
        LoadBalancerStats {
            active_requests: current,
            load_level: level,
            recommended_compute_threads: self.calculate_compute_threads(),
            recommended_query_threads: self.calculate_query_threads(),
            average_load: avg_load,
            history_size,
        }
    }
}

/// The recommendation always lies within two and the bound of the query
/// pool, whatever the number of requests in flight.
pub proof fn lemma_recommendation_in_range(active: usize, config: LoadBalancerConfig)
    requires
        config.max_query_threads >= 2,
    ensures
        2 <= recommended_threads(active, config) <= config.max_query_threads,
{
}

/// The history is a window over what was recorded: after any series of
/// samples it holds the most recent ones, up to its capacity, of what it
/// held before followed by the series.
pub proof fn lemma_history_keeps_most_recent(history: Seq<usize>, samples: Seq<usize>)
    requires
        history.len() <= HISTORY_CAPACITY,
    ensures
        history_after_all(history, samples) == most_recent(
            history + samples,
            HISTORY_CAPACITY as nat,
        ),
        history_after_all(history, samples).len() <= HISTORY_CAPACITY,
    decreases samples.len(),
{
    if samples.len() == 0 {
        assert(history + samples == history);
    } else {
        let front = samples.drop_last();
        lemma_history_keeps_most_recent(history, front);
        let window = history_after_all(history, front);
        assert((history + front).push(samples.last()) == history + samples);
        assert(history_after(window, samples.last()) == most_recent(
            history + samples,
            HISTORY_CAPACITY as nat,
        ));
    }
}

/// The counter wraps like the machine word that it is: after a series of
/// events it holds the start plus the entries less the exits, modulo the
/// size of the word.
pub proof fn lemma_count_after_events(active: usize, events: Seq<bool>)
    ensures
        count_after_events(active, events) == (active + net_entries(events)) % (usize::MAX + 1),
    decreases events.len(),
{
    let modulus = usize::MAX + 1;
    if events.len() == 0 {
        lemma_small_mod(active as nat, modulus as nat);
    } else {
        let front = events.drop_last();
        lemma_count_after_events(active, front);
        let before = count_after_events(active, front);
        let sum = active + net_entries(front);
        if events.last() {
            lemma_add_mod_noop_right(1, sum, modulus);
            if before == usize::MAX {
                lemma_mod_self_0(modulus);
            } else {
                lemma_small_mod((before + 1) as nat, modulus as nat);
            }
            assert(1 + sum == active + net_entries(events));
        } else {
            lemma_add_mod_noop_right(-1, sum, modulus);
            if before == 0 {
                lemma_mod_add_multiples_vanish(-1, modulus);
                lemma_small_mod((modulus - 1) as nat, modulus as nat);
            } else {
                lemma_small_mod((before - 1) as nat, modulus as nat);
            }
            assert(-1 + sum == active + net_entries(events));
        }
    }
}

/// Balanced entries and exits restore the counter: after any series of
/// events with as many exits as entries, in whatever order, the count of
/// requests in flight is what it was before.
pub proof fn lemma_balanced_events_restore_count(active: usize, events: Seq<bool>)
    requires
        net_entries(events) == 0,
    ensures
        count_after_events(active, events) == active,
{
    lemma_count_after_events(active, events);
    lemma_small_mod(active as nat, (usize::MAX + 1) as nat);
}

/// Two thirds of `pool`, rounded down.
fn two_thirds(pool: usize) -> (share: usize)
    ensures
        share == pool * 2 / 3,
{
    let doubled: u128 = (pool as u128) * 2;
    (doubled / 3) as usize
}

/// The mean of `samples`, rounded down; zero for no samples.
fn average(samples: &Vec<usize>) -> (mean: usize)
    ensures
        mean == series_average(samples@),
{
    if samples.len() == 0 {
        return 0;
    }
    let mut total: u128 = 0;
    let mut i: usize = 0;
    while i < samples.len()
        invariant
            i <= samples.len(),
            total == series_sum(samples@.take(i as int)),
            total <= i * usize::MAX,
        decreases samples.len() - i,
    {
        proof {
            let next = samples@.take(i + 1);
            assert(next.drop_last() == samples@.take(i as int));
            assert(next.last() == samples@[i as int]);
            assert(i * usize::MAX + usize::MAX == (i + 1) * usize::MAX) by (nonlinear_arith);
            assert((i + 1) * usize::MAX <= usize::MAX * usize::MAX) by (nonlinear_arith)
                requires
                    i + 1 <= usize::MAX,
            ;
        }
        total = total + samples[i] as u128;
        i = i + 1;
    }
    proof {
        assert(samples@.take(samples.len() as int) == samples@);
        assert(total / (samples.len() as u128) <= usize::MAX) by (nonlinear_arith)
            requires
                total <= samples.len() * usize::MAX,
                samples.len() > 0,
        ;
    }
    (total / (samples.len() as u128)) as usize
}

} // verus!
