use real_time_system::load_balancer::{
    Adjustment, LoadBalancer, LoadBalancerConfig, LoadLevel, HISTORY_CAPACITY,
};

fn config(low: usize, high: usize, compute: usize, query: usize) -> LoadBalancerConfig {
    LoadBalancerConfig {
        low_load_threshold: low,
        high_load_threshold: high,
        check_interval_ms: 3000,
        max_compute_threads: compute,
        max_query_threads: query,
    }
}

fn with_active(config: LoadBalancerConfig, active: usize) -> LoadBalancer {
    let mut balancer = LoadBalancer::new(config);
    for _ in 0..active {
        balancer.increment_request();
    }
    balancer
}

#[test]
fn default_config_values() {
    let config = LoadBalancerConfig::default();
    assert_eq!(config.low_load_threshold, 5);
    assert_eq!(config.high_load_threshold, 20);
    assert_eq!(config.check_interval_ms, 5000);
    assert_eq!(config.max_compute_threads, 4);
    assert_eq!(config.max_query_threads, 8);
    assert!(config.is_valid());
}

#[test]
fn config_validity() {
    assert!(config(3, 15, 4, 8).is_valid());
    assert!(config(0, 1, 0, 2).is_valid());
    assert!(!config(15, 15, 4, 8).is_valid());
    assert!(!config(16, 15, 4, 8).is_valid());
    assert!(!config(3, 15, 4, 1).is_valid());
    assert!(!config(3, 15, usize::MAX, 8).is_valid());
    assert!(config(3, 15, usize::MAX - 8, 8).is_valid());
}

#[test]
fn new_balancer_starts_idle_with_the_whole_pool() {
    let balancer = LoadBalancer::new(config(3, 15, 4, 8));
    assert_eq!(balancer.get_active_requests(), 0);
    assert_eq!(balancer.get_current_worker_threads(), 8);
    assert_eq!(balancer.calculate_query_threads(), 8);
    assert_eq!(balancer.get_load_level(), LoadLevel::Low);
    assert!(balancer.load_history().is_empty());
    let stats = balancer.get_stats();
    assert_eq!(stats.history_size, 0);
    assert_eq!(stats.average_load, 0);
}

#[test]
fn load_level_boundaries() {
    let cfg = config(3, 15, 4, 8);
    assert_eq!(with_active(cfg, 3).get_load_level(), LoadLevel::Normal);
    assert_eq!(with_active(cfg, 2).get_load_level(), LoadLevel::Low);
    assert_eq!(with_active(cfg, 15).get_load_level(), LoadLevel::Normal);
    assert_eq!(with_active(cfg, 16).get_load_level(), LoadLevel::High);
    assert_eq!(with_active(cfg, 0).get_load_level(), LoadLevel::Low);
    assert_eq!(with_active(cfg, 1000).get_load_level(), LoadLevel::High);
}

#[test]
fn load_level_labels() {
    assert_eq!(LoadLevel::Low.label(), "Low");
    assert_eq!(LoadLevel::Normal.label(), "Normal");
    assert_eq!(LoadLevel::High.label(), "High");
}

#[test]
fn increment_and_decrement_are_balanced() {
    let mut balancer = with_active(config(3, 15, 4, 8), 7);
    balancer.increment_request();
    assert_eq!(balancer.get_active_requests(), 8);
    balancer.increment_request();
    balancer.decrement_request();
    balancer.decrement_request();
    assert_eq!(balancer.get_active_requests(), 7);
    balancer.decrement_request();
    balancer.increment_request();
    assert_eq!(balancer.get_active_requests(), 7);
}

#[test]
fn the_counter_wraps_like_a_machine_word() {
    let mut balancer = LoadBalancer::new(config(3, 15, 4, 8));
    balancer.decrement_request();
    assert_eq!(balancer.get_active_requests(), usize::MAX);
    assert_eq!(balancer.get_load_level(), LoadLevel::High);
    balancer.increment_request();
    assert_eq!(balancer.get_active_requests(), 0);
}

#[test]
fn adjust_under_low_load_halves_the_pool() {
    let mut balancer = with_active(config(3, 15, 4, 8), 2);
    assert_eq!(
        balancer.adjust_worker_threads(),
        (
            4,
            Some(Adjustment {
                previous_threads: 8,
                new_threads: 4,
                load_level: LoadLevel::Low,
                active_requests: 2,
            })
        )
    );
    assert_eq!(balancer.get_current_worker_threads(), 4);
    assert_eq!(balancer.adjust_worker_threads(), (4, None));
    let mut wide = with_active(config(3, 15, 4, 21), 0);
    assert_eq!(wide.adjust_worker_threads().0, 10);
}

#[test]
fn adjust_under_low_load_keeps_two_threads() {
    let mut balancer = with_active(config(3, 15, 4, 3), 0);
    assert_eq!(balancer.adjust_worker_threads().0, 2);
    let mut smallest = with_active(config(3, 15, 4, 2), 0);
    assert_eq!(smallest.adjust_worker_threads().0, 2);
}

#[test]
fn adjust_under_normal_load() {
    let cfg = config(3, 15, 4, 8);
    assert_eq!(with_active(cfg, 3).adjust_worker_threads().0, 4);
    assert_eq!(with_active(cfg, 4).adjust_worker_threads().0, 4);
    assert_eq!(with_active(cfg, 5).adjust_worker_threads().0, 5);
    assert_eq!(with_active(cfg, 15).adjust_worker_threads().0, 5);
    let wide = config(3, 15, 4, 30);
    assert_eq!(with_active(wide, 4).adjust_worker_threads().0, 15);
    assert_eq!(with_active(wide, 10).adjust_worker_threads().0, 20);
}

#[test]
fn adjust_under_normal_load_is_clamped_from_below() {
    let small = config(3, 15, 4, 2);
    assert_eq!(with_active(small, 4).adjust_worker_threads().0, 2);
    assert_eq!(with_active(small, 10).adjust_worker_threads().0, 2);
    let three = config(3, 15, 4, 3);
    assert_eq!(with_active(three, 4).adjust_worker_threads().0, 2);
    assert_eq!(with_active(three, 10).adjust_worker_threads().0, 2);
}

#[test]
fn adjust_under_high_load_takes_the_whole_pool() {
    let mut balancer = with_active(config(3, 15, 4, 8), 16);
    assert_eq!(balancer.adjust_worker_threads(), (8, None));
    assert_eq!(balancer.get_current_worker_threads(), 8);
}

#[test]
fn adjust_stays_in_range_for_any_load() {
    for query in 2usize..40 {
        let cfg = config(3, 15, 4, query);
        for active in [0usize, 1, 2, 3, 4, 5, 6, 14, 15, 16, 17, 100, 5000] {
            let threads = with_active(cfg, active).adjust_worker_threads().0;
            assert!(2 <= threads && threads <= query);
        }
        let mut far = LoadBalancer::new(cfg);
        far.decrement_request();
        assert_eq!(far.get_active_requests(), usize::MAX);
        assert_eq!(far.adjust_worker_threads().0, query);
    }
}

#[test]
fn adjust_with_a_pool_of_the_largest_size() {
    let cfg = config(3, 15, 0, usize::MAX);
    assert_eq!(with_active(cfg, 10).adjust_worker_threads().0, usize::MAX / 3 * 2);
    assert_eq!(with_active(cfg, 4).adjust_worker_threads().0, usize::MAX / 2);
}

#[test]
fn compute_threads_are_what_the_query_pool_leaves() {
    let mut balancer = with_active(config(3, 15, 4, 8), 0);
    assert_eq!(balancer.calculate_compute_threads(), 4);
    balancer.adjust_worker_threads();
    assert_eq!(balancer.calculate_query_threads(), 4);
    assert_eq!(balancer.calculate_compute_threads(), 8);
}

#[test]
fn compute_threads_are_at_least_one() {
    let balancer = LoadBalancer::new(config(3, 15, 0, 2));
    assert_eq!(balancer.calculate_query_threads(), 2);
    assert_eq!(balancer.calculate_compute_threads(), 1);
}

#[test]
fn history_records_the_current_load() {
    let mut balancer = with_active(config(3, 15, 4, 8), 6);
    balancer.record_load_history();
    balancer.increment_request();
    balancer.record_load_history();
    balancer.record_load_history();
    assert_eq!(balancer.load_history(), vec![6, 7, 7]);
    let stats = balancer.get_stats();
    assert_eq!(stats.history_size, 3);
    assert_eq!(stats.average_load, (6 + 7 + 7) / 3);
    assert_eq!(stats.active_requests, 7);
    assert_eq!(stats.load_level, LoadLevel::Normal);
}

#[test]
fn history_never_exceeds_its_capacity() {
    assert_eq!(HISTORY_CAPACITY, 100);
    let mut balancer = LoadBalancer::new(config(3, 15, 4, 8));
    for step in 1..=150usize {
        balancer.increment_request();
        assert_eq!(balancer.get_active_requests(), step);
        balancer.record_load_history();
        assert!(balancer.get_stats().history_size <= 100);
    }
    let stats = balancer.get_stats();
    assert_eq!(stats.history_size, 100);
    // The samples 51..=150 are kept: their mean is 100.5.
    assert_eq!(stats.average_load, 100);
    assert_eq!(balancer.load_history(), (51..=150usize).collect::<Vec<usize>>());
}

#[test]
fn history_fills_up_to_exactly_its_capacity() {
    let mut balancer = with_active(config(3, 15, 4, 8), 9);
    for _ in 0..100 {
        balancer.record_load_history();
    }
    assert_eq!(balancer.get_stats().history_size, 100);
    balancer.decrement_request();
    balancer.record_load_history();
    let stats = balancer.get_stats();
    assert_eq!(stats.history_size, 100);
    assert_eq!(stats.average_load, (99 * 9 + 8) / 100);
}

#[test]
fn average_of_large_samples_does_not_overflow() {
    let mut balancer = LoadBalancer::new(config(3, 15, 4, 8));
    balancer.decrement_request();
    balancer.record_load_history();
    balancer.record_load_history();
    balancer.decrement_request();
    balancer.record_load_history();
    let stats = balancer.get_stats();
    assert_eq!(stats.history_size, 3);
    assert_eq!(stats.average_load, usize::MAX - 1);
}

#[test]
fn stats_report_the_recommendations() {
    let mut balancer = with_active(config(3, 15, 4, 8), 20);
    balancer.adjust_worker_threads();
    let stats = balancer.get_stats();
    assert_eq!(stats.active_requests, 20);
    assert_eq!(stats.load_level, LoadLevel::High);
    assert_eq!(stats.recommended_query_threads, 8);
    assert_eq!(stats.recommended_compute_threads, 4);
    assert_eq!(stats.average_load, 0);
    assert_eq!(stats.history_size, 0);
}

#[test]
fn tick_records_adjusts_and_reports_a_change() {
    let mut balancer = with_active(config(3, 15, 4, 8), 2);
    let report = balancer.tick();
    assert_eq!(report.load_level, LoadLevel::Low);
    assert_eq!(report.active_requests, 2);
    assert_eq!(report.worker_threads, 4);
    assert_eq!(
        report.adjustment,
        Some(Adjustment {
            previous_threads: 8,
            new_threads: 4,
            load_level: LoadLevel::Low,
            active_requests: 2,
        })
    );
    assert_eq!(balancer.get_current_worker_threads(), 4);
    assert_eq!(balancer.get_stats().history_size, 1);
    assert_eq!(balancer.get_stats().average_load, 2);
}

#[test]
fn tick_reports_no_change_when_the_recommendation_stands() {
    let mut balancer = with_active(config(3, 15, 4, 8), 2);
    balancer.tick();
    let report = balancer.tick();
    assert_eq!(report.adjustment, None);
    assert_eq!(report.worker_threads, 4);
    assert_eq!(balancer.get_stats().history_size, 2);
    let mut busy = with_active(config(3, 15, 4, 8), 16);
    let report = busy.tick();
    assert_eq!(report.load_level, LoadLevel::High);
    assert_eq!(report.adjustment, None);
    assert_eq!(report.worker_threads, 8);
}

#[test]
fn ticks_follow_the_load() {
    let mut balancer = LoadBalancer::new(config(3, 15, 4, 8));
    assert_eq!(balancer.tick().worker_threads, 4);
    for _ in 0..10 {
        balancer.increment_request();
    }
    let report = balancer.tick();
    assert_eq!(report.worker_threads, 5);
    assert_eq!(report.adjustment.map(|a| (a.previous_threads, a.new_threads)), Some((4, 5)));
    for _ in 0..10 {
        balancer.increment_request();
    }
    let report = balancer.tick();
    assert_eq!(report.worker_threads, 8);
    assert_eq!(report.adjustment.map(|a| a.load_level), Some(LoadLevel::High));
    assert_eq!(balancer.get_stats().average_load, (0 + 10 + 20) / 3);
}

#[test]
fn the_balancer_keeps_its_configuration() {
    let balancer = LoadBalancer::new(config(3, 15, 4, 8));
    let kept = balancer.config();
    assert_eq!(kept.low_load_threshold, 3);
    assert_eq!(kept.high_load_threshold, 15);
    assert_eq!(kept.check_interval_ms, 3000);
    assert_eq!(kept.max_compute_threads, 4);
    assert_eq!(kept.max_query_threads, 8);
    let default = LoadBalancer::new(LoadBalancerConfig::default());
    assert_eq!(default.get_current_worker_threads(), 8);
    assert_eq!(default.config().check_interval_ms, 5000);
}
