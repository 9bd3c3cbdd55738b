use real_time_system::factorization::simple::{factorize, factorize_fast};

#[test]
fn test_factorize() {
    assert_eq!(factorize(2), vec![2]);
    assert_eq!(factorize(15), vec![3, 5]);
    assert_eq!(factorize(84), vec![2, 2, 3, 7]);
    assert_eq!(factorize(997), vec![997]);
}

#[test]
fn test_factorize_fast() {
    assert_eq!(factorize_fast(84), vec![2, 2, 3, 7]);
    assert_eq!(factorize_fast(100), vec![2, 2, 5, 5]);
}

#[test]
fn factorize_one_has_no_factors() {
    assert_eq!(factorize(1), Vec::<u64>::new());
}

#[test]
fn factorize_powers_and_squares() {
    assert_eq!(factorize(1024), vec![2; 10]);
    assert_eq!(factorize(961), vec![31, 31]);
    assert_eq!(factorize(9), vec![3, 3]);
    assert_eq!(factorize(49), vec![7, 7]);
    assert_eq!(factorize(3), vec![3]);
    assert_eq!(factorize(4), vec![2, 2]);
}

#[test]
fn factorize_large_values() {
    assert_eq!(factorize(2147483647), vec![2147483647]);
    assert_eq!(factorize(4 * 2147483647), vec![2, 2, 2147483647]);
    assert_eq!(factorize(1_000_000_007), vec![1_000_000_007]);
    assert_eq!(factorize(600851475143), vec![71, 839, 1471, 6857]);
    assert_eq!(factorize(1u64 << 63), vec![2; 63]);
    assert_eq!(factorize(u64::MAX), vec![3, 5, 17, 257, 641, 65537, 6700417]);
}

#[test]
fn factorize_result_multiplies_back() {
    for n in 1u64..2000 {
        let factors = factorize(n);
        assert_eq!(factors.iter().product::<u64>(), n);
        assert!(factors.windows(2).all(|w| w[0] <= w[1]));
        for &p in &factors {
            assert!(p >= 2);
            assert!((2..p).all(|d| p % d != 0));
        }
    }
}

#[test]
fn factorize_fast_one_has_no_factors() {
    assert_eq!(factorize_fast(1), Vec::<u64>::new());
}

#[test]
fn factorize_fast_small_primes() {
    assert_eq!(factorize_fast(2), vec![2]);
    assert_eq!(factorize_fast(3), vec![3]);
    assert_eq!(factorize_fast(7), vec![7]);
    assert_eq!(factorize_fast(29), vec![29]);
    assert_eq!(factorize_fast(31), vec![31]);
    assert_eq!(factorize_fast(997), vec![997]);
    assert_eq!(factorize_fast(2 * 3 * 5 * 7 * 11 * 13 * 17 * 19 * 23 * 29), vec![
        2, 3, 5, 7, 11, 13, 17, 19, 23, 29
    ]);
}

#[test]
fn factorize_fast_marks_a_large_residual() {
    assert_eq!(factorize_fast(1009), vec![1009, 0]);
    assert_eq!(factorize_fast(2 * 1009), vec![2, 1009, 0]);
    assert_eq!(factorize_fast(1000), vec![2, 2, 2, 5, 5, 5]);
    assert_eq!(factorize_fast(31 * 37), vec![31 * 37, 0]);
    assert_eq!(factorize_fast(12 * 1_000_003), vec![2, 2, 3, 1_000_003, 0]);
}

#[test]
fn factorize_fast_leaves_a_small_composite_residual_unsplit() {
    assert_eq!(factorize_fast(961), vec![961]);
    assert_eq!(factorize_fast(2 * 961), vec![2, 961]);
    assert_eq!(factorize_fast(999), vec![3, 3, 3, 37]);
}

#[test]
fn factorize_fast_agrees_with_factorize_below_the_first_gap() {
    for n in 1u64..961 {
        assert_eq!(factorize_fast(n), factorize(n));
    }
}
