//! Trial division.

use crate::factorization::primes::{
    all_prime, ascending, divides, is_fast_factorization, is_prime, is_prime_factorization,
    is_small_prime, lemma_divides_transitive, lemma_prime_by_trial, lemma_product_push,
    lemma_all_prime_push, lemma_ascending_push, lemma_quotient_divides,
    lemma_residual_below_square, product, residual_tail, splits_small_primes,
};
use vstd::arithmetic::div_mod::lemma_fundamental_div_mod;
use vstd::prelude::*;

verus! {

/// Whether the square of `i` is at most `rest`.
fn square_at_most(i: u64, rest: u64) -> (within: bool)
    ensures
        within == (i * i <= rest),
{
    assert(i * i <= 0xffff_ffff_ffff_ffff * 0xffff_ffff_ffff_ffff) by (nonlinear_arith)
        requires
            0 <= i <= 0xffff_ffff_ffff_ffff,
    ;
    (i as u128) * (i as u128) <= rest as u128
}

/// The prime factors of `n` in ascending order, each as often as it
/// divides `n`; none for one.
pub fn factorize(n: u64) -> (factors: Vec<u64>)
    requires
        n >= 1,
    ensures
        is_prime_factorization(n, factors@),
{
    let mut factors: Vec<u64> = Vec::new();
    let mut rest: u64 = n;

    while rest % 2 == 0
        invariant
            rest >= 1,
            product(factors@) * rest == n,
            forall|k: int| 0 <= k < factors.len() ==> factors[k] == 2,
        decreases rest,
    {
        proof {
            lemma_product_push(factors@, 2);
            lemma_fundamental_div_mod(rest as int, 2);
            assert(product(factors@) * 2 * (rest / 2) == product(factors@) * rest)
                by (nonlinear_arith)
                requires
                    rest == 2 * (rest / 2),
            ;
        }
        factors.push(2);
        rest = rest / 2;
    }

    assert(is_prime(2));
    let mut i: u64 = 3;
    while square_at_most(i, rest)
        invariant
            rest >= 1,
            i >= 3,
            i % 2 == 1,
            product(factors@) * rest == n,
            all_prime(factors@),
            ascending(factors@),
            forall|k: int| 0 <= k < factors.len() ==> factors[k] < i,
            forall|d: int| 2 <= d < i ==> !#[trigger] divides(d, rest as int),
        decreases u64::MAX - i,
    {
        assert(i < 0x1_0000_0000) by (nonlinear_arith)
            requires
                i * i <= rest,
                rest <= 0xffff_ffff_ffff_ffff,
        ;
        while rest % i == 0
            invariant
                rest >= 1,
                i >= 3,
                product(factors@) * rest == n,
                all_prime(factors@),
                ascending(factors@),
                forall|k: int| 0 <= k < factors.len() ==> factors[k] <= i,
                forall|d: int| 2 <= d < i ==> !#[trigger] divides(d, rest as int),
            decreases rest,
        {
            proof {
                assert forall|d: int| 2 <= d < i implies !#[trigger] divides(d, i as int) by {
                    if divides(d, i as int) {
                        lemma_divides_transitive(d, i as int, rest as int);
                    }
                }
                assert(is_prime(i as int));
                lemma_quotient_divides(i as int, rest as int);
                assert forall|d: int| 2 <= d < i implies !#[trigger] divides(
                    d,
                    (rest / i) as int,
                ) by {
                    if divides(d, (rest / i) as int) {
                        lemma_divides_transitive(d, (rest / i) as int, rest as int);
                    }
                }
                lemma_all_prime_push(factors@, i);
                lemma_ascending_push(factors@, i);
                lemma_product_push(factors@, i);
                assert(product(factors@) * i * (rest / i) == product(factors@) * rest)
                    by (nonlinear_arith)
                    requires
                        i * (rest / i) == rest,
                ;
                assert(rest / i < rest) by (nonlinear_arith)
                    requires
                        i * (rest / i) == rest,
                        i >= 3,
                        rest >= 1,
                ;
            }
            factors.push(i);
            rest = rest / i;
        }
        proof {
            assert forall|d: int| 2 <= d < i + 2 implies !#[trigger] divides(d, rest as int) by {
                if d == i + 1 && divides(d, rest as int) {
                    assert(divides(2, d));
                    lemma_divides_transitive(2, d, rest as int);
                }
            }
        }
        i = i + 2;
    }

    if rest > 1 {
        proof {
            lemma_prime_by_trial(rest as int, i as int);
            if rest < i {
                assert(divides(rest as int, rest as int));
            }
            lemma_all_prime_push(factors@, rest);
            lemma_ascending_push(factors@, rest);
            lemma_product_push(factors@, rest);
        }
        factors.push(rest);
    }
    assert(all_prime(factors@));
    assert(ascending(factors@));
    assert(product(factors@) == n);
    factors
}

/// The fast method: divides out the primes below thirty and reports what
/// is left as one entry, followed by a zero where it is a thousand or more.
/// The result may leave a composite part unsplit.
pub fn factorize_fast(n: u64) -> (factors: Vec<u64>)
    requires
        n >= 1,
    ensures
        is_fast_factorization(n, factors@),
{
    let mut factors: Vec<u64> = Vec::new();
    let mut rest: u64 = n;
    let small_primes: [u64; 10] = [2, 3, 5, 7, 11, 13, 17, 19, 23, 29];
    let ghost mut bound: int = 1;
    let mut k: usize = 0;

    while k < 10
        invariant_except_break
            k <= 10,
            bound == (if k == 0 {
                1
            } else {
                small_primes[k - 1] as int
            }),
        invariant
            small_primes@ == seq![2u64, 3, 5, 7, 11, 13, 17, 19, 23, 29],
            rest >= 1,
            product(factors@) * rest == n,
            forall|i: int| 0 <= i < factors.len() ==> is_small_prime(#[trigger] factors[i] as int),
            ascending(factors@),
            forall|i: int| 0 <= i < factors.len() ==> factors[i] <= bound,
            forall|p: int| is_small_prime(p) && p <= bound ==> !#[trigger] divides(p, rest as int),
        ensures
            bound == 29 || (is_small_prime(bound) && bound * bound > rest),
        decreases 10 - k,
    {
        let p: u64 = small_primes[k];
        assert(k == 0 || k == 1 || k == 2 || k == 3 || k == 4 || k == 5 || k == 6 || k == 7 || k
            == 8 || k == 9);
        assert(is_small_prime(p as int));
        assert(forall|q: int| is_small_prime(q) && q <= p ==> q == p || q <= bound);
        while rest % p == 0
            invariant
                rest >= 1,
                is_small_prime(p as int),
                bound < p,
                product(factors@) * rest == n,
                forall|i: int|
                    0 <= i < factors.len() ==> is_small_prime(#[trigger] factors[i] as int),
                ascending(factors@),
                forall|i: int| 0 <= i < factors.len() ==> factors[i] <= p,
                forall|q: int|
                    is_small_prime(q) && q <= bound ==> !#[trigger] divides(q, rest as int),
            decreases rest,
        {
            proof {
                lemma_quotient_divides(p as int, rest as int);
                assert forall|q: int| is_small_prime(q) && q <= bound implies !#[trigger] divides(
                    q,
                    (rest / p) as int,
                ) by {
                    if divides(q, (rest / p) as int) {
                        lemma_divides_transitive(q, (rest / p) as int, rest as int);
                    }
                }
                lemma_ascending_push(factors@, p);
                lemma_product_push(factors@, p);
                assert(product(factors@) * p * (rest / p) == product(factors@) * rest)
                    by (nonlinear_arith)
                    requires
                        p * (rest / p) == rest,
                ;
                assert(rest / p < rest) by (nonlinear_arith)
                    requires
                        p * (rest / p) == rest,
                        p >= 2,
                        rest >= 1,
                ;
            }
            factors.push(p);
            rest = rest / p;
        }
        proof {
            bound = p as int;
        }
        if p * p > rest {
            break ;
        }
        k = k + 1;
    }

    let ghost before = factors@;
    if rest > 1 && rest < 1000 {
        factors.push(rest);
    } else if rest > 1 {
        factors.push(rest);
        factors.push(0);
    }
    proof {
        if rest >= 2 && bound * bound > rest {
            lemma_residual_below_square(rest as int, bound);
        }
        if rest >= 2 && bound * bound > rest && is_small_prime(rest as int) {
            let small = before.push(rest);
            lemma_product_push(before, rest);
            lemma_ascending_push(before, rest);
            assert(factors@ == small + residual_tail(1));
            assert(splits_small_primes(n, factors@, small, 1));
        } else {
            assert(factors@ == before + residual_tail(rest));
            assert(splits_small_primes(n, factors@, before, rest));
        }
    }
    factors
}

} // verus!
