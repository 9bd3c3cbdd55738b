//! Divisibility, primes and products: the vocabulary in which the
//! factorization routines state what they return.

use vstd::arithmetic::div_mod::{
    lemma_fundamental_div_mod, lemma_mod_multiples_basic, lemma_small_mod,
};
use vstd::arithmetic::mul::{lemma_mul_is_associative, lemma_mul_is_commutative};
use vstd::prelude::*;

verus! {

/// `d` divides `n`.
pub open spec fn divides(d: int, n: int) -> bool {
    n % d == 0
}

/// `p` is at least two and nothing between one and `p` divides it.
pub open spec fn is_prime(p: int) -> bool {
    &&& p >= 2
    &&& forall|d: int| 2 <= d < p ==> !#[trigger] divides(d, p)
}

/// The product of the numbers in `factors`; one for none.
pub open spec fn product(factors: Seq<u64>) -> int
    decreases factors.len(),
{
    if factors.len() == 0 {
        1
    } else {
        product(factors.drop_last()) * factors.last()
    }
}

/// No number in `factors` is larger than one that follows it.
pub open spec fn ascending(factors: Seq<u64>) -> bool {
    forall|i: int, j: int| 0 <= i <= j < factors.len() ==> factors[i] <= factors[j]
}

/// Every number in `factors` is prime.
pub open spec fn all_prime(factors: Seq<u64>) -> bool {
    forall|i: int| 0 <= i < factors.len() ==> is_prime(#[trigger] factors[i] as int)
}

/// `factors` lists the prime factors of `n` in ascending order, each as
/// often as it divides `n`.
pub open spec fn is_prime_factorization(n: u64, factors: Seq<u64>) -> bool {
    &&& all_prime(factors)
    &&& ascending(factors)
    &&& product(factors) == n
}

/// `p` is one of the ten primes below thirty.
pub open spec fn is_small_prime(p: int) -> bool {
    p == 2 || p == 3 || p == 5 || p == 7 || p == 11 || p == 13 || p == 17 || p == 19 || p == 23
        || p == 29
}

/// What the fast method appends for the part `rest` that it did not split:
/// nothing for one, the part alone below a thousand, and from a thousand on
/// the part followed by a zero that marks it as unresolved.
pub open spec fn residual_tail(rest: u64) -> Seq<u64> {
    if rest <= 1 {
        Seq::empty()
    } else if rest < 1000 {
        seq![rest]
    } else {
        seq![rest, 0]
    }
}

/// `factors` is `small` followed by the tail for `rest`, where `small`
/// lists in ascending order the primes below thirty that divide `n`, each
/// as often as it divides `n`, and `rest` is what they leave of `n`.
pub open spec fn splits_small_primes(
    n: u64,
    factors: Seq<u64>,
    small: Seq<u64>,
    rest: u64,
) -> bool {
    &&& factors == small + residual_tail(rest)
    &&& forall|i: int| 0 <= i < small.len() ==> is_small_prime(#[trigger] small[i] as int)
    &&& ascending(small)
    &&& product(small) * rest == n
    &&& forall|p: int| is_small_prime(p) ==> !#[trigger] divides(p, rest as int)
}

/// `factors` is what the fast method gives for `n`: the prime factors of
/// `n` below thirty, then what is left of `n` as a single entry, marked by
/// a zero where it is a thousand or more. The entry that is left need not
/// be prime.
pub open spec fn is_fast_factorization(n: u64, factors: Seq<u64>) -> bool {
    exists|small: Seq<u64>, rest: u64| #[trigger] splits_small_primes(n, factors, small, rest)
}

/// Divisibility carries over from a divisor to what it divides.
pub proof fn lemma_divides_transitive(a: int, b: int, c: int)
    requires
        a > 0,
        b > 0,
        divides(a, b),
        divides(b, c),
    ensures
        divides(a, c),
{
    lemma_fundamental_div_mod(b, a);
    lemma_fundamental_div_mod(c, b);
    let k = b / a;
    let m = c / b;
    assert(c == (a * k) * m);
    lemma_mul_is_associative(a, k, m);
    lemma_mul_is_commutative(a, k * m);
    lemma_mod_multiples_basic(k * m, a);
}

/// The quotient by a divisor is a divisor too, and the two multiply back.
pub proof fn lemma_quotient_divides(d: int, n: int)
    requires
        d > 0,
        n > 0,
        divides(d, n),
    ensures
        n / d > 0,
        d * (n / d) == n,
        divides(n / d, n),
{
    lemma_fundamental_div_mod(n, d);
    let q = n / d;
    assert(q > 0) by (nonlinear_arith)
        requires
            d * q == n,
            d > 0,
            n > 0,
    ;
    lemma_mod_multiples_basic(d, q);
}

/// Appending a factor multiplies the product by it.
pub proof fn lemma_product_push(factors: Seq<u64>, factor: u64)
    ensures
        product(factors.push(factor)) == product(factors) * factor,
{
    assert(factors.push(factor).drop_last() == factors);
}

/// A list stays ascending when a number that is no smaller than any of
/// its entries is appended.
pub proof fn lemma_ascending_push(factors: Seq<u64>, factor: u64)
    requires
        ascending(factors),
        forall|i: int| 0 <= i < factors.len() ==> factors[i] <= factor,
    ensures
        ascending(factors.push(factor)),
{
    let longer = factors.push(factor);
    assert forall|i: int, j: int| 0 <= i <= j < longer.len() implies longer[i] <= longer[j] by {
        if j < factors.len() {
            assert(longer[i] == factors[i]);
            assert(longer[j] == factors[j]);
        } else if i < factors.len() {
            assert(longer[i] == factors[i]);
        }
    }
}

/// A list of primes stays one when a prime is appended.
pub proof fn lemma_all_prime_push(factors: Seq<u64>, factor: u64)
    requires
        all_prime(factors),
        is_prime(factor as int),
    ensures
        all_prime(factors.push(factor)),
{
    let longer = factors.push(factor);
    assert forall|i: int| 0 <= i < longer.len() implies is_prime(#[trigger] longer[i] as int) by {
        if i < factors.len() {
            assert(longer[i] == factors[i]);
        }
    }
}

/// A product of primes is at least one.
pub proof fn lemma_product_positive(factors: Seq<u64>)
    requires
        all_prime(factors),
    ensures
        product(factors) >= 1,
    decreases factors.len(),
{
    if factors.len() > 0 {
        let front = factors.drop_last();
        assert forall|i: int| 0 <= i < front.len() implies is_prime(#[trigger] front[i] as int) by {
            assert(front[i] == factors[i]);
        }
        lemma_product_positive(front);
        assert(is_prime(factors[factors.len() - 1] as int));
        assert(product(front) * factors.last() >= 1) by (nonlinear_arith)
            requires
                product(front) >= 1,
                factors.last() >= 2,
        ;
    }
}

/// A number with no divisor from two up to its square root is prime.
pub proof fn lemma_prime_by_trial(n: int, bound: int)
    requires
        n >= 2,
        bound >= 2,
        bound * bound > n,
        forall|d: int| 2 <= d < bound ==> !#[trigger] divides(d, n),
    ensures
        is_prime(n),
{
    assert forall|d: int| 2 <= d < n implies !#[trigger] divides(d, n) by {
        if d >= bound && divides(d, n) {
            lemma_quotient_divides(d, n);
            let q = n / d;
            assert(q < bound) by (nonlinear_arith)
                requires
                    d * q == n,
                    d >= bound,
                    bound * bound > n,
                    bound >= 2,
                    q > 0,
            ;
            assert(q >= 2) by (nonlinear_arith)
                requires
                    d * q == n,
                    d < n,
                    q > 0,
            ;
            assert(divides(q, n));
        }
    }
}

/// A prime factorization has exactly one factor, the number itself, if
/// and only if the number is prime.
pub proof fn lemma_single_factor_iff_prime(n: u64, factors: Seq<u64>)
    requires
        is_prime_factorization(n, factors),
    ensures
        (factors.len() == 1 && factors[0] == n) <==> is_prime(n as int),
{
    if factors.len() == 1 {
        assert(factors.drop_last().len() == 0);
        assert(product(factors.drop_last()) == 1);
        assert(product(factors) == factors[0]);
        assert(is_prime(factors[0] as int));
    } else if factors.len() >= 2 {
        let front = factors.drop_last();
        let last = factors.last();
        assert(is_prime(factors[factors.len() - 1] as int));
        assert forall|i: int| 0 <= i < front.len() implies is_prime(#[trigger] front[i] as int) by {
            assert(front[i] == factors[i]);
        }
        lemma_product_positive(front);
        let first = front.last();
        assert(is_prime(front[front.len() - 1] as int));
        assert(product(front) == product(front.drop_last()) * first);
        assert forall|i: int| 0 <= i < front.drop_last().len() implies is_prime(
            #[trigger] front.drop_last()[i] as int,
        ) by {
            assert(front.drop_last()[i] == factors[i]);
        }
        lemma_product_positive(front.drop_last());
        assert(product(front) >= 2) by (nonlinear_arith)
            requires
                product(front) == product(front.drop_last()) * first,
                product(front.drop_last()) >= 1,
                first >= 2,
        ;
        // `last` is a divisor of `n` strictly between one and `n`.
        assert(n == product(front) * last);
        lemma_mod_multiples_basic(product(front), last as int);
        assert(divides(last as int, n as int));
        assert(last < n) by (nonlinear_arith)
            requires
                n == product(front) * last,
                product(front) >= 2,
                last >= 2,
        ;
    } else {
        assert(product(factors) == 1);
    }
}

/// A divisor of two numbers divides the first less any multiple of the
/// second.
pub proof fn lemma_divides_difference(d: int, a: int, k: int, b: int)
    requires
        d > 0,
        divides(d, a),
        divides(d, b),
    ensures
        divides(d, a - k * b),
{
    lemma_fundamental_div_mod(a, d);
    lemma_fundamental_div_mod(b, d);
    let qa = a / d;
    let qb = b / d;
    assert(a - k * b == (qa - k * qb) * d) by (nonlinear_arith)
        requires
            a == d * qa,
            b == d * qb,
    ;
    lemma_mod_multiples_basic(qa - k * qb, d);
}

/// A positive number below `d` is not a multiple of `d`.
pub proof fn lemma_smaller_not_divided(d: int, x: int)
    requires
        0 < x < d,
    ensures
        !divides(d, x),
{
    lemma_small_mod(x as nat, d as nat);
}

/// A prime that divides a product divides one of the two factors.
pub proof fn lemma_prime_divides_factor(p: int, x: int, y: int)
    requires
        is_prime(p),
        x >= 1,
        y >= 0,
        divides(p, x * y),
    ensures
        divides(p, x) || divides(p, y),
    decreases x,
{
    if x >= p {
        let r = x % p;
        if r != 0 {
            // `p` divides `r * y`, and `r` is smaller than `x`.
            lemma_fundamental_div_mod(x, p);
            lemma_mod_multiples_basic(y, p);
            assert(divides(p, y * p));
            assert(r * y == x * y - (x / p) * (y * p)) by (nonlinear_arith)
                requires
                    x == p * (x / p) + r,
            ;
            lemma_divides_difference(p, x * y, x / p, y * p);
            lemma_prime_divides_factor(p, r, y);
            lemma_smaller_not_divided(p, r);
        }
    } else if x == 1 {
        assert(x * y == y) by (nonlinear_arith)
            requires
                x == 1,
        ;
    } else {
        // `x` lies strictly between one and the prime, so it leaves a
        // remainder `r` of `p` that is smaller than `x` and not zero.
        let r = p % x;
        assert(!divides(x, p));
        lemma_fundamental_div_mod(p, x);
        lemma_mod_multiples_basic(y, p);
        assert(divides(p, y * p));
        assert(r * y == y * p - (p / x) * (x * y)) by (nonlinear_arith)
            requires
                p == x * (p / x) + r,
        ;
        lemma_divides_difference(p, y * p, p / x, x * y);
        lemma_prime_divides_factor(p, r, y);
        lemma_smaller_not_divided(p, r);
    }
}

/// The front of a list of primes in ascending order is one too, and the
/// product of the list is the product of the front times the last entry.
pub proof fn lemma_front_of_primes(factors: Seq<u64>)
    requires
        factors.len() > 0,
        all_prime(factors),
        ascending(factors),
    ensures
        all_prime(factors.drop_last()),
        ascending(factors.drop_last()),
        is_prime(factors.last() as int),
        product(factors) == product(factors.drop_last()) * factors.last(),
        product(factors.drop_last()) >= 1,
{
    let front = factors.drop_last();
    assert forall|i: int| 0 <= i < front.len() implies is_prime(#[trigger] front[i] as int) by {
        assert(front[i] == factors[i]);
    }
    assert forall|i: int, j: int| 0 <= i <= j < front.len() implies front[i] <= front[j] by {
        assert(front[i] == factors[i]);
        assert(front[j] == factors[j]);
    }
    assert(is_prime(factors[factors.len() - 1] as int));
    lemma_product_positive(front);
}

/// A prime that divides a product of primes is one of them.
pub proof fn lemma_prime_in_product(p: int, factors: Seq<u64>) -> (at: int)
    requires
        is_prime(p),
        all_prime(factors),
        divides(p, product(factors)),
    ensures
        0 <= at < factors.len(),
        factors[at] == p,
    decreases factors.len(),
{
    if factors.len() == 0 {
        lemma_smaller_not_divided(p, 1);
        0
    } else {
        let front = factors.drop_last();
        let last = factors.last();
        assert forall|i: int| 0 <= i < front.len() implies is_prime(#[trigger] front[i] as int) by {
            assert(front[i] == factors[i]);
        }
        assert(is_prime(factors[factors.len() - 1] as int));
        lemma_product_positive(front);
        lemma_prime_divides_factor(p, product(front), last as int);
        if divides(p, last as int) {
            if p < last {
                assert(!divides(p, last as int));
            } else if p > last {
                lemma_smaller_not_divided(p, last as int);
            }
            factors.len() - 1
        } else {
            let at = lemma_prime_in_product(p, front);
            assert(front[at] == factors[at]);
            at
        }
    }
}

/// The prime factorization of a number is unique: two ascending lists of
/// primes with the same product are the same list.
pub proof fn lemma_ascending_primes_unique(a: Seq<u64>, b: Seq<u64>)
    requires
        all_prime(a),
        ascending(a),
        all_prime(b),
        ascending(b),
        product(a) == product(b),
    ensures
        a == b,
    decreases a.len(),
{
    if a.len() == 0 || b.len() == 0 {
        if a.len() > 0 {
            lemma_front_of_primes(a);
            assert(product(a) >= 2) by (nonlinear_arith)
                requires
                    product(a) == product(a.drop_last()) * a.last(),
                    product(a.drop_last()) >= 1,
                    a.last() >= 2,
            ;
        }
        if b.len() > 0 {
            lemma_front_of_primes(b);
            assert(product(b) >= 2) by (nonlinear_arith)
                requires
                    product(b) == product(b.drop_last()) * b.last(),
                    product(b.drop_last()) >= 1,
                    b.last() >= 2,
            ;
        }
        assert(a =~= b);
    } else {
        lemma_front_of_primes(a);
        lemma_front_of_primes(b);
        let pa = a.last();
        let pb = b.last();
        // The largest prime of each list occurs in the other.
        lemma_mod_multiples_basic(product(a.drop_last()), pa as int);
        let in_b = lemma_prime_in_product(pa as int, b);
        assert(b[in_b] <= b[b.len() - 1]);
        lemma_mod_multiples_basic(product(b.drop_last()), pb as int);
        let in_a = lemma_prime_in_product(pb as int, a);
        assert(a[in_a] <= a[a.len() - 1]);
        assert(pa == pb);
        assert(product(a.drop_last()) == product(b.drop_last())) by (nonlinear_arith)
            requires
                product(a.drop_last()) * pa == product(b.drop_last()) * pb,
                pa == pb,
                pa >= 2,
        ;
        lemma_ascending_primes_unique(a.drop_last(), b.drop_last());
        assert(a =~= a.drop_last().push(pa));
        assert(b =~= b.drop_last().push(pb));
    }
}

/// A number has one prime factorization.
pub proof fn lemma_prime_factorization_unique(n: u64, a: Seq<u64>, b: Seq<u64>)
    requires
        is_prime_factorization(n, a),
        is_prime_factorization(n, b),
    ensures
        a == b,
{
    lemma_ascending_primes_unique(a, b);
}

/// A small prime that divides `q`, for `q` from two to twenty-eight.
pub proof fn small_factor_of(q: int) -> (r: int)
    requires
        2 <= q <= 28,
    ensures
        is_small_prime(r),
        r <= q,
        divides(r, q),
{
    if q % 2 == 0 {
        2
    } else if q % 3 == 0 {
        3
    } else if q % 5 == 0 {
        5
    } else if q == 7 {
        7
    } else if q == 11 {
        11
    } else if q == 13 {
        13
    } else if q == 17 {
        17
    } else if q == 19 {
        19
    } else {
        23
    }
}

/// Once the small primes up to `bound` are divided out of `rest` and the
/// square of `bound` exceeds `rest`: where `rest` is itself a small prime it
/// lies above `bound`, and where it is not, no small prime divides it.
pub proof fn lemma_residual_below_square(rest: int, bound: int)
    requires
        rest >= 2,
        is_small_prime(bound),
        bound * bound > rest,
        forall|p: int| is_small_prime(p) && p <= bound ==> !#[trigger] divides(p, rest),
    ensures
        is_small_prime(rest) ==> rest > bound,
        !is_small_prime(rest) ==> (forall|p: int|
            is_small_prime(p) ==> !#[trigger] divides(p, rest)),
{
    if is_small_prime(rest) {
        if rest <= bound {
            assert(divides(rest, rest));
        }
    } else {
        assert forall|p: int| is_small_prime(p) implies !#[trigger] divides(p, rest) by {
            if divides(p, rest) {
                assert(p > bound);
                lemma_quotient_divides(p, rest);
                let q = rest / p;
                assert(q < bound) by (nonlinear_arith)
                    requires
                        p * q == rest,
                        p > bound,
                        bound * bound > rest,
                        bound >= 2,
                        q > 0,
                ;
                assert(q != 1) by (nonlinear_arith)
                    requires
                        p * q == rest,
                        p != rest,
                ;
                let r = small_factor_of(q);
                lemma_divides_transitive(r, q, rest);
            }
        }
    }
}

/// Each of the ten small primes is prime.
pub proof fn lemma_small_primes_are_prime(p: int)
    requires
        is_small_prime(p),
    ensures
        is_prime(p),
{
    assert forall|d: int| 2 <= d < 6 && d < p implies !#[trigger] divides(d, p) by {
        assert(d == 2 || d == 3 || d == 4 || d == 5);
    }
    if p >= 6 {
        lemma_prime_by_trial(p, 6);
    }
}

/// A list of small primes is a list of primes.
pub proof fn lemma_small_list_is_prime(small: Seq<u64>)
    requires
        forall|i: int| 0 <= i < small.len() ==> is_small_prime(#[trigger] small[i] as int),
    ensures
        all_prime(small),
{
    assert forall|i: int| 0 <= i < small.len() implies is_prime(#[trigger] small[i] as int) by {
        lemma_small_primes_are_prime(small[i] as int);
    }
}

/// The split of a number into its small primes and the rest is unique.
pub proof fn lemma_small_split_unique(a: Seq<u64>, rest_a: u64, b: Seq<u64>, rest_b: u64)
    requires
        forall|i: int| 0 <= i < a.len() ==> is_small_prime(#[trigger] a[i] as int),
        forall|i: int| 0 <= i < b.len() ==> is_small_prime(#[trigger] b[i] as int),
        ascending(a),
        ascending(b),
        product(a) * rest_a == product(b) * rest_b,
        forall|p: int| is_small_prime(p) ==> !#[trigger] divides(p, rest_a as int),
        forall|p: int| is_small_prime(p) ==> !#[trigger] divides(p, rest_b as int),
    ensures
        a == b,
        rest_a == rest_b,
    decreases a.len() + b.len(),
{
    lemma_small_list_is_prime(a);
    lemma_small_list_is_prime(b);
    if a.len() == 0 && b.len() == 0 {
        assert(a =~= b);
        assert(1 * rest_a == rest_a && 1 * rest_b == rest_b) by (nonlinear_arith);
    } else if a.len() == 0 || b.len() == 0 {
        // The last prime of the list that has one would divide the rest of
        // the other, which no small prime does.
        let (longer, rest_longer, rest_other) = if a.len() == 0 {
            (b, rest_b, rest_a)
        } else {
            (a, rest_a, rest_b)
        };
        lemma_front_of_primes(longer);
        let p = longer.last();
        assert(is_small_prime(longer[longer.len() - 1] as int));
        assert(rest_other == (product(longer.drop_last()) * rest_longer) * p) by (nonlinear_arith)
            requires
                product(longer) == product(longer.drop_last()) * p,
                product(longer) * rest_longer == 1 * rest_other,
        ;
        lemma_mod_multiples_basic(product(longer.drop_last()) * rest_longer, p as int);
        assert(divides(p as int, rest_other as int));
    } else {
        lemma_front_of_primes(a);
        lemma_front_of_primes(b);
        let pa = a.last();
        let pb = b.last();
        assert(is_small_prime(a[a.len() - 1] as int));
        assert(is_small_prime(b[b.len() - 1] as int));
        // The largest prime of each list occurs in the other.
        assert(product(b) * rest_b == (product(a.drop_last()) * rest_a) * pa) by (nonlinear_arith)
            requires
                product(a) == product(a.drop_last()) * pa,
                product(a) * rest_a == product(b) * rest_b,
        ;
        lemma_mod_multiples_basic(product(a.drop_last()) * rest_a, pa as int);
        lemma_product_positive(b);
        lemma_prime_divides_factor(pa as int, product(b), rest_b as int);
        let in_b = lemma_prime_in_product(pa as int, b);
        assert(b[in_b] <= b[b.len() - 1]);
        assert(product(a) * rest_a == (product(b.drop_last()) * rest_b) * pb) by (nonlinear_arith)
            requires
                product(b) == product(b.drop_last()) * pb,
                product(a) * rest_a == product(b) * rest_b,
        ;
        lemma_mod_multiples_basic(product(b.drop_last()) * rest_b, pb as int);
        lemma_product_positive(a);
        lemma_prime_divides_factor(pb as int, product(a), rest_a as int);
        let in_a = lemma_prime_in_product(pb as int, a);
        assert(a[in_a] <= a[a.len() - 1]);
        assert(pa == pb);
        assert(product(a.drop_last()) * rest_a == product(b.drop_last()) * rest_b)
            by (nonlinear_arith)
            requires
                product(a) == product(a.drop_last()) * pa,
                product(b) == product(b.drop_last()) * pb,
                product(a) * rest_a == product(b) * rest_b,
                pa == pb,
                pa >= 2,
        ;
        let front_a = a.drop_last();
        let front_b = b.drop_last();
        assert forall|i: int| 0 <= i < front_a.len() implies is_small_prime(
            #[trigger] front_a[i] as int,
        ) by {
            assert(front_a[i] == a[i]);
        }
        assert forall|i: int| 0 <= i < front_b.len() implies is_small_prime(
            #[trigger] front_b[i] as int,
        ) by {
            assert(front_b[i] == b[i]);
        }
        lemma_small_split_unique(front_a, rest_a, front_b, rest_b);
        assert(a =~= front_a.push(pa));
        assert(b =~= front_b.push(pb));
    }
}

/// The fast method has one result for a number.
pub proof fn lemma_fast_factorization_unique(n: u64, a: Seq<u64>, b: Seq<u64>)
    requires
        is_fast_factorization(n, a),
        is_fast_factorization(n, b),
    ensures
        a == b,
{
    let (small_a, rest_a) = choose|small: Seq<u64>, rest: u64| #[trigger]
        splits_small_primes(n, a, small, rest);
    let (small_b, rest_b) = choose|small: Seq<u64>, rest: u64| #[trigger]
        splits_small_primes(n, b, small, rest);
    lemma_small_split_unique(small_a, rest_a, small_b, rest_b);
}

} // verus!
