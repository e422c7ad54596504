//! Integer combinatorics used by the mathematics layer.
use vstd::prelude::*;

verus! {

/// n! over the mathematical integers.
pub open spec fn spec_factorial(n: nat) -> nat
    decreases n,
{
    if n == 0 {
        1
    } else {
        n * spec_factorial((n - 1) as nat)
    }
}

/// The binomial coefficient n! / (k! (n-k)!), and 0 when k > n.
pub open spec fn spec_binomial(n: nat, k: nat) -> nat {
    if k > n {
        0
    } else {
        spec_factorial(n) / (spec_factorial(k) * spec_factorial((n - k) as nat))
    }
}

/// Every factorial is positive.
pub proof fn lemma_factorial_positive(n: nat)
    ensures
        spec_factorial(n) >= 1,
    decreases n,
{
    if n > 0 {
        lemma_factorial_positive((n - 1) as nat);
        assert(n * spec_factorial((n - 1) as nat) >= spec_factorial((n - 1) as nat)) by (nonlinear_arith)
            requires
                n >= 1,
                spec_factorial((n - 1) as nat) >= 1,
        ;
    }
}

/// The factorial is monotone.
pub proof fn lemma_factorial_monotone(m: nat, n: nat)
    requires
        m <= n,
    ensures
        spec_factorial(m) <= spec_factorial(n),
    decreases n,
{
    if m < n {
        lemma_factorial_monotone(m, (n - 1) as nat);
        lemma_factorial_positive((n - 1) as nat);
        assert(n * spec_factorial((n - 1) as nat) >= spec_factorial((n - 1) as nat)) by (nonlinear_arith)
            requires
                n >= 1,
                spec_factorial((n - 1) as nat) >= 1,
        ;
    }
}

/// k! (n-k)! never exceeds n!.
pub proof fn lemma_factorial_split_bound(n: nat, k: nat)
    requires
        k <= n,
    ensures
        spec_factorial(k) * spec_factorial((n - k) as nat) <= spec_factorial(n),
    decreases n,
{
    lemma_factorial_positive(k);
    lemma_factorial_positive((n - k) as nat);
    if k == n {
        assert(spec_factorial(0) == 1);
        assert(spec_factorial(k) * spec_factorial((n - k) as nat) == spec_factorial(n));
    } else {
        // n! = n * (n-1)!  and  (n-k)! = (n-k) * (n-1-k)!
        lemma_factorial_split_bound((n - 1) as nat, k);
        lemma_factorial_positive((n - 1 - k) as nat);
        let a = spec_factorial(k);
        let b = spec_factorial((n - 1 - k) as nat);
        let c = spec_factorial((n - 1) as nat);
        assert(spec_factorial((n - k) as nat) == (n - k) * b);
        assert(spec_factorial(n) == n * c);
        assert(a * ((n - k) * b) <= n * c) by (nonlinear_arith)
            requires
                a * b <= c,
                n >= n - k,
                n - k >= 1,
                a >= 1,
                b >= 1,
        ;
    }
}

/// 20! is the largest factorial that fits in a `u64`.
pub proof fn lemma_factorial_20_fits()
    ensures
        spec_factorial(20) <= u64::MAX,
{
    reveal_with_fuel(spec_factorial, 21);
    assert(spec_factorial(20) == 2432902008176640000nat);
}

/// Computes n! for n up to 20.
pub fn factorial(n: u64) -> (r: u64)
    requires
        n <= 20,
    ensures
        r == spec_factorial(n as nat),
{
    proof {
        lemma_factorial_monotone(n as nat, 20);
        lemma_factorial_20_fits();
    }
    let mut acc: u64 = 1;
    let mut i: u64 = 1;
    while i <= n
        invariant
            1 <= i <= n + 1,
            n <= 20,
            acc == spec_factorial((i - 1) as nat),
        decreases n + 1 - i,
    {
        proof {
            lemma_factorial_monotone(i as nat, 20);
            lemma_factorial_20_fits();
        }
        assert(spec_factorial(i as nat) == i * spec_factorial((i - 1) as nat));
        assert(acc * i == spec_factorial(i as nat)) by (nonlinear_arith)
            requires
                acc == spec_factorial((i - 1) as nat),
                spec_factorial(i as nat) == i * spec_factorial((i - 1) as nat),
        ;
        acc = acc * i;
        i = i + 1;
    }
    acc
}

/// Computes the binomial coefficient C(n, k), 0 when k > n.
pub fn binomial(n: u64, k: u64) -> (r: u64)
    requires
        k <= n ==> n <= 20,
    ensures
        r == spec_binomial(n as nat, k as nat),
{
    if k > n {
        return 0;
    }
    let fn_ = factorial(n);
    let fk = factorial(k);
    let fnk = factorial(n - k);
    proof {
        lemma_factorial_split_bound(n as nat, k as nat);
        lemma_factorial_positive(k as nat);
        lemma_factorial_positive((n - k) as nat);
        assert(fk * fnk >= 1) by (nonlinear_arith)
            requires
                fk >= 1,
                fnk >= 1,
        ;
    }
    fn_ / (fk * fnk)
}

/// Choosing k items out of n is the same as leaving out n - k of them.
pub proof fn law_binomial_symmetric(n: nat, k: nat)
    requires
        k <= n,
    ensures
        spec_binomial(n, k) == spec_binomial(n, (n - k) as nat),
{
    assert((n - (n - k)) as nat == k);
    assert(spec_factorial(k) * spec_factorial((n - k) as nat) == spec_factorial((n - k) as nat)
        * spec_factorial(k)) by (nonlinear_arith);
}

/// There is exactly one way to choose nothing, and one way to choose everything.
pub proof fn law_binomial_edges(n: nat)
    ensures
        spec_binomial(n, 0) == 1,
        spec_binomial(n, n) == 1,
{
    lemma_factorial_positive(n);
    assert(spec_factorial(0) == 1);
    assert(spec_factorial((n - 0) as nat) == spec_factorial(n));
    assert(1 * spec_factorial(n) == spec_factorial(n));
    assert(spec_factorial(n) / spec_factorial(n) == 1) by (nonlinear_arith)
        requires
            spec_factorial(n) >= 1,
    ;
    assert(spec_factorial(n) * 1 == spec_factorial(n));
}

/// Pascal's triangle, row by row.
spec fn pascal(n: nat, k: nat) -> nat
    decreases n,
{
    if k > n {
        0
    } else if k == 0 || k == n {
        1
    } else {
        pascal((n - 1) as nat, (k - 1) as nat) + pascal((n - 1) as nat, k)
    }
}

/// Each entry of Pascal's triangle times k! (n-k)! is n!.
proof fn lemma_pascal_times_factorials(n: nat, k: nat)
    requires
        k <= n,
    ensures
        pascal(n, k) * (spec_factorial(k) * spec_factorial((n - k) as nat)) == spec_factorial(n),
    decreases n,
{
    if k == 0 {
        assert(spec_factorial(0) == 1);
        assert((n - 0) as nat == n);
        assert(1 * (1 * spec_factorial(n)) == spec_factorial(n));
    } else if k == n {
        assert(spec_factorial(0) == 1);
        assert(1 * (spec_factorial(n) * 1) == spec_factorial(n));
    } else {
        let m = (n - 1) as nat;
        lemma_pascal_times_factorials(m, (k - 1) as nat);
        lemma_pascal_times_factorials(m, k);
        let p1 = pascal(m, (k - 1) as nat);
        let p2 = pascal(m, k);
        let a = spec_factorial((k - 1) as nat);
        let b = spec_factorial((m - k) as nat);
        let c = spec_factorial(m);
        assert((m - (k - 1)) as nat == (n - k) as nat);
        assert(spec_factorial(k) == k * a);
        assert(spec_factorial((n - k) as nat) == (n - k) * b);
        assert(spec_factorial(n) == n * c);
        assert(pascal(n, k) == p1 + p2);
        assert((p1 + p2) * ((k * a) * ((n - k) * b)) == n * c) by (nonlinear_arith)
            requires
                p1 * (a * ((n - k) * b)) == c,
                p2 * ((k * a) * b) == c,
                0 < k < n,
        ;
    }
}

/// The binomial coefficient is the entry of Pascal's triangle.
proof fn lemma_binomial_is_pascal(n: nat, k: nat)
    ensures
        spec_binomial(n, k) == pascal(n, k),
{
    if k <= n {
        lemma_pascal_times_factorials(n, k);
        lemma_factorial_positive(k);
        lemma_factorial_positive((n - k) as nat);
        let d = spec_factorial(k) * spec_factorial((n - k) as nat);
        let p = pascal(n, k);
        assert(d > 0) by (nonlinear_arith)
            requires
                spec_factorial(k) >= 1,
                spec_factorial((n - k) as nat) >= 1,
                d == spec_factorial(k) * spec_factorial((n - k) as nat),
        ;
        assert((p * d) / d == p) by (nonlinear_arith)
            requires
                d > 0,
        ;
    }
}

/// Pascal's rule: C(n, k) = C(n-1, k-1) + C(n-1, k) for 0 < k < n.
pub proof fn law_binomial_pascal(n: nat, k: nat)
    requires
        0 < k < n,
    ensures
        spec_binomial(n, k) == spec_binomial((n - 1) as nat, (k - 1) as nat) + spec_binomial((n - 1) as nat, k),
{
    lemma_binomial_is_pascal(n, k);
    lemma_binomial_is_pascal((n - 1) as nat, (k - 1) as nat);
    lemma_binomial_is_pascal((n - 1) as nat, k);
}

/// The binomial coefficient, all at once: it is 0 when k > n; otherwise k! (n-k)! divides
/// n! exactly and C(n, k) is the quotient; C(n, k) = C(n, n-k); and for 0 < k < n,
/// C(n, k) = C(n-1, k-1) + C(n-1, k).
pub proof fn law_binomial(n: nat, k: nat)
    ensures
        k > n ==> spec_binomial(n, k) == 0,
        k <= n ==> spec_binomial(n, k) * (spec_factorial(k) * spec_factorial((n - k) as nat)) == spec_factorial(n),
        k <= n ==> spec_binomial(n, k) == spec_binomial(n, (n - k) as nat),
        0 < k < n ==> spec_binomial(n, k) == spec_binomial((n - 1) as nat, (k - 1) as nat) + spec_binomial(
            (n - 1) as nat,
            k,
        ),
{
    if k <= n {
        lemma_binomial_is_pascal(n, k);
        lemma_pascal_times_factorials(n, k);
        law_binomial_symmetric(n, k);
    }
    if 0 < k < n {
        law_binomial_pascal(n, k);
    }
}

} // verus!
