//! Integer square root with floor semantics.

use vstd::prelude::*;

verus! {

/// `r` is the floor of the square root of `n`: the largest natural whose square is at most `n`.
pub open spec fn is_floor_sqrt(n: nat, r: nat) -> bool {
    r * r <= n < (r + 1) * (r + 1)
}

/// The floor of the square root of `n`.
pub open spec fn floor_sqrt(n: nat) -> nat {
    choose|r: nat| is_floor_sqrt(n, r)
}

/// Every natural number has a floor square root, and `floor_sqrt` is it.
pub proof fn lemma_floor_sqrt_exists(n: nat)
    ensures
        is_floor_sqrt(n, floor_sqrt(n)),
    decreases n,
{
    if n == 0 {
        assert(is_floor_sqrt(0, 0)) by (nonlinear_arith);
    } else {
        lemma_floor_sqrt_exists((n - 1) as nat);
        let r = floor_sqrt((n - 1) as nat);
        if (r + 1) * (r + 1) <= n {
            assert(n < (r + 2) * (r + 2)) by (nonlinear_arith)
                requires
                    n - 1 < (r + 1) * (r + 1),
            ;
            assert(is_floor_sqrt(n, r + 1));
        } else {
            assert(is_floor_sqrt(n, r));
        }
    }
}

/// Two numbers that are both the floor square root of the same `n` are equal.
pub proof fn lemma_floor_sqrt_unique(n: nat, r1: nat, r2: nat)
    requires
        is_floor_sqrt(n, r1),
        is_floor_sqrt(n, r2),
    ensures
        r1 == r2,
{
    if r1 < r2 {
        assert((r1 + 1) * (r1 + 1) <= r2 * r2) by (nonlinear_arith)
            requires
                r1 + 1 <= r2,
        ;
    } else if r2 < r1 {
        assert((r2 + 1) * (r2 + 1) <= r1 * r1) by (nonlinear_arith)
            requires
                r2 + 1 <= r1,
        ;
    }
}

/// A number that satisfies the two bounds is the floor square root.
pub proof fn lemma_floor_sqrt_is(n: nat, r: nat)
    requires
        is_floor_sqrt(n, r),
    ensures
        floor_sqrt(n) == r,
{
    lemma_floor_sqrt_exists(n);
    lemma_floor_sqrt_unique(n, r, floor_sqrt(n));
}

/// The floor square root is the largest number whose square does not exceed `n`.
pub proof fn lemma_floor_sqrt_is_largest(n: nat, x: nat)
    requires
        x * x <= n,
    ensures
        x <= floor_sqrt(n),
{
    lemma_floor_sqrt_exists(n);
    let r = floor_sqrt(n);
    if r < x {
        assert((r + 1) * (r + 1) <= x * x) by (nonlinear_arith)
            requires
                r + 1 <= x,
        ;
    }
}

/// The floor square root of a product of two positive numbers lies between 1 and the
/// larger factor.
pub proof fn lemma_floor_sqrt_of_product(a: nat, b: nat)
    requires
        a > 0,
        b > 0,
    ensures
        1 <= floor_sqrt(a * b),
        floor_sqrt(a * b) <= a || floor_sqrt(a * b) <= b,
{
    lemma_floor_sqrt_exists(a * b);
    let r = floor_sqrt(a * b);
    assert(a * b >= 1) by (nonlinear_arith)
        requires
            a >= 1,
            b >= 1,
    ;
    if r == 0 {
        assert((r + 1) * (r + 1) == 1);
    }
    if r > a && r > b {
        assert(r * r > a * b) by (nonlinear_arith)
            requires
                r > a,
                r > b,
        ;
    }
}

/// One step of Newton's iteration, taken from a point at or above the root, stays at or
/// above the root.
proof fn lemma_newton_step(n: nat, x: nat, y: nat)
    requires
        n > 0,
        x > 0,
        y == (x + n / x) / 2,
    ensures
        y > 0,
        n < (y + 1) * (y + 1),
{
    let q = n / x;
    assert(x == 1 ==> q == n) by (nonlinear_arith)
        requires
            q == n / x,
    ;
    assert(n < x * (q + 1)) by (nonlinear_arith)
        requires
            x > 0,
            q == n / x,
    ;
    assert(4 * (x * (q + 1)) <= (x + q + 1) * (x + q + 1)) by (nonlinear_arith);
    assert((x + q + 1) * (x + q + 1) <= (2 * (y + 1)) * (2 * (y + 1))) by (nonlinear_arith)
        requires
            x + q + 1 <= 2 * (y + 1),
    ;
    assert((2 * (y + 1)) * (2 * (y + 1)) == 4 * ((y + 1) * (y + 1))) by (nonlinear_arith);
}

/// When Newton's iteration no longer descends, the point reached is at or below the root.
proof fn lemma_newton_stop(n: nat, x: nat)
    requires
        x > 0,
        (x + n / x) / 2 >= x,
    ensures
        x * x <= n,
{
    let q = n / x;
    assert(x * q <= n) by (nonlinear_arith)
        requires
            x > 0,
            q == n / x,
    ;
    assert(x * x <= x * q) by (nonlinear_arith)
        requires
            x <= q,
    ;
}

/// The sum that the next step of the iteration forms is at most `n`, or at most 4 where
/// `n` is below 4.
proof fn lemma_newton_sum_bound(n: nat, x: nat)
    requires
        x > 0,
        2 * x <= n + 1,
        n < (x + 1) * (x + 1),
    ensures
        x + n / x <= n || x + n / x <= 4,
{
    if x == 1 {
        assert(n / x == n && (x + 1) * (x + 1) == 4) by (nonlinear_arith)
            requires
                x == 1,
        ;
    } else {
        assert(n / x <= n / 2) by (nonlinear_arith)
            requires
                x >= 2,
        ;
    }
}

/// Integer square root by Newton's iteration.
pub trait IntegerSqrt: Sized {
    /// The largest `r` with `r * r <= self`.
    fn integer_sqrt(&self) -> Self;
}

impl IntegerSqrt for u128 {
    fn integer_sqrt(&self) -> (r: u128)
        ensures
            is_floor_sqrt(*self as nat, r as nat),
            r == floor_sqrt(*self as nat),
    {
        let n: u128 = *self;
        if n == 0 {
            proof {
                assert(is_floor_sqrt(0, 0)) by (nonlinear_arith);
                lemma_floor_sqrt_is(0, 0);
            }
            return 0;
        }
        let mut x: u128 = n;
        let mut y: u128 = x / 2 + x % 2;
        assert(n < (n + 1) * (n + 1) && n / n == 1) by (nonlinear_arith)
            requires
                n > 0,
        ;
        while y < x
            invariant
                0 < x <= n,
                x == n || 2 * x <= n + 1,
                n < (x + 1) * (x + 1),
                y == (x + n / x) / 2,
            decreases x,
        {
            proof {
                lemma_newton_step(n as nat, x as nat, y as nat);
                assert(x == n ==> n / x == 1) by (nonlinear_arith)
                    requires
                        x > 0,
                ;
            }
            x = y;
            proof {
                lemma_newton_sum_bound(n as nat, x as nat);
            }
            y = (x + n / x) / 2;
        }
        proof {
            lemma_newton_stop(n as nat, x as nat);
            lemma_floor_sqrt_is(n as nat, x as nat);
        }
        x
    }
}

} // verus!
