//! Integer square roots.
//!
//! The root is found by Newton's method: the estimate starts at `n / 2` and is
//! refined for as long as a refinement decreases it.  Every estimate lies at
//! or above the root, and the estimate at which the descent comes to rest is
//! the root itself.

use vstd::prelude::*;

verus! {

/// `r` is the floor of the square root of `n`.
pub open spec fn is_floor_sqrt(n: nat, r: nat) -> bool {
    r * r <= n < (r + 1) * (r + 1)
}

/// The floor of the square root of `n`.
pub open spec fn isqrt_spec(n: nat) -> nat {
    choose|r: nat| is_floor_sqrt(n, r)
}

/// One Newton refinement of the estimate `x` for the square root of `n`.
pub open spec fn newton_step(n: nat, x: nat) -> nat {
    (x + n / x) / 2
}

/// Every number has a floor square root.
pub proof fn lemma_floor_sqrt_exists(n: nat)
    ensures
        exists|r: nat| is_floor_sqrt(n, r),
    decreases n,
{
    if n == 0 {
        assert(0 * 0 == 0 && (0 + 1) * (0 + 1) == 1) by (nonlinear_arith);
        assert(is_floor_sqrt(0, 0));
    } else {
        let m = (n - 1) as nat;
        lemma_floor_sqrt_exists(m);
        let r = choose|r: nat| is_floor_sqrt(m, r);
        if (r + 1) * (r + 1) <= n {
            assert(n < (r + 1 + 1) * (r + 1 + 1)) by (nonlinear_arith)
                requires
                    n - 1 < (r + 1) * (r + 1),
            ;
            assert(is_floor_sqrt(n, r + 1));
        } else {
            assert(is_floor_sqrt(n, r));
        }
    }
}

/// A number has one floor square root only.
pub proof fn lemma_floor_sqrt_unique(n: nat, a: nat, b: nat)
    requires
        is_floor_sqrt(n, a),
        is_floor_sqrt(n, b),
    ensures
        a == b,
{
    if a < b {
        assert((a + 1) * (a + 1) <= b * b) by (nonlinear_arith)
            requires
                a + 1 <= b,
        ;
    }
    if b < a {
        assert((b + 1) * (b + 1) <= a * a) by (nonlinear_arith)
            requires
                b + 1 <= a,
        ;
    }
}

/// [`isqrt_spec`] is the floor square root: its square does not exceed `n`,
/// the next square does, and it fits in 32 bits whenever `n` fits in 64.
pub proof fn lemma_isqrt_spec(n: nat)
    ensures
        is_floor_sqrt(n, isqrt_spec(n)),
        isqrt_spec(n) <= n,
        n <= u64::MAX ==> isqrt_spec(n) <= u32::MAX,
{
    lemma_floor_sqrt_exists(n);
    let r = isqrt_spec(n);
    assert(r <= n) by (nonlinear_arith)
        requires
            r * r <= n,
    ;
    if n <= u64::MAX {
        assert(r <= 0xFFFF_FFFF) by (nonlinear_arith)
            requires
                r * r <= n,
                n <= 0xFFFF_FFFF_FFFF_FFFF,
        ;
    }
}

/// A refinement never falls below the root, whatever estimate it starts from.
pub proof fn lemma_step_above_root(n: nat, x: nat)
    requires
        x >= 1,
    ensures
        n < (newton_step(n, x) + 1) * (newton_step(n, x) + 1),
{
    let q = n / x;
    let y = newton_step(n, x);
    assert(n < x * (q + 1)) by (nonlinear_arith)
        requires
            x >= 1,
            q == n / x,
    ;
    assert(2 * (y + 1) >= x + q + 1);
    assert(4 * ((y + 1) * (y + 1)) >= 4 * (x * (q + 1))) by (nonlinear_arith)
        requires
            2 * (y + 1) >= x + q + 1,
    ;
}

/// An estimate that lies above the root is the root exactly when a further
/// refinement would not decrease it.
pub proof fn lemma_rest_is_root(n: nat, x: nat)
    requires
        x >= 1,
        n < (x + 1) * (x + 1),
    ensures
        newton_step(n, x) >= x <==> is_floor_sqrt(n, x),
{
    let q = n / x;
    assert(x * q <= n < x * (q + 1)) by (nonlinear_arith)
        requires
            x >= 1,
            q == n / x,
    ;
    if newton_step(n, x) >= x {
        assert(q >= x);
        assert(x * x <= x * q) by (nonlinear_arith)
            requires
                q >= x,
        ;
    }
    if x * x <= n {
        assert(q >= x) by (nonlinear_arith)
            requires
                x * x <= n,
                n < x * (q + 1),
                x >= 1,
        ;
    }
}

/// An estimate above the root of a number of at least 4 is at least 2.
proof fn lemma_above_root_at_least_two(n: nat, x: nat)
    requires
        n >= 4,
        n < (x + 1) * (x + 1),
    ensures
        x >= 2,
{
    assert(x >= 2) by (nonlinear_arith)
        requires
            n >= 4,
            n < (x + 1) * (x + 1),
    ;
}

/// The first estimate `n / 2` lies above the root for every `n >= 4`.
proof fn lemma_first_estimate_above_root(n: nat)
    requires
        n >= 4,
    ensures
        n < (n / 2 + 1) * (n / 2 + 1),
{
    let h = n / 2;
    assert(n < (h + 1) * (h + 1)) by (nonlinear_arith)
        requires
            n >= 4,
            n <= 2 * h + 1,
    ;
}

/// Integer square root: the floor of the square root of `n`.
///
/// Newton's method, started at `n / 2` and refined until the estimate stops
/// decreasing.
pub fn isqrt(n: u64) -> (r: u64)
    ensures
        is_floor_sqrt(n as nat, r as nat),
        r == isqrt_spec(n as nat),
        r <= u32::MAX,
{
    proof {
        lemma_isqrt_spec(n as nat);
    }
    if n == 0 {
        proof {
            assert(0 * 0 == 0 && (0 + 1) * (0 + 1) == 1) by (nonlinear_arith);
            lemma_floor_sqrt_unique(0, 0, isqrt_spec(0));
        }
        return 0;
    }
    if n <= 3 {
        proof {
            assert(1 * 1 == 1 && (1 + 1) * (1 + 1) == 4) by (nonlinear_arith);
            lemma_floor_sqrt_unique(n as nat, 1, isqrt_spec(n as nat));
        }
        return 1;
    }
    assert(n >> 1 == n / 2) by (bit_vector);
    let mut x: u64 = n >> 1;
    proof {
        lemma_first_estimate_above_root(n as nat);
        lemma_above_root_at_least_two(n as nat, x as nat);
    }
    let mut y: u64 = refine(n, x);
    while y < x
        invariant
            n >= 4,
            2 <= x <= n / 2,
            n < (x + 1) * (x + 1),
            y == newton_step(n as nat, x as nat),
        decreases x,
    {
        proof {
            lemma_step_above_root(n as nat, x as nat);
            lemma_above_root_at_least_two(n as nat, y as nat);
        }
        x = y;
        y = refine(n, x);
    }
    proof {
        lemma_rest_is_root(n as nat, x as nat);
        lemma_floor_sqrt_unique(n as nat, x as nat, isqrt_spec(n as nat));
    }
    x
}

/// One refinement of an estimate `x >= 2` that does not exceed `n / 2`.
fn refine(n: u64, x: u64) -> (y: u64)
    requires
        2 <= x <= n / 2,
    ensures
        y == newton_step(n as nat, x as nat),
{
    assert(n / x <= n / 2) by (nonlinear_arith)
        requires
            x >= 2,
    ;
    let s: u64 = x + n / x;
    assert(s >> 1 == s / 2) by (bit_vector);
    s >> 1
}

} // verus!
