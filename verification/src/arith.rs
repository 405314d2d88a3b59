//! Clamping arithmetic on unsigned 64-bit amounts.
//!
//! Amounts never wrap: a sum or product that would not fit is held at
//! `u64::MAX`, and a difference that would be negative is held at zero.

use vstd::prelude::*;

verus! {

/// `a + b`, held at `u64::MAX`.
pub open spec fn add_clamped(a: nat, b: nat) -> nat {
    if a + b > u64::MAX {
        u64::MAX as nat
    } else {
        a + b
    }
}

/// `a - b`, held at zero.
pub open spec fn sub_clamped(a: nat, b: nat) -> nat {
    if a >= b {
        (a - b) as nat
    } else {
        0
    }
}

/// `a * b`, held at `u64::MAX`.
pub open spec fn mul_clamped(a: nat, b: nat) -> nat {
    if a * b > u64::MAX {
        u64::MAX as nat
    } else {
        a * b
    }
}

/// `a * b / d` with the product held at `u64::MAX` before the division.
pub open spec fn mul_div_clamped(a: nat, b: nat, d: nat) -> nat {
    mul_clamped(a, b) / d
}

/// Multiplication that saturates at `u64::MAX`.
pub fn saturating_mul(a: u64, b: u64) -> (r: u64)
    ensures
        r == mul_clamped(a as nat, b as nat),
{
    match a.checked_mul(b) {
        Some(p) => p,
        None => u64::MAX,
    }
}

/// `a * b / d`, the product saturating at `u64::MAX`.
pub fn saturating_mul_div(a: u64, b: u64, d: u64) -> (r: u64)
    requires
        d > 0,
    ensures
        r == mul_div_clamped(a as nat, b as nat, d as nat),
{
    saturating_mul(a, b) / d
}

/// The quotient of `a` by a positive `d`, rounded toward zero.
pub open spec fn div_toward_zero(a: int, d: int) -> int {
    if a >= 0 {
        a / d
    } else {
        -((-a) / d)
    }
}

} // verus!
