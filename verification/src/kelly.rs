//! Kelly-optimal sizing of a commitment to one block.
//!
//! For a block that holds `O` and a pot worth `V` if the block wins, the
//! commitment that maximises expected growth is `sqrt(V * O / C) - O`, where
//! `C` is fixed by the payout curve.  A commitment shrinks the pot it competes
//! for, so the size is refined a bounded number of times against the pot that
//! remains after the previous size has been committed.  No refinement leads
//! above the closed form for the whole pot.

use crate::arith::{mul_clamped, saturating_mul, sub_clamped};
use crate::ev::{pot_value, winning_pot};
use crate::sqrt::{isqrt, isqrt_spec, lemma_isqrt_spec};
use vstd::prelude::*;

verus! {

/// Scale of the fixed-point factors.
pub const FIXED_POINT: u64 = 1_000_000_000;

/// The constant of the payout curve, 24.2525, in fixed point.
pub const C_SCALED: u64 = 24_252_500_000;

/// Largest number of refinements of the first size.
pub const KELLY_REFINEMENTS: u64 = 5;

/// Two successive sizes closer than this count as converged.
pub const KELLY_TOLERANCE: u64 = 100;

/// No size exceeds this bound, `u64::MAX / C_SCALED`: the argument of the square
/// root cannot.
pub const KELLY_MAX: u64 = 760_612_063;

/// The size for a block that holds `block`, against a pot worth `pot`.
pub open spec fn kelly_size(pot: nat, block: nat) -> nat {
    sub_clamped(
        isqrt_spec(
            mul_clamped(mul_clamped(pot, block), FIXED_POINT as nat) / (C_SCALED as nat),
        ),
        block,
    )
}

/// The distance between two sizes.
pub open spec fn size_gap(a: nat, b: nat) -> nat {
    if a > b {
        (a - b) as nat
    } else {
        (b - a) as nat
    }
}

/// The size after at most `rounds` refinements of the size `y`.
///
/// Each refinement takes `y` out of the losing pool and sizes against the pot
/// that is left.  It ends on a size of zero, on a pot of zero (with size
/// zero), and on the first size that lies within the tolerance of its
/// predecessor.
pub open spec fn kelly_refine(
    block: nat,
    losing_pool: nat,
    pool_value: nat,
    y: nat,
    rounds: nat,
) -> nat
    decreases rounds,
{
    if rounds == 0 || y == 0 {
        y
    } else {
        let pot = winning_pot(sub_clamped(losing_pool, y), pool_value);
        if pot == 0 {
            0
        } else {
            let next = kelly_size(pot, block);
            if size_gap(next, y) < KELLY_TOLERANCE {
                next
            } else {
                kelly_refine(block, losing_pool, pool_value, next, (rounds - 1) as nat)
            }
        }
    }
}

/// The value that [`calculate_kelly_optimal`] computes.
pub open spec fn kelly_optimal(block: nat, total: nat, pool_value: nat) -> nat {
    if block == 0 || total <= block {
        0
    } else {
        let losing_pool = (total - block) as nat;
        let pot = winning_pot(losing_pool, pool_value);
        if pot == 0 {
            0
        } else {
            kelly_refine(
                block,
                losing_pool,
                pool_value,
                kelly_size(pot, block),
                KELLY_REFINEMENTS as nat,
            )
        }
    }
}

/// The pot in exact integers: nine tenths of the losing pool, plus the value
/// of the bonus pool.
pub open spec fn full_pot(losing_pool: nat, pool_value: nat) -> nat {
    losing_pool * 9 / 10 + pool_value
}

/// The size `y` does not exceed the closed form `sqrt(pot * block / C) - block`.
pub open spec fn within_closed_form(y: nat, pot: nat, block: nat) -> bool {
    y > 0 ==> (y + block) * (y + block) * C_SCALED <= pot * block * FIXED_POINT
}

/// The pot against a part of the losing pool is at most the exact pot against
/// all of it.
pub proof fn lemma_winning_pot_bounded(part: nat, losing_pool: nat, pool_value: nat)
    requires
        part <= losing_pool,
    ensures
        winning_pot(part, pool_value) <= full_pot(losing_pool, pool_value),
{
    assert(part * 9000 <= losing_pool * 9000);
    assert(mul_clamped(part, 9000) <= losing_pool * 9000) by (nonlinear_arith)
        requires
            mul_clamped(part, 9000) <= part * 9000,
            part <= losing_pool,
    ;
}

/// The size against a pot is within the closed form for any pot at least as
/// large.
pub proof fn lemma_kelly_size_within_closed_form(pot: nat, block: nat, whole: nat)
    requires
        pot <= whole,
    ensures
        within_closed_form(kelly_size(pot, block), whole, block),
{
    let product = mul_clamped(pot, block);
    let raised = mul_clamped(product, FIXED_POINT as nat);
    let scaled = raised / (C_SCALED as nat);
    let root = isqrt_spec(scaled);
    let y = kelly_size(pot, block);
    lemma_isqrt_spec(scaled);
    if y > 0 {
        assert(y + block == root);
        let c = C_SCALED as nat;
        let f = FIXED_POINT as nat;
        assert(scaled * c <= raised) by (nonlinear_arith)
            requires
                scaled == raised / c,
                c > 0,
        ;
        assert(product <= whole * block) by (nonlinear_arith)
            requires
                product <= pot * block,
                pot <= whole,
        ;
        assert(raised <= whole * block * f) by (nonlinear_arith)
            requires
                raised <= product * f,
                product <= whole * block,
        ;
        assert(root * root * c <= scaled * c) by (nonlinear_arith)
            requires
                root * root <= scaled,
        ;
    }
}

/// Refinement keeps a size within the closed form for the whole pot.
pub proof fn lemma_kelly_refine_within_closed_form(
    block: nat,
    losing_pool: nat,
    pool_value: nat,
    y: nat,
    rounds: nat,
)
    requires
        within_closed_form(y, full_pot(losing_pool, pool_value), block),
    ensures
        within_closed_form(
            kelly_refine(block, losing_pool, pool_value, y, rounds),
            full_pot(losing_pool, pool_value),
            block,
        ),
    decreases rounds,
{
    if rounds == 0 || y == 0 {
    } else {
        let pot = winning_pot(sub_clamped(losing_pool, y), pool_value);
        if pot != 0 {
            let next = kelly_size(pot, block);
            lemma_winning_pot_bounded(sub_clamped(losing_pool, y), losing_pool, pool_value);
            lemma_kelly_size_within_closed_form(pot, block, full_pot(losing_pool, pool_value));
            if size_gap(next, y) >= KELLY_TOLERANCE {
                lemma_kelly_refine_within_closed_form(
                    block,
                    losing_pool,
                    pool_value,
                    next,
                    (rounds - 1) as nat,
                );
            }
        }
    }
}

/// The optimal size never exceeds the closed form for the pot that the block
/// would win.
pub proof fn lemma_kelly_optimal_within_closed_form(block: nat, total: nat, pool_value: nat)
    ensures
        within_closed_form(
            kelly_optimal(block, total, pool_value),
            full_pot(sub_clamped(total, block), pool_value),
            block,
        ),
{
    if block == 0 || total <= block {
    } else {
        let losing_pool = (total - block) as nat;
        let pot = winning_pot(losing_pool, pool_value);
        if pot != 0 {
            lemma_winning_pot_bounded(losing_pool, losing_pool, pool_value);
            lemma_kelly_size_within_closed_form(pot, block, full_pot(losing_pool, pool_value));
            lemma_kelly_refine_within_closed_form(
                block,
                losing_pool,
                pool_value,
                kelly_size(pot, block),
                KELLY_REFINEMENTS as nat,
            );
        }
    }
}

/// A size never exceeds [`KELLY_MAX`].
pub proof fn lemma_kelly_size_bounded(pot: nat, block: nat)
    ensures
        kelly_size(pot, block) <= KELLY_MAX,
{
    let scaled = mul_clamped(mul_clamped(pot, block), FIXED_POINT as nat) / (C_SCALED as nat);
    lemma_isqrt_spec(scaled);
}

/// Refinement keeps a bounded size bounded.
pub proof fn lemma_kelly_refine_bounded(
    block: nat,
    losing_pool: nat,
    pool_value: nat,
    y: nat,
    rounds: nat,
)
    requires
        y <= KELLY_MAX,
    ensures
        kelly_refine(block, losing_pool, pool_value, y, rounds) <= KELLY_MAX,
    decreases rounds,
{
    if rounds == 0 || y == 0 {
    } else {
        let pot = winning_pot(sub_clamped(losing_pool, y), pool_value);
        if pot != 0 {
            let next = kelly_size(pot, block);
            lemma_kelly_size_bounded(pot, block);
            if size_gap(next, y) >= KELLY_TOLERANCE {
                lemma_kelly_refine_bounded(block, losing_pool, pool_value, next, (rounds - 1) as nat);
            }
        }
    }
}

/// The optimal size is zero on a degenerate pool and never exceeds [`KELLY_MAX`].
pub proof fn lemma_kelly_optimal_bounded(block: nat, total: nat, pool_value: nat)
    ensures
        kelly_optimal(block, total, pool_value) <= KELLY_MAX,
        block == 0 || total <= block ==> kelly_optimal(block, total, pool_value) == 0,
{
    if block == 0 || total <= block {
    } else {
        let losing_pool = (total - block) as nat;
        let pot = winning_pot(losing_pool, pool_value);
        if pot != 0 {
            lemma_kelly_size_bounded(pot, block);
            lemma_kelly_refine_bounded(
                block,
                losing_pool,
                pool_value,
                kelly_size(pot, block),
                KELLY_REFINEMENTS as nat,
            );
        }
    }
}

/// The size for a block of `block_size` against a pot worth `pot`.
fn size_for_pot(pot: u64, block_size: u64) -> (y: u64)
    ensures
        y == kelly_size(pot as nat, block_size as nat),
{
    let product: u64 = saturating_mul(pot, block_size);
    let scaled: u64 = saturating_mul(product, FIXED_POINT) / C_SCALED;
    isqrt(scaled).saturating_sub(block_size)
}

/// Kelly-optimal deployment for a single block.
///
/// Returns zero when the block is empty or holds the whole pool.  Otherwise
/// the closed form is evaluated against the pot the block would win and then
/// refined at most [`KELLY_REFINEMENTS`] times.  The result never exceeds the
/// closed form for that pot.
pub fn calculate_kelly_optimal(block_size: u64, total_pool: u64, ore_value: u64) -> (y_star: u64)
    ensures
        y_star == kelly_optimal(block_size as nat, total_pool as nat, ore_value as nat),
        block_size == 0 || total_pool <= block_size ==> y_star == 0,
        y_star <= KELLY_MAX,
        within_closed_form(
            y_star as nat,
            full_pot(sub_clamped(total_pool as nat, block_size as nat), ore_value as nat),
            block_size as nat,
        ),
{
    proof {
        lemma_kelly_optimal_bounded(block_size as nat, total_pool as nat, ore_value as nat);
        lemma_kelly_optimal_within_closed_form(
            block_size as nat,
            total_pool as nat,
            ore_value as nat,
        );
    }
    if block_size == 0 || total_pool <= block_size {
        return 0;
    }
    let losing_pool: u64 = total_pool - block_size;
    let v: u64 = pot_value(losing_pool, ore_value);
    if v == 0 {
        return 0;
    }
    let mut y_star: u64 = size_for_pot(v, block_size);
    let mut round: u64 = 0;
    while round < KELLY_REFINEMENTS && y_star != 0
        invariant
            round <= KELLY_REFINEMENTS,
            kelly_refine(
                block_size as nat,
                losing_pool as nat,
                ore_value as nat,
                y_star as nat,
                (KELLY_REFINEMENTS - round) as nat,
            ) == kelly_optimal(block_size as nat, total_pool as nat, ore_value as nat),
            kelly_optimal(block_size as nat, total_pool as nat, ore_value as nat) <= KELLY_MAX,
            within_closed_form(
                kelly_optimal(block_size as nat, total_pool as nat, ore_value as nat),
                full_pot(sub_clamped(total_pool as nat, block_size as nat), ore_value as nat),
                block_size as nat,
            ),
        decreases KELLY_REFINEMENTS - round,
    {
        let adjusted_pool: u64 = losing_pool.saturating_sub(y_star);
        let new_v: u64 = pot_value(adjusted_pool, ore_value);
        if new_v == 0 {
            return 0;
        }
        let new_y_star: u64 = size_for_pot(new_v, block_size);
        let diff: u64 = if new_y_star > y_star {
            new_y_star - y_star
        } else {
            y_star - new_y_star
        };
        if diff < KELLY_TOLERANCE {
            return new_y_star;
        }
        y_star = new_y_star;
        round += 1;
    }
    y_star
}

} // verus!
