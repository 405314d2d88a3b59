//! Expected value of committing an amount to one block.
//!
//! A block wins with probability one in [`BLOCK_COUNT`].  If it wins, the pot
//! is shared among the block's participants in proportion to what each has
//! committed; if it loses, the commitment is lost.  A platform fee is charged
//! on every commitment.

use crate::arith::{
    add_clamped, mul_clamped, mul_div_clamped, saturating_mul, saturating_mul_div, sub_clamped,
};
use vstd::prelude::*;

verus! {

/// Number of blocks in a round.
pub const BLOCK_COUNT: usize = 25;

/// One whole, in basis points.
pub const BPS: u64 = 10_000;

/// Share of the losing blocks' capital that reaches the pot, in basis points.
pub const POT_SHARE_BPS: u64 = 9_000;

/// The divisor of the expected win: the number of blocks times one whole in
/// basis points.
pub const WIN_SCALE: u64 = 250_000;

/// Platform fee on a commitment, in basis points (1.01 %).
pub const ADMIN_FEE_BPS: u64 = 101;

/// No expected value exceeds this bound, `u64::MAX / WIN_SCALE`: the expected
/// win cannot.
pub const EV_MAX: i64 = 73_786_976_294_838;

/// The pot that a block's participants share if the block wins: nine tenths of
/// what the other blocks hold, plus the value of the bonus pool.
pub open spec fn winning_pot(losing_pool: nat, pool_value: nat) -> nat {
    add_clamped(mul_div_clamped(losing_pool, POT_SHARE_BPS as nat, BPS as nat), pool_value)
}

/// The share of a block that a commitment of `deploy` buys, in basis points.
pub open spec fn share_bps(block: nat, deploy: nat) -> nat {
    mul_clamped(deploy, BPS as nat) / add_clamped(block, deploy)
}

/// The expected payout: the pot times the share, over the number of blocks.
pub open spec fn expected_win(block: nat, deploy: nat, total: nat, pool_value: nat) -> nat {
    mul_clamped(winning_pot(sub_clamped(total, block), pool_value), share_bps(block, deploy)) / (
    WIN_SCALE as nat)
}

/// The expected loss of principal: the commitment is lost unless the block wins.
pub open spec fn expected_loss(deploy: nat) -> nat {
    mul_clamped(deploy, (BLOCK_COUNT - 1) as nat) / (BLOCK_COUNT as nat)
}

/// The platform fee on a commitment.
pub open spec fn admin_fee(deploy: nat) -> nat {
    mul_clamped(deploy, ADMIN_FEE_BPS as nat) / (BPS as nat)
}

/// The expected value of committing `deploy` to a block that holds `block`,
/// in a round that holds `total`, with a bonus pool worth `pool_value`.
/// Without a commitment or on an empty block it is `i64::MIN`.
pub open spec fn expected_value(block: nat, deploy: nat, total: nat, pool_value: nat) -> int {
    if deploy == 0 || block == 0 {
        i64::MIN as int
    } else {
        expected_win(block, deploy, total, pool_value) - expected_loss(deploy) - admin_fee(deploy)
    }
}

/// The pot of a block that wins against a losing pool of `losing_pool`.
pub fn pot_value(losing_pool: u64, ore_value: u64) -> (pot: u64)
    ensures
        pot == winning_pot(losing_pool as nat, ore_value as nat),
{
    let winnings: u64 = saturating_mul_div(losing_pool, POT_SHARE_BPS, BPS);
    winnings.saturating_add(ore_value)
}

/// Expected value of deploying `deploy_amount` to a block of size `block_size`.
///
/// The result is `i64::MIN` when nothing is deployed or the block is empty.
/// Otherwise it is the expected win less the expected loss and the fee; it
/// lies between the negated deployment and [`EV_MAX`].
pub fn calculate_ev(block_size: u64, deploy_amount: u64, total_pool: u64, ore_value: u64) -> (ev:
    i64)
    ensures
        ev == expected_value(
            block_size as nat,
            deploy_amount as nat,
            total_pool as nat,
            ore_value as nat,
        ),
        deploy_amount > 0 && block_size > 0 ==> -(deploy_amount as int) <= ev <= EV_MAX,
{
    if deploy_amount == 0 || block_size == 0 {
        return i64::MIN;
    }
    let total_block: u64 = block_size.saturating_add(deploy_amount);

    let share: u64 = saturating_mul(deploy_amount, BPS) / total_block;

    let losing_pool: u64 = total_pool.saturating_sub(block_size);
    let pot: u64 = pot_value(losing_pool, ore_value);

    let win: u64 = saturating_mul(pot, share) / WIN_SCALE;
    let loss: u64 = saturating_mul(deploy_amount, 24) / 25;
    let fee: u64 = saturating_mul(deploy_amount, ADMIN_FEE_BPS) / BPS;

    (win as i64) - (loss as i64) - (fee as i64)
}

} // verus!
