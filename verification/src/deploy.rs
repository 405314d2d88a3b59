//! Handling a deployment request: validation, planning, and the orders that
//! carry a plan out.

use crate::error::DeployError;
use crate::instruction::OreDeployIxData;
use crate::kelly::KELLY_MAX;
use crate::plan::{
    blocks_named, calculate_optimal_deployments, planned_allocations, total_amount, Allocation,
    DeploymentPlan,
};
use crate::rank::ascending;
use crate::round::OreRound;
use crate::wire::{u32_le_bytes, u64_le_bytes, write_u32_le, write_u64_le};
use vstd::arithmetic::power2::{lemma2_to64, pow2};
use vstd::prelude::*;

verus! {

/// The tag of the order that commits an amount to blocks.
pub const ORE_DEPLOY_IX_DISCRIMINATOR: u8 = 6;

/// One order to the settlement system: commit `amount` to the blocks whose
/// bits are set in `squares`.
#[derive(Clone, Copy, Debug, PartialEq, Eq)]
pub struct DeployOrder {
    /// Amount to commit.
    pub amount: u64,
    /// Mask of the blocks to commit to: bit `i` stands for block `i`.
    pub squares: u32,
}

/// The allocations planned for a request in a round.
pub open spec fn planned_for(round: OreRound, request: OreDeployIxData) -> Seq<Allocation> {
    planned_allocations(
        round,
        request.total_amount,
        request.num_blocks,
        request.ore_price_lamports,
        request.min_ev_threshold_bps,
    )
}

/// The data of the order that commits `sol_amount` to the blocks in `squares`:
/// the tag, then the amount and the mask in little-endian order.
pub open spec fn deploy_order_bytes(sol_amount: u64, squares: u32) -> Seq<u8> {
    seq![ORE_DEPLOY_IX_DISCRIMINATOR] + u64_le_bytes(sol_amount) + u32_le_bytes(squares)
}

/// Handles a deployment request against the state of a round.
///
/// A request that names no block or more than five, or gives no unit price,
/// is refused as invalid before anything is computed.  A request in order
/// yields its plan, or is refused for want of a viable allocation when the
/// plan would be empty.
pub fn process_ore_deploy(round: &OreRound, ix_data: &OreDeployIxData) -> (result: Result<
    DeploymentPlan,
    DeployError,
>)
    ensures
        !ix_data.valid() ==> result == Err::<DeploymentPlan, DeployError>(
            DeployError::InvalidRequest,
        ),
        ix_data.valid() ==> match result {
            Ok(plan) => {
                &&& plan.wf()
                &&& plan@ == planned_for(*round, *ix_data)
                &&& 1 <= plan.count <= ix_data.num_blocks
                &&& plan.sound()
                &&& ascending(blocks_named(round.deployed@, plan@))
                &&& total_amount(plan@) <= ix_data.total_amount
            },
            Err(e) => e == DeployError::NoViableAllocation && planned_for(*round, *ix_data).len()
                == 0,
        },
{
    if ix_data.num_blocks == 0 || ix_data.num_blocks > 5 {
        return Err(DeployError::InvalidRequest);
    }
    if ix_data.ore_price_lamports == 0 {
        return Err(DeployError::InvalidRequest);
    }
    let plan: DeploymentPlan = calculate_optimal_deployments(
        round,
        ix_data.total_amount,
        ix_data.num_blocks,
        ix_data.ore_price_lamports,
        ix_data.min_ev_threshold_bps,
    );
    if plan.count == 0 {
        return Err(DeployError::NoViableAllocation);
    }
    Ok(plan)
}

/// The mask in which the bit of one block is set and no other.
pub fn block_mask(block_index: u8) -> (mask: u32)
    requires
        block_index < 32,
    ensures
        mask == pow2(block_index as nat),
        mask == 1u32 << block_index,
{
    proof {
        lemma2_to64();
        vstd::bits::lemma_u32_shl_is_mul(1u32, block_index as u32);
    }
    1u32 << block_index
}

impl DeploymentPlan {
    /// The order that carries out the allocation at place `k`.
    pub fn order(&self, k: usize) -> (order: DeployOrder)
        requires
            self.sound(),
            k < self.count,
        ensures
            order.amount == self.amounts[k as int],
            order.squares == pow2(self.block_indices[k as int] as nat),
    {
        DeployOrder { amount: self.amounts[k], squares: block_mask(self.block_indices[k]) }
    }

    /// The sum of the amounts of the plan.
    pub fn total_deployed(&self) -> (sum: u64)
        requires
            self.sound(),
        ensures
            sum == total_amount(self@),
    {
        proof {
            lemma_total_amount_bounded(self@);
        }
        let n: usize = self.count as usize;
        let mut sum: u64 = 0;
        let mut k: usize = 0;
        while k < n
            invariant
                k <= n == self.count <= 5,
                sum == total_amount(self@.take(k as int)),
                total_amount(self@) <= u64::MAX,
            decreases n - k,
        {
            proof {
                lemma_total_amount_next(self@, k as int);
                lemma_total_amount_prefix(self@, k + 1);
            }
            sum = sum + self.amounts[k];
            k += 1;
        }
        assert(self@.take(n as int) =~= self@);
        sum
    }
}

/// The sum of the first `k + 1` amounts is the sum of the first `k` and the next.
pub proof fn lemma_total_amount_next(allocations: Seq<Allocation>, k: int)
    requires
        0 <= k < allocations.len(),
    ensures
        total_amount(allocations.take(k + 1)) == total_amount(allocations.take(k))
            + allocations[k].amount,
{
    assert(allocations.take(k + 1).drop_last() =~= allocations.take(k));
}

/// Bounded allocations sum to at most their number times [`KELLY_MAX`].
pub proof fn lemma_total_amount_bounded(allocations: Seq<Allocation>)
    requires
        forall|k: int| 0 <= k < allocations.len() ==> (#[trigger] allocations[k]).bounded(),
    ensures
        total_amount(allocations) <= allocations.len() * KELLY_MAX,
    decreases allocations.len(),
{
    if allocations.len() > 0 {
        lemma_total_amount_bounded(allocations.drop_last());
        assert(allocations.last().bounded());
        assert(allocations.len() * KELLY_MAX == (allocations.len() - 1) * KELLY_MAX + KELLY_MAX)
            by (nonlinear_arith);
    }
}

/// The amounts of a prefix sum to no more than all amounts.
pub proof fn lemma_total_amount_prefix(allocations: Seq<Allocation>, k: int)
    requires
        0 <= k <= allocations.len(),
    ensures
        total_amount(allocations.take(k)) <= total_amount(allocations),
    decreases allocations.len() - k,
{
    if k < allocations.len() {
        lemma_total_amount_next(allocations, k);
        lemma_total_amount_prefix(allocations, k + 1);
    } else {
        assert(allocations.take(k) =~= allocations);
    }
}

/// The data of the order that commits `sol_amount` to the blocks in `squares`.
pub fn deploy_order_data(sol_amount: u64, squares: u32) -> (data: [u8; 13])
    ensures
        data@ == deploy_order_bytes(sol_amount, squares),
{
    let amount: [u8; 8] = write_u64_le(sol_amount);
    let mask: [u8; 4] = write_u32_le(squares);
    let data: [u8; 13] = [
        ORE_DEPLOY_IX_DISCRIMINATOR,
        amount[0],
        amount[1],
        amount[2],
        amount[3],
        amount[4],
        amount[5],
        amount[6],
        amount[7],
        mask[0],
        mask[1],
        mask[2],
        mask[3],
    ];
    assert(data@ =~= deploy_order_bytes(sol_amount, squares));
    data
}

} // verus!
