//! Planning a deployment: sizing, scaling to the budget, and filtering by
//! expected value.
//!
//! The smallest blocks of the round are sized one by one.  If the sizes
//! together exceed the budget they are scaled down by one common factor.
//! The scaled candidates are then taken in rank order for as long as their
//! expected value meets the threshold.  The first candidate that misses it
//! ends the plan: candidates of higher rank are not looked at.

use crate::arith::{div_toward_zero, mul_clamped, saturating_mul};
use crate::ev::{calculate_ev, expected_value, BLOCK_COUNT, BPS, EV_MAX};
use crate::kelly::{calculate_kelly_optimal, kelly_optimal, FIXED_POINT, KELLY_MAX};
use crate::laws::{
    lemma_optimal_sizes_bounded, lemma_scale_factor_at_most_one, lemma_scaled_at_most_size,
    lemma_scaled_sizes_within_budget, lemma_selected_bounds, lemma_selected_ends_at_miss,
    lemma_selected_follows_ranking, lemma_sum_of_next,
};
use crate::rank::{ascending, block_at, rank_blocks, ranking, RankedBlock};
use crate::round::OreRound;
use vstd::prelude::*;

verus! {

/// Largest number of blocks that a plan can hold.
pub const MAX_CANDIDATES: usize = 5;

/// What the block index of an unused place of a plan holds.
pub const NO_BLOCK: u8 = 255;

/// One accepted candidate: a block, the amount to commit to it, and the
/// expected value of that commitment.
#[derive(Clone, Copy, Debug, PartialEq, Eq)]
pub struct Allocation {
    /// Index of the block in the round.
    pub block_index: u8,
    /// Amount to commit.
    pub amount: u64,
    /// Expected value of the commitment.
    pub expected_value: i64,
}

impl Allocation {
    /// The expected value in basis points of the amount, rounded toward zero.
    pub open spec fn return_bps_spec(&self) -> int {
        div_toward_zero(self.expected_value * 10_000, self.amount as int)
    }

    /// The amount is positive and, like the expected value, within the bounds
    /// that hold of every planned allocation.
    pub open spec fn bounded(&self) -> bool {
        0 < self.amount <= KELLY_MAX && -(KELLY_MAX as int) <= self.expected_value <= EV_MAX
    }

    /// The expected value in basis points of the amount, rounded toward zero.
    pub fn return_bps(&self) -> (bps: i64)
        requires
            self.bounded(),
        ensures
            bps == self.return_bps_spec(),
    {
        (self.expected_value * 10_000) / (self.amount as i64)
    }
}

/// A deployment plan: up to [`MAX_CANDIDATES`] allocations in rank order.
///
/// Only the first `count` places of the three arrays are in use.
#[derive(Clone, Copy, Debug, PartialEq, Eq)]
pub struct DeploymentPlan {
    /// Number of allocations.
    pub count: u8,
    /// Amount to commit, by place.
    pub amounts: [u64; 5],
    /// Index of the block, by place.
    pub block_indices: [u8; 5],
    /// Expected value of the commitment, by place.
    pub expected_values: [i64; 5],
}

impl DeploymentPlan {
    /// The allocations of the plan, in order.
    pub open spec fn allocations(&self) -> Seq<Allocation> {
        Seq::new(
            self.count as nat,
            |k: int|
                Allocation {
                    block_index: self.block_indices[k],
                    amount: self.amounts[k],
                    expected_value: self.expected_values[k],
                },
        )
    }

    /// The plan holds at most [`MAX_CANDIDATES`] allocations and its unused
    /// places are cleared.
    pub open spec fn wf(&self) -> bool {
        &&& self.count <= MAX_CANDIDATES
        &&& forall|k: int|
            self.count <= k < MAX_CANDIDATES ==> self.amounts[k] == 0 && self.block_indices[k]
                == NO_BLOCK && self.expected_values[k] == 0
    }

    /// Every allocation of the plan names a block of the round.
    pub open spec fn within_round(&self) -> bool {
        forall|k: int| 0 <= k < self.count ==> #[trigger] self.block_indices[k] < BLOCK_COUNT
    }

    /// Every allocation of the plan is bounded.
    pub open spec fn bounded(&self) -> bool {
        forall|k: int| 0 <= k < self.count ==> (#[trigger] self.allocations()[k]).bounded()
    }

    /// The plan is one that planning can yield: it holds at most
    /// [`MAX_CANDIDATES`] allocations, each bounded and on a block of the round.
    pub open spec fn sound(&self) -> bool {
        &&& self.count <= MAX_CANDIDATES
        &&& self.within_round()
        &&& self.bounded()
    }

    /// Whether the plan is sound.
    pub fn is_sound(&self) -> (ok: bool)
        ensures
            ok == self.sound(),
    {
        if self.count as usize > MAX_CANDIDATES {
            return false;
        }
        let n: usize = self.count as usize;
        let mut k: usize = 0;
        while k < n
            invariant
                k <= n == self.count <= MAX_CANDIDATES,
                forall|j: int| 0 <= j < k ==> #[trigger] self.block_indices[j] < BLOCK_COUNT,
                forall|j: int| 0 <= j < k ==> (#[trigger] self.allocations()[j]).bounded(),
            decreases n - k,
        {
            let index: u8 = self.block_indices[k];
            let amount: u64 = self.amounts[k];
            let ev: i64 = self.expected_values[k];
            if index as usize >= BLOCK_COUNT || amount == 0 || amount > KELLY_MAX || ev < -(
            KELLY_MAX as i64) || ev > EV_MAX {
                assert(!self.allocations()[k as int].bounded() || !(self.block_indices[k as int]
                    < BLOCK_COUNT));
                return false;
            }
            assert(self.allocations()[k as int].bounded());
            k += 1;
        }
        true
    }

    /// The allocation at place `k`.
    pub fn allocation(&self, k: usize) -> (allocation: Allocation)
        requires
            k < self.count <= MAX_CANDIDATES,
        ensures
            allocation == self@[k as int],
    {
        Allocation {
            block_index: self.block_indices[k],
            amount: self.amounts[k],
            expected_value: self.expected_values[k],
        }
    }
}

impl View for DeploymentPlan {
    type V = Seq<Allocation>;

    open spec fn view(&self) -> Seq<Allocation> {
        self.allocations()
    }
}

/// The value of the bonus pool: nine tenths of the unit price, plus nine
/// tenths of a 625th of the bonus.
pub open spec fn bonus_pool_value(unit_price: nat, motherlode: nat) -> nat {
    mul_clamped(unit_price, 9) / 10 + mul_clamped(motherlode, 9) / 6250
}

/// The unconstrained sizes of the `n` blocks of lowest rank.
pub open spec fn optimal_sizes(
    ranked: Seq<RankedBlock>,
    total: nat,
    pool_value: nat,
    n: nat,
) -> Seq<nat> {
    Seq::new(n, |i: int| kelly_optimal(ranked[i].committed as nat, total, pool_value))
}

/// The sum of a sequence of amounts.
pub open spec fn sum_of(amounts: Seq<nat>) -> nat
    decreases amounts.len(),
{
    if amounts.len() == 0 {
        0
    } else {
        sum_of(amounts.drop_last()) + amounts.last()
    }
}

/// The common factor, in fixed point, by which sizes are scaled: one if they
/// fit the budget together, else the budget over their sum.
pub open spec fn scale_factor(unconstrained: nat, budget: nat) -> nat {
    if unconstrained > budget {
        budget * (FIXED_POINT as nat) / unconstrained
    } else {
        FIXED_POINT as nat
    }
}

/// A size scaled by a fixed-point factor, rounded down.
pub open spec fn scaled(size: nat, factor: nat) -> nat {
    size * factor / (FIXED_POINT as nat)
}

/// The sizes scaled to fit the budget together.
pub open spec fn scaled_sizes(sizes: Seq<nat>, budget: nat) -> Seq<nat> {
    Seq::new(sizes.len(), |i: int| scaled(sizes[i], scale_factor(sum_of(sizes), budget)))
}

/// The least expected value that a commitment of `amount` must have.
pub open spec fn required_value(amount: nat, threshold_bps: int) -> int {
    div_toward_zero(amount * threshold_bps, BPS as int)
}

/// A commitment of `amount` to `block` meets the threshold.
pub open spec fn meets_threshold(
    block: RankedBlock,
    amount: nat,
    total: nat,
    pool_value: nat,
    threshold_bps: int,
) -> bool {
    expected_value(block.committed as nat, amount, total, pool_value) >= required_value(
        amount,
        threshold_bps,
    )
}

/// The allocation of `amount` to `block`.
pub open spec fn allocation_of(
    block: RankedBlock,
    amount: nat,
    total: nat,
    pool_value: nat,
) -> Allocation {
    Allocation {
        block_index: block.index,
        amount: amount as u64,
        expected_value: expected_value(block.committed as nat, amount, total, pool_value) as i64,
    }
}

/// The candidate of rank `i` is put to the test and misses the threshold.
pub open spec fn misses(
    ranked: Seq<RankedBlock>,
    amounts: Seq<nat>,
    total: nat,
    pool_value: nat,
    threshold_bps: int,
    i: int,
) -> bool {
    amounts[i] != 0 && !meets_threshold(ranked[i], amounts[i], total, pool_value, threshold_bps)
}

/// Some candidate of rank below `n` misses the threshold.
pub open spec fn halted_before(
    ranked: Seq<RankedBlock>,
    amounts: Seq<nat>,
    total: nat,
    pool_value: nat,
    threshold_bps: int,
    n: int,
) -> bool {
    exists|i: int|
        0 <= i < n && #[trigger] misses(ranked, amounts, total, pool_value, threshold_bps, i)
}

/// The allocations selected from the candidates of rank below `n`, in rank
/// order.
///
/// A candidate is selected if its amount is not zero and neither it nor any
/// candidate of lower rank misses the threshold.
pub open spec fn selected(
    ranked: Seq<RankedBlock>,
    amounts: Seq<nat>,
    total: nat,
    pool_value: nat,
    threshold_bps: int,
    n: int,
) -> Seq<Allocation>
    decreases n,
{
    if n <= 0 {
        Seq::empty()
    } else {
        let below = selected(ranked, amounts, total, pool_value, threshold_bps, n - 1);
        if amounts[n - 1] == 0 || halted_before(
            ranked,
            amounts,
            total,
            pool_value,
            threshold_bps,
            n,
        ) {
            below
        } else {
            below.push(allocation_of(ranked[n - 1], amounts[n - 1], total, pool_value))
        }
    }
}

/// The blocks that a sequence of allocations names, in order.
pub open spec fn blocks_named(deployed: Seq<u64>, allocations: Seq<Allocation>) -> Seq<
    RankedBlock,
> {
    Seq::new(allocations.len(), |k: int| block_at(deployed, allocations[k].block_index))
}

/// The sum of the amounts of a sequence of allocations.
pub open spec fn total_amount(allocations: Seq<Allocation>) -> nat
    decreases allocations.len(),
{
    if allocations.len() == 0 {
        0
    } else {
        total_amount(allocations.drop_last()) + allocations.last().amount as nat
    }
}

/// The candidate amounts of a request: the sizes of the `max_blocks` blocks of
/// lowest rank, scaled to the budget.
pub open spec fn candidate_amounts(
    round: OreRound,
    total_budget: u64,
    max_blocks: u8,
    unit_price: u64,
) -> Seq<nat> {
    scaled_sizes(
        optimal_sizes(
            ranking(round.deployed@),
            round.total_deployed as nat,
            bonus_pool_value(unit_price as nat, round.motherlode as nat),
            max_blocks as nat,
        ),
        total_budget as nat,
    )
}

/// The allocations that [`calculate_optimal_deployments`] plans.
pub open spec fn planned_allocations(
    round: OreRound,
    total_budget: u64,
    max_blocks: u8,
    unit_price: u64,
    threshold_bps: i16,
) -> Seq<Allocation> {
    selected(
        ranking(round.deployed@),
        candidate_amounts(round, total_budget, max_blocks, unit_price),
        round.total_deployed as nat,
        bonus_pool_value(unit_price as nat, round.motherlode as nat),
        threshold_bps as int,
        max_blocks as int,
    )
}

/// The value of the bonus pool at a unit price.
pub fn pool_value(unit_price: u64, motherlode: u64) -> (value: u64)
    ensures
        value == bonus_pool_value(unit_price as nat, motherlode as nat),
{
    let base: u64 = saturating_mul(unit_price, 9) / 10;
    let bonus: u64 = saturating_mul(motherlode, 9) / 6250;
    base + bonus
}

/// Plans a deployment over the `max_blocks` smallest blocks of a round.
///
/// The plan holds the selected candidates in rank order, so its blocks are
/// blocks of the round, each ranking strictly before the next.  It never holds
/// more than `max_blocks` allocations, and their amounts never exceed
/// `total_budget` together.
pub fn calculate_optimal_deployments(
    round: &OreRound,
    total_budget: u64,
    max_blocks: u8,
    ore_price_lamports: u64,
    min_ev_threshold_bps: i16,
) -> (plan: DeploymentPlan)
    requires
        max_blocks <= MAX_CANDIDATES,
    ensures
        plan.wf(),
        plan@ == planned_allocations(
            *round,
            total_budget,
            max_blocks,
            ore_price_lamports,
            min_ev_threshold_bps,
        ),
        plan.count <= max_blocks,
        total_amount(plan@) <= total_budget,
        plan.sound(),
        ascending(blocks_named(round.deployed@, plan@)),
{
    let ore_value: u64 = pool_value(ore_price_lamports, round.motherlode);
    let blocks: [RankedBlock; 25] = rank_blocks(&round.deployed);
    let n: usize = max_blocks as usize;

    let ghost ranked = ranking(round.deployed@);
    let ghost total = round.total_deployed as nat;
    let ghost pool = ore_value as nat;
    let ghost threshold = min_ev_threshold_bps as int;
    let ghost sizes = optimal_sizes(ranked, total, pool, n as nat);
    let ghost candidates = scaled_sizes(sizes, total_budget as nat);
    proof {
        lemma_optimal_sizes_bounded(ranked, total, pool, n as nat);
        lemma_scaled_sizes_within_budget(sizes, total_budget as nat);
        lemma_selected_bounds(ranked, candidates, total, pool, threshold, n as int);
        lemma_selected_follows_ranking(
            round.deployed@,
            ranked,
            candidates,
            total,
            pool,
            threshold,
            n as int,
        );
        assert(candidates.take(n as int) =~= candidates);
    }

    let mut optimal_amounts: [u64; 5] = [0;5];
    let mut total_optimal: u64 = 0;
    let mut i: usize = 0;
    while i < n
        invariant
            i <= n <= MAX_CANDIDATES,
            blocks@ == ranked,
            sizes == optimal_sizes(ranked, total, pool, n as nat),
            total == round.total_deployed,
            pool == ore_value,
            forall|k: int| 0 <= k < i ==> optimal_amounts@[k] == #[trigger] sizes[k],
            forall|k: int| 0 <= k < n ==> #[trigger] sizes[k] <= KELLY_MAX,
            total_optimal == sum_of(sizes.take(i as int)),
            total_optimal <= i * KELLY_MAX,
        decreases n - i,
    {
        let optimal: u64 = calculate_kelly_optimal(
            blocks[i].committed,
            round.total_deployed,
            ore_value,
        );
        proof {
            lemma_sum_of_next(sizes, i as int);
            assert(optimal == sizes[i as int]);
        }
        optimal_amounts[i] = optimal;
        total_optimal = total_optimal + optimal;
        i += 1;
    }
    assert(sizes.take(n as int) =~= sizes);

    let scale_factor: u64 = if total_optimal > total_budget {
        assert(total_budget * FIXED_POINT <= u64::MAX) by (nonlinear_arith)
            requires
                total_budget < total_optimal,
                total_optimal <= 5 * KELLY_MAX,
        ;
        (total_budget * FIXED_POINT) / total_optimal
    } else {
        FIXED_POINT
    };
    proof {
        lemma_scale_factor_at_most_one(total_optimal as nat, total_budget as nat);
        assert forall|k: int| 0 <= k < n implies #[trigger] optimal_amounts@[k] <= KELLY_MAX by {
            assert(optimal_amounts@[k] == sizes[k]);
        }
        assert forall|k: int| 0 <= k < n implies #[trigger] candidates[k] == scaled(
            optimal_amounts@[k] as nat,
            scale_factor as nat,
        ) by {
            assert(optimal_amounts@[k] == sizes[k]);
        }
    }

    let mut count: u8 = 0;
    let mut amounts: [u64; 5] = [0;5];
    let mut indices: [u8; 5] = [NO_BLOCK;5];
    let mut evs: [i64; 5] = [0;5];
    let mut i: usize = 0;
    while i < n
        invariant_except_break
            i <= n,
            !halted_before(ranked, candidates, total, pool, threshold, i as int),
            (DeploymentPlan { count, amounts, block_indices: indices, expected_values: evs })@
                == selected(ranked, candidates, total, pool, threshold, i as int),
        invariant
            n <= MAX_CANDIDATES,
            count <= i,
            blocks@ == ranked,
            total == round.total_deployed,
            pool == ore_value,
            threshold == min_ev_threshold_bps,
            scale_factor <= FIXED_POINT,
            candidates.len() == n,
            forall|k: int| 0 <= k < n ==> #[trigger] optimal_amounts@[k] <= KELLY_MAX,
            forall|k: int|
                0 <= k < n ==> #[trigger] candidates[k] == scaled(
                    optimal_amounts@[k] as nat,
                    scale_factor as nat,
                ),
            (DeploymentPlan { count, amounts, block_indices: indices, expected_values: evs }).wf(),
            (DeploymentPlan {
                count,
                amounts,
                block_indices: indices,
                expected_values: evs,
            }).bounded(),
        ensures
            (DeploymentPlan { count, amounts, block_indices: indices, expected_values: evs })@
                == selected(ranked, candidates, total, pool, threshold, n as int),
        decreases n - i,
    {
        let optimal: u64 = optimal_amounts[i];
        assert(optimal * scale_factor <= u64::MAX) by (nonlinear_arith)
            requires
                optimal <= KELLY_MAX,
                scale_factor <= FIXED_POINT,
        ;
        let scaled_amount: u64 = (optimal * scale_factor) / FIXED_POINT;
        proof {
            lemma_scaled_at_most_size(optimal as nat, scale_factor as nat);
            assert(scaled_amount == candidates[i as int]);
        }
        if scaled_amount != 0 {
            let block: RankedBlock = blocks[i];
            let ev: i64 = calculate_ev(
                block.committed,
                scaled_amount,
                round.total_deployed,
                ore_value,
            );
            assert(-40_000_000_000_000 <= scaled_amount * min_ev_threshold_bps
                <= 40_000_000_000_000) by (nonlinear_arith)
                requires
                    scaled_amount <= KELLY_MAX,
                    -32768 <= min_ev_threshold_bps <= 32767,
            ;
            let min_ev: i64 = (scaled_amount as i64 * min_ev_threshold_bps as i64) / 10_000;
            assert(min_ev == required_value(scaled_amount as nat, threshold));
            if ev >= min_ev {
                let ghost before = DeploymentPlan {
                    count,
                    amounts,
                    block_indices: indices,
                    expected_values: evs,
                };
                amounts[count as usize] = scaled_amount;
                indices[count as usize] = block.index;
                evs[count as usize] = ev;
                count += 1;
                proof {
                    let after = DeploymentPlan {
                        count,
                        amounts,
                        block_indices: indices,
                        expected_values: evs,
                    };
                    assert(!misses(ranked, candidates, total, pool, threshold, i as int));
                    assert(after@ =~= before@.push(
                        allocation_of(ranked[i as int], candidates[i as int], total, pool),
                    ));
                }
            } else {
                proof {
                    assert(misses(ranked, candidates, total, pool, threshold, i as int));
                    lemma_selected_ends_at_miss(
                        ranked,
                        candidates,
                        total,
                        pool,
                        threshold,
                        i as int,
                        n as int,
                    );
                }
                break;
            }
        } else {
            assert(!misses(ranked, candidates, total, pool, threshold, i as int));
        }
        i += 1;
    }
    let plan = DeploymentPlan { count, amounts, block_indices: indices, expected_values: evs };
    proof {
        assert forall|k: int| 0 <= k < plan.count implies #[trigger] plan.block_indices[k]
            < BLOCK_COUNT by {
            assert(plan@[k].block_index == plan.block_indices[k]);
        }
    }
    plan
}

} // verus!
