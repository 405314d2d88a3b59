//! What holds of every plan: it stays within the request's number of blocks
//! and within its budget, it follows the ranking, and it ends at the first
//! candidate that misses the threshold.

use crate::kelly::{kelly_optimal, lemma_kelly_optimal_bounded, FIXED_POINT, KELLY_MAX};
use crate::ev::BLOCK_COUNT;
use crate::plan::{
    blocks_named, bonus_pool_value, candidate_amounts, halted_before, misses, optimal_sizes,
    planned_allocations, scale_factor, scaled, scaled_sizes, selected, sum_of, total_amount,
};
use crate::rank::{
    ascending, block_at, is_ranking, lemma_ranking_exists, ranking, ranks_before, RankedBlock,
};
use crate::round::OreRound;
use vstd::prelude::*;

verus! {

/// The sum of the first `i + 1` amounts is the sum of the first `i` and the next.
pub proof fn lemma_sum_of_next(amounts: Seq<nat>, i: int)
    requires
        0 <= i < amounts.len(),
    ensures
        sum_of(amounts.take(i + 1)) == sum_of(amounts.take(i)) + amounts[i],
{
    assert(amounts.take(i + 1).drop_last() =~= amounts.take(i));
}

/// A sum of amounts that are each at most `bound` is at most their number
/// times `bound`.
pub proof fn lemma_sum_of_bounded(amounts: Seq<nat>, bound: nat)
    requires
        forall|i: int| 0 <= i < amounts.len() ==> amounts[i] <= bound,
    ensures
        sum_of(amounts) <= amounts.len() * bound,
    decreases amounts.len(),
{
    if amounts.len() > 0 {
        lemma_sum_of_bounded(amounts.drop_last(), bound);
        assert(amounts.len() * bound == (amounts.len() - 1) * bound + bound) by (nonlinear_arith);
    }
}

/// Every unconstrained size is at most [`KELLY_MAX`].
pub proof fn lemma_optimal_sizes_bounded(
    ranked: Seq<RankedBlock>,
    total: nat,
    pool_value: nat,
    n: nat,
)
    ensures
        forall|i: int|
            0 <= i < n ==> #[trigger] optimal_sizes(ranked, total, pool_value, n)[i] <= KELLY_MAX,
        sum_of(optimal_sizes(ranked, total, pool_value, n)) <= n * KELLY_MAX,
{
    let sizes = optimal_sizes(ranked, total, pool_value, n);
    assert forall|i: int| 0 <= i < n implies #[trigger] sizes[i] <= KELLY_MAX by {
        lemma_kelly_optimal_bounded(ranked[i].committed as nat, total, pool_value);
    }
    lemma_sum_of_bounded(sizes, KELLY_MAX as nat);
}

/// The common factor never exceeds one.
pub proof fn lemma_scale_factor_at_most_one(unconstrained: nat, budget: nat)
    ensures
        scale_factor(unconstrained, budget) <= FIXED_POINT,
{
    if unconstrained > budget {
        let f = FIXED_POINT as nat;
        assert(budget * f / unconstrained <= f) by (nonlinear_arith)
            requires
                unconstrained > budget,
        ;
    }
}

/// Scaling by a factor of at most one does not enlarge a size, and scaling
/// by one leaves it as it is.
pub proof fn lemma_scaled_at_most_size(size: nat, factor: nat)
    requires
        factor <= FIXED_POINT,
    ensures
        scaled(size, factor) <= size,
        factor == FIXED_POINT ==> scaled(size, factor) == size,
{
    let f = FIXED_POINT as nat;
    assert(size * factor / f <= size) by (nonlinear_arith)
        requires
            factor <= f,
            f > 0,
    ;
    assert(size * f / f == size) by (nonlinear_arith)
        requires
            f > 0,
    ;
}

/// A size scaled to the budget keeps its share: its product with the sum of
/// all sizes is at most its unscaled product with the budget.
proof fn lemma_scaled_share(size: nat, unconstrained: nat, budget: nat)
    requires
        unconstrained > budget,
    ensures
        unconstrained * scaled(size, scale_factor(unconstrained, budget)) <= budget * size,
{
    let f = FIXED_POINT as nat;
    let factor = budget * f / unconstrained;
    let part = size * factor / f;
    assert(factor * unconstrained <= budget * f) by (nonlinear_arith)
        requires
            factor == budget * f / unconstrained,
            unconstrained > 0,
    ;
    assert(part * f <= size * factor) by (nonlinear_arith)
        requires
            part == size * factor / f,
            f > 0,
    ;
    assert(unconstrained * part <= budget * size) by (nonlinear_arith)
        requires
            factor * unconstrained <= budget * f,
            part * f <= size * factor,
            f > 0,
    ;
}

/// The first `i` scaled sizes keep their share of the budget together.
proof fn lemma_scaled_prefix_share(sizes: Seq<nat>, budget: nat, i: int)
    requires
        sum_of(sizes) > budget,
        0 <= i <= sizes.len(),
    ensures
        sum_of(sizes) * sum_of(scaled_sizes(sizes, budget).take(i)) <= budget * sum_of(
            sizes.take(i),
        ),
    decreases i,
{
    let all = sum_of(sizes);
    let parts = scaled_sizes(sizes, budget);
    if i == 0 {
        assert(parts.take(0) =~= Seq::<nat>::empty());
        assert(sizes.take(0) =~= Seq::<nat>::empty());
        assert(all * 0 == 0 && budget * 0 == 0) by (nonlinear_arith);
    } else {
        lemma_scaled_prefix_share(sizes, budget, i - 1);
        lemma_sum_of_next(parts, i - 1);
        lemma_sum_of_next(sizes, i - 1);
        lemma_scaled_share(sizes[i - 1], all, budget);
        let p0 = sum_of(parts.take(i - 1));
        let s0 = sum_of(sizes.take(i - 1));
        let p = parts[i - 1];
        let s = sizes[i - 1];
        assert(all * (p0 + p) <= budget * (s0 + s)) by (nonlinear_arith)
            requires
                all * p0 <= budget * s0,
                all * p <= budget * s,
        ;
    }
}

/// Scaled to the budget, the sizes do not exceed it together.  No size grows,
/// and sizes that fit the budget as they are stay as they are.
pub proof fn lemma_scaled_sizes_within_budget(sizes: Seq<nat>, budget: nat)
    ensures
        sum_of(scaled_sizes(sizes, budget)) <= budget,
        forall|i: int|
            0 <= i < sizes.len() ==> #[trigger] scaled_sizes(sizes, budget)[i] <= sizes[i],
        sum_of(sizes) <= budget ==> scaled_sizes(sizes, budget) == sizes,
{
    let all = sum_of(sizes);
    let parts = scaled_sizes(sizes, budget);
    lemma_scale_factor_at_most_one(all, budget);
    assert forall|i: int| 0 <= i < sizes.len() implies #[trigger] parts[i] <= sizes[i] by {
        lemma_scaled_at_most_size(sizes[i], scale_factor(all, budget));
    }
    if all > budget {
        lemma_scaled_prefix_share(sizes, budget, sizes.len() as int);
        assert(parts.take(sizes.len() as int) =~= parts);
        assert(sizes.take(sizes.len() as int) =~= sizes);
        let together = sum_of(parts);
        assert(together <= budget) by (nonlinear_arith)
            requires
                all * together <= budget * all,
                all > 0,
        ;
    } else {
        assert forall|i: int| 0 <= i < sizes.len() implies parts[i] == sizes[i] by {
            lemma_scaled_at_most_size(sizes[i], scale_factor(all, budget));
        }
        assert(parts =~= sizes);
    }
}

/// Once a candidate has missed the threshold, candidates of higher rank add
/// nothing to the selection.
pub proof fn lemma_selected_ends_at_miss(
    ranked: Seq<RankedBlock>,
    amounts: Seq<nat>,
    total: nat,
    pool_value: nat,
    threshold_bps: int,
    i: int,
    n: int,
)
    requires
        0 <= i < n,
        misses(ranked, amounts, total, pool_value, threshold_bps, i),
    ensures
        selected(ranked, amounts, total, pool_value, threshold_bps, n) == selected(
            ranked,
            amounts,
            total,
            pool_value,
            threshold_bps,
            i,
        ),
    decreases n - i,
{
    assert(halted_before(ranked, amounts, total, pool_value, threshold_bps, n));
    if n > i + 1 {
        lemma_selected_ends_at_miss(ranked, amounts, total, pool_value, threshold_bps, i, n - 1);
    }
}

/// A selection from the candidates below rank `n` holds at most `n`
/// allocations, and their amounts sum to at most the sum of the candidates'
/// amounts.
pub proof fn lemma_selected_bounds(
    ranked: Seq<RankedBlock>,
    amounts: Seq<nat>,
    total: nat,
    pool_value: nat,
    threshold_bps: int,
    n: int,
)
    requires
        0 <= n <= amounts.len(),
        forall|i: int| 0 <= i < amounts.len() ==> amounts[i] <= u64::MAX,
    ensures
        selected(ranked, amounts, total, pool_value, threshold_bps, n).len() <= n,
        total_amount(selected(ranked, amounts, total, pool_value, threshold_bps, n)) <= sum_of(
            amounts.take(n),
        ),
        forall|k: int|
            0 <= k < selected(ranked, amounts, total, pool_value, threshold_bps, n).len()
                ==> #[trigger] selected(
                ranked,
                amounts,
                total,
                pool_value,
                threshold_bps,
                n,
            )[k].amount > 0,
    decreases n,
{
    if n > 0 {
        lemma_selected_bounds(ranked, amounts, total, pool_value, threshold_bps, n - 1);
        lemma_sum_of_next(amounts, n - 1);
        let below = selected(ranked, amounts, total, pool_value, threshold_bps, n - 1);
        let here = selected(ranked, amounts, total, pool_value, threshold_bps, n);
        if here != below {
            assert(here.drop_last() =~= below);
        }
    } else {
        assert(amounts.take(0) =~= Seq::<nat>::empty());
    }
}

/// A selection from the candidates below rank `n` names blocks in ascending
/// rank, each of them of rank below `n`.
pub proof fn lemma_selected_follows_ranking(
    deployed: Seq<u64>,
    ranked: Seq<RankedBlock>,
    amounts: Seq<nat>,
    total: nat,
    pool_value: nat,
    threshold_bps: int,
    n: int,
)
    requires
        is_ranking(deployed, ranked),
        0 <= n <= ranked.len(),
    ensures
        ascending(
            blocks_named(deployed, selected(ranked, amounts, total, pool_value, threshold_bps, n)),
        ),
        forall|k: int, j: int|
            0 <= k < selected(ranked, amounts, total, pool_value, threshold_bps, n).len() && n
                <= j < ranked.len() ==> ranks_before(
                #[trigger] blocks_named(
                    deployed,
                    selected(ranked, amounts, total, pool_value, threshold_bps, n),
                )[k],
                #[trigger] ranked[j],
            ),
        forall|k: int|
            0 <= k < selected(ranked, amounts, total, pool_value, threshold_bps, n).len()
                ==> (#[trigger] selected(ranked, amounts, total, pool_value, threshold_bps, n)[k]).block_index
                < deployed.len(),
    decreases n,
{
    if n > 0 {
        lemma_selected_follows_ranking(
            deployed,
            ranked,
            amounts,
            total,
            pool_value,
            threshold_bps,
            n - 1,
        );
        let below = selected(ranked, amounts, total, pool_value, threshold_bps, n - 1);
        let here = selected(ranked, amounts, total, pool_value, threshold_bps, n);
        let blocks_below = blocks_named(deployed, below);
        let blocks_here = blocks_named(deployed, here);
        assert(block_at(deployed, ranked[n - 1].index) == ranked[n - 1]);
        assert forall|k: int, j: int|
            0 <= k < here.len() && n <= j < ranked.len() implies ranks_before(
            #[trigger] blocks_here[k],
            #[trigger] ranked[j],
        ) by {
            if k < below.len() {
                assert(blocks_here[k] == blocks_below[k]);
                assert(ranks_before(blocks_below[k], ranked[j]));
            } else {
                assert(blocks_here[k] == ranked[n - 1]);
                assert(ranks_before(ranked[n - 1], ranked[j]));
            }
        }
        assert forall|k: int, l: int| 0 <= k < l < blocks_here.len() implies ranks_before(
            #[trigger] blocks_here[k],
            #[trigger] blocks_here[l],
        ) by {
            assert(blocks_here[k] == blocks_below[k]);
            if l < below.len() {
                assert(blocks_here[l] == blocks_below[l]);
                assert(ranks_before(blocks_below[k], blocks_below[l]));
            } else {
                assert(blocks_here[l] == ranked[n - 1]);
                assert(ranks_before(blocks_below[k], ranked[n - 1]));
            }
        }
    }
}

/// A plan holds at most as many allocations as the request names blocks, and
/// each of its amounts is positive.
pub proof fn lemma_plan_count(
    round: OreRound,
    total_budget: u64,
    max_blocks: u8,
    unit_price: u64,
    threshold_bps: i16,
)
    ensures
        planned_allocations(round, total_budget, max_blocks, unit_price, threshold_bps).len()
            <= max_blocks,
        forall|k: int|
            0 <= k < planned_allocations(
                round,
                total_budget,
                max_blocks,
                unit_price,
                threshold_bps,
            ).len() ==> (#[trigger] planned_allocations(
                round,
                total_budget,
                max_blocks,
                unit_price,
                threshold_bps,
            )[k]).amount > 0,
{
    lemma_candidates_bounded(round, total_budget, max_blocks, unit_price);
    lemma_selected_bounds(
        ranking(round.deployed@),
        candidate_amounts(round, total_budget, max_blocks, unit_price),
        round.total_deployed as nat,
        bonus_pool_value(unit_price as nat, round.motherlode as nat),
        threshold_bps as int,
        max_blocks as int,
    );
}

/// The amounts of a plan never exceed the budget together.
pub proof fn lemma_plan_within_budget(
    round: OreRound,
    total_budget: u64,
    max_blocks: u8,
    unit_price: u64,
    threshold_bps: i16,
)
    ensures
        total_amount(
            planned_allocations(round, total_budget, max_blocks, unit_price, threshold_bps),
        ) <= total_budget,
{
    let amounts = candidate_amounts(round, total_budget, max_blocks, unit_price);
    lemma_candidates_bounded(round, total_budget, max_blocks, unit_price);
    lemma_selected_bounds(
        ranking(round.deployed@),
        amounts,
        round.total_deployed as nat,
        bonus_pool_value(unit_price as nat, round.motherlode as nat),
        threshold_bps as int,
        max_blocks as int,
    );
    assert(amounts.take(max_blocks as int) =~= amounts);
}

/// The candidate amounts of a request are at most [`KELLY_MAX`] each and do not
/// exceed the budget together.
pub proof fn lemma_candidates_bounded(
    round: OreRound,
    total_budget: u64,
    max_blocks: u8,
    unit_price: u64,
)
    ensures
        candidate_amounts(round, total_budget, max_blocks, unit_price).len() == max_blocks,
        sum_of(candidate_amounts(round, total_budget, max_blocks, unit_price)) <= total_budget,
        forall|i: int|
            0 <= i < max_blocks ==> #[trigger] candidate_amounts(
                round,
                total_budget,
                max_blocks,
                unit_price,
            )[i] <= KELLY_MAX,
{
    let ranked = ranking(round.deployed@);
    let total = round.total_deployed as nat;
    let pool = bonus_pool_value(unit_price as nat, round.motherlode as nat);
    let sizes = optimal_sizes(ranked, total, pool, max_blocks as nat);
    let amounts = candidate_amounts(round, total_budget, max_blocks, unit_price);
    lemma_optimal_sizes_bounded(ranked, total, pool, max_blocks as nat);
    lemma_scaled_sizes_within_budget(sizes, total_budget as nat);
    assert forall|i: int| 0 <= i < max_blocks implies #[trigger] amounts[i] <= KELLY_MAX by {
        assert(amounts[i] <= sizes[i]);
    }
}

/// The blocks of a plan are blocks of the round and follow its ranking: each
/// ranks strictly before the next, so no block occurs twice.
pub proof fn lemma_plan_follows_ranking(
    round: OreRound,
    total_budget: u64,
    max_blocks: u8,
    unit_price: u64,
    threshold_bps: i16,
)
    requires
        max_blocks <= BLOCK_COUNT,
    ensures
        ascending(
            blocks_named(
                round.deployed@,
                planned_allocations(round, total_budget, max_blocks, unit_price, threshold_bps),
            ),
        ),
        forall|k: int|
            0 <= k < planned_allocations(
                round,
                total_budget,
                max_blocks,
                unit_price,
                threshold_bps,
            ).len() ==> (#[trigger] planned_allocations(
                round,
                total_budget,
                max_blocks,
                unit_price,
                threshold_bps,
            )[k]).block_index < BLOCK_COUNT,
{
    lemma_ranking_exists(round.deployed@);
    lemma_selected_follows_ranking(
        round.deployed@,
        ranking(round.deployed@),
        candidate_amounts(round, total_budget, max_blocks, unit_price),
        round.total_deployed as nat,
        bonus_pool_value(unit_price as nat, round.motherlode as nat),
        threshold_bps as int,
        max_blocks as int,
    );
}

/// If the candidate of rank `i` is put to the test and misses the threshold,
/// the plan is what was selected below rank `i`: every block of the plan ranks
/// strictly before that candidate's block, and no candidate of rank `i` or
/// above is in the plan, whatever its own expected value.
pub proof fn lemma_plan_ends_at_first_miss(
    round: OreRound,
    total_budget: u64,
    max_blocks: u8,
    unit_price: u64,
    threshold_bps: i16,
    i: int,
)
    requires
        0 <= i < max_blocks <= BLOCK_COUNT,
        misses(
            ranking(round.deployed@),
            candidate_amounts(round, total_budget, max_blocks, unit_price),
            round.total_deployed as nat,
            bonus_pool_value(unit_price as nat, round.motherlode as nat),
            threshold_bps as int,
            i,
        ),
    ensures
        planned_allocations(round, total_budget, max_blocks, unit_price, threshold_bps)
            == selected(
            ranking(round.deployed@),
            candidate_amounts(round, total_budget, max_blocks, unit_price),
            round.total_deployed as nat,
            bonus_pool_value(unit_price as nat, round.motherlode as nat),
            threshold_bps as int,
            i,
        ),
        planned_allocations(round, total_budget, max_blocks, unit_price, threshold_bps).len()
            <= i,
        forall|k: int, j: int|
            0 <= k < planned_allocations(
                round,
                total_budget,
                max_blocks,
                unit_price,
                threshold_bps,
            ).len() && i <= j < BLOCK_COUNT ==> ranks_before(
                #[trigger] blocks_named(
                    round.deployed@,
                    planned_allocations(
                        round,
                        total_budget,
                        max_blocks,
                        unit_price,
                        threshold_bps,
                    ),
                )[k],
                #[trigger] ranking(round.deployed@)[j],
            ),
{
    let ranked = ranking(round.deployed@);
    let amounts = candidate_amounts(round, total_budget, max_blocks, unit_price);
    let total = round.total_deployed as nat;
    let pool = bonus_pool_value(unit_price as nat, round.motherlode as nat);
    lemma_ranking_exists(round.deployed@);
    lemma_selected_ends_at_miss(
        ranked,
        amounts,
        total,
        pool,
        threshold_bps as int,
        i,
        max_blocks as int,
    );
    lemma_selected_follows_ranking(
        round.deployed@,
        ranked,
        amounts,
        total,
        pool,
        threshold_bps as int,
        i,
    );
    lemma_candidates_bounded(round, total_budget, max_blocks, unit_price);
    lemma_selected_bounds(ranked, amounts, total, pool, threshold_bps as int, i);
}

/// Candidates that are all zero yield no allocation.
pub proof fn lemma_selected_of_nothing(
    ranked: Seq<RankedBlock>,
    amounts: Seq<nat>,
    total: nat,
    pool_value: nat,
    threshold_bps: int,
    n: int,
)
    requires
        forall|i: int| 0 <= i < n ==> amounts[i] == 0,
    ensures
        selected(ranked, amounts, total, pool_value, threshold_bps, n).len() == 0,
    decreases n,
{
    if n > 0 {
        lemma_selected_of_nothing(ranked, amounts, total, pool_value, threshold_bps, n - 1);
    }
}

/// On a degenerate pool the plan is empty: if each of the `max_blocks` blocks
/// of lowest rank is empty or holds all that the round holds, no size is
/// positive and nothing is allocated.
pub proof fn lemma_plan_empty_on_degenerate_pool(
    round: OreRound,
    total_budget: u64,
    max_blocks: u8,
    unit_price: u64,
    threshold_bps: i16,
)
    requires
        forall|i: int|
            0 <= i < max_blocks ==> (#[trigger] ranking(round.deployed@)[i]).committed == 0
                || round.total_deployed <= ranking(round.deployed@)[i].committed,
    ensures
        planned_allocations(round, total_budget, max_blocks, unit_price, threshold_bps).len()
            == 0,
{
    let ranked = ranking(round.deployed@);
    let total = round.total_deployed as nat;
    let pool = bonus_pool_value(unit_price as nat, round.motherlode as nat);
    let sizes = optimal_sizes(ranked, total, pool, max_blocks as nat);
    let amounts = candidate_amounts(round, total_budget, max_blocks, unit_price);
    assert forall|i: int| 0 <= i < max_blocks implies amounts[i] == 0 by {
        assert(ranked[i].committed == 0 || total <= ranked[i].committed);
        assert(sizes[i] == kelly_optimal(ranked[i].committed as nat, total, pool));
        lemma_kelly_optimal_bounded(ranked[i].committed as nat, total, pool);
        assert(sizes[i] == 0);
        let factor = scale_factor(sum_of(sizes), total_budget as nat);
        assert(0 * factor == 0) by (nonlinear_arith);
        assert(amounts[i] == scaled(sizes[i], factor));
    }
    lemma_selected_of_nothing(ranked, amounts, total, pool, threshold_bps as int, max_blocks as int);
}

} // verus!
