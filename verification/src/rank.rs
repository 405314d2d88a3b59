//! Ranking of the blocks of a round by what they hold.
//!
//! Blocks are ranked by committed amount, smallest first.  Blocks that hold
//! the same amount keep the order of their indices, so the ranking is a
//! strict total order and every round has exactly one ranking.

use crate::ev::BLOCK_COUNT;
use vstd::prelude::*;
use vstd::set_lib::{lemma_int_range, lemma_subset_equality, set_int_range};

verus! {

/// A block with its place of origin: its index in the round and what it holds.
#[derive(Clone, Copy, Debug, PartialEq, Eq)]
pub struct RankedBlock {
    /// Index of the block in the round.
    pub index: u8,
    /// Amount committed to the block.
    pub committed: u64,
}

/// `a` ranks strictly before `b`: it holds less, or the same with a smaller index.
pub open spec fn ranks_before(a: RankedBlock, b: RankedBlock) -> bool {
    a.committed < b.committed || (a.committed == b.committed && a.index < b.index)
}

/// The block of the round at `index`, with the amount it holds.
pub open spec fn block_at(deployed: Seq<u64>, index: u8) -> RankedBlock {
    RankedBlock { index, committed: deployed[index as int] }
}

/// Every entry of `ranked` is a block of the round with the amount it holds.
pub open spec fn blocks_of(deployed: Seq<u64>, ranked: Seq<RankedBlock>) -> bool {
    forall|i: int|
        0 <= i < ranked.len() ==> 0 <= (#[trigger] ranked[i]).index < deployed.len()
            && ranked[i].committed == deployed[ranked[i].index as int]
}

/// The entries of `ranked` stand in strictly ascending rank.
pub open spec fn ascending(ranked: Seq<RankedBlock>) -> bool {
    forall|i: int, j: int|
        0 <= i < j < ranked.len() ==> ranks_before(#[trigger] ranked[i], #[trigger] ranked[j])
}

/// `ranked` is the ranking of the blocks that hold `deployed`.
pub open spec fn is_ranking(deployed: Seq<u64>, ranked: Seq<RankedBlock>) -> bool {
    &&& ranked.len() == deployed.len()
    &&& blocks_of(deployed, ranked)
    &&& ascending(ranked)
}

/// No two entries of an ascending sequence name the same block.
pub proof fn lemma_ranking_distinct(deployed: Seq<u64>, ranked: Seq<RankedBlock>, i: int, j: int)
    requires
        blocks_of(deployed, ranked),
        ascending(ranked),
        0 <= i < ranked.len(),
        0 <= j < ranked.len(),
        i != j,
    ensures
        ranked[i].index != ranked[j].index,
{
    if i < j {
        assert(ranks_before(ranked[i], ranked[j]));
    } else {
        assert(ranks_before(ranked[j], ranked[i]));
    }
}

/// A ranking leaves no block out.
pub proof fn lemma_ranking_complete(deployed: Seq<u64>, ranked: Seq<RankedBlock>, k: int)
    requires
        is_ranking(deployed, ranked),
        0 <= k < deployed.len(),
    ensures
        exists|i: int| 0 <= i < ranked.len() && (#[trigger] ranked[i]).index == k,
{
    let n = deployed.len() as int;
    let indices = Seq::new(ranked.len(), |i: int| ranked[i].index as int);
    assert forall|i: int, j: int|
        0 <= i < indices.len() && 0 <= j < indices.len() && i != j implies indices[i]
        != indices[j] by {
        lemma_ranking_distinct(deployed, ranked, i, j);
    }
    indices.unique_seq_to_set();
    lemma_int_range(0, n);
    assert forall|v: int| indices.to_set().contains(v) implies set_int_range(0, n).contains(v) by {
        let i = choose|i: int| 0 <= i < indices.len() && indices[i] == v;
        assert(0 <= ranked[i].index < n);
    }
    vstd::seq_lib::seq_to_set_is_finite(indices);
    lemma_subset_equality(indices.to_set(), set_int_range(0, n));
    assert(set_int_range(0, n).contains(k));
    assert(indices.contains(k));
    let i = choose|i: int| 0 <= i < indices.len() && indices[i] == k;
    assert(ranked[i].index == k);
}

/// Two rankings of the same blocks agree at every place.
proof fn lemma_rankings_agree(
    deployed: Seq<u64>,
    first: Seq<RankedBlock>,
    second: Seq<RankedBlock>,
    i: int,
)
    requires
        is_ranking(deployed, first),
        is_ranking(deployed, second),
        0 <= i < deployed.len(),
    ensures
        first[i] == second[i],
    decreases i,
{
    assert forall|j: int| 0 <= j < i implies first[j] == second[j] by {
        lemma_rankings_agree(deployed, first, second, j);
    }
    let a = first[i];
    let b = second[i];
    if a.index != b.index {
        if ranks_before(a, b) {
            lemma_ranking_complete(deployed, second, a.index as int);
            let m = choose|m: int| 0 <= m < second.len() && (#[trigger] second[m]).index == a.index;
            assert(second[m] == a);
            if m < i {
                lemma_ranking_distinct(deployed, first, m, i);
            } else if m > i {
                assert(ranks_before(second[i], second[m]));
            }
        } else {
            assert(ranks_before(b, a));
            lemma_ranking_complete(deployed, first, b.index as int);
            let m = choose|m: int| 0 <= m < first.len() && (#[trigger] first[m]).index == b.index;
            assert(first[m] == b);
            if m < i {
                lemma_ranking_distinct(deployed, second, m, i);
            } else if m > i {
                assert(ranks_before(first[i], first[m]));
            }
        }
    }
}

/// The blocks of a round have exactly one ranking.
pub proof fn lemma_ranking_unique(
    deployed: Seq<u64>,
    first: Seq<RankedBlock>,
    second: Seq<RankedBlock>,
)
    requires
        is_ranking(deployed, first),
        is_ranking(deployed, second),
    ensures
        first == second,
{
    assert forall|i: int| 0 <= i < first.len() implies first[i] == second[i] by {
        lemma_rankings_agree(deployed, first, second, i);
    }
    assert(first =~= second);
}

/// The ranking of the blocks that hold `deployed`.
pub open spec fn ranking(deployed: Seq<u64>) -> Seq<RankedBlock> {
    choose|ranked: Seq<RankedBlock>| is_ranking(deployed, ranked)
}

/// `block` put into an ascending sequence of blocks of smaller index, behind
/// every entry that holds no more than it.
spec fn with_block(ranked: Seq<RankedBlock>, block: RankedBlock) -> Seq<RankedBlock>
    decreases ranked.len(),
{
    if ranked.len() == 0 || ranked.last().committed <= block.committed {
        ranked.push(block)
    } else {
        with_block(ranked.drop_last(), block).push(ranked.last())
    }
}

/// The ranking of the first `k` blocks.
spec fn ranking_of_first(deployed: Seq<u64>, k: nat) -> Seq<RankedBlock>
    decreases k,
{
    if k == 0 {
        Seq::empty()
    } else {
        with_block(
            ranking_of_first(deployed, (k - 1) as nat),
            RankedBlock { index: (k - 1) as u8, committed: deployed[k - 1] },
        )
    }
}

proof fn lemma_with_block(ranked: Seq<RankedBlock>, block: RankedBlock)
    requires
        ascending(ranked),
        forall|i: int| 0 <= i < ranked.len() ==> (#[trigger] ranked[i]).index < block.index,
    ensures
        ascending(with_block(ranked, block)),
        with_block(ranked, block).len() == ranked.len() + 1,
        forall|i: int|
            0 <= i < with_block(ranked, block).len() ==> (#[trigger] with_block(ranked, block)[i])
                == block || ranked.contains(with_block(ranked, block)[i]),
    decreases ranked.len(),
{
    let result = with_block(ranked, block);
    if ranked.len() == 0 || ranked.last().committed <= block.committed {
        assert forall|i: int, j: int| 0 <= i < j < result.len() implies ranks_before(
            #[trigger] result[i],
            #[trigger] result[j],
        ) by {
            if j == ranked.len() && i < ranked.len() - 1 {
                assert(ranks_before(ranked[i], ranked[ranked.len() - 1]));
            }
        }
        assert forall|i: int| 0 <= i < result.len() implies (#[trigger] result[i]) == block
            || ranked.contains(result[i]) by {
            if i < ranked.len() {
                assert(ranked[i] == result[i]);
            }
        }
    } else {
        let front = ranked.drop_last();
        let inner = with_block(front, block);
        lemma_with_block(front, block);
        assert forall|i: int, j: int| 0 <= i < j < result.len() implies ranks_before(
            #[trigger] result[i],
            #[trigger] result[j],
        ) by {
            if j == inner.len() {
                if inner[i] != block {
                    let m = choose|m: int| 0 <= m < front.len() && front[m] == inner[i];
                    assert(ranks_before(ranked[m], ranked[ranked.len() - 1]));
                }
            } else {
                assert(ranks_before(inner[i], inner[j]));
            }
        }
        assert forall|i: int| 0 <= i < result.len() implies (#[trigger] result[i]) == block
            || ranked.contains(result[i]) by {
            if i < inner.len() {
                if inner[i] != block {
                    let m = choose|m: int| 0 <= m < front.len() && front[m] == inner[i];
                    assert(ranked[m] == result[i]);
                }
            } else {
                assert(ranked[ranked.len() - 1] == result[i]);
            }
        }
    }
}

proof fn lemma_ranking_of_first(deployed: Seq<u64>, k: nat)
    requires
        k <= deployed.len() <= 256,
    ensures
        ranking_of_first(deployed, k).len() == k,
        ascending(ranking_of_first(deployed, k)),
        forall|i: int|
            0 <= i < k ==> (#[trigger] ranking_of_first(deployed, k)[i]).index < k
                && ranking_of_first(deployed, k)[i].committed == deployed[ranking_of_first(
                deployed,
                k,
            )[i].index as int],
    decreases k,
{
    if k > 0 {
        let below = ranking_of_first(deployed, (k - 1) as nat);
        let block = RankedBlock { index: (k - 1) as u8, committed: deployed[k - 1] };
        lemma_ranking_of_first(deployed, (k - 1) as nat);
        lemma_with_block(below, block);
        let here = ranking_of_first(deployed, k);
        assert forall|i: int| 0 <= i < k implies (#[trigger] here[i]).index < k
            && here[i].committed == deployed[here[i].index as int] by {
            if here[i] != block {
                let m = choose|m: int| 0 <= m < below.len() && below[m] == here[i];
                assert(below[m].index < k - 1);
            }
        }
    }
}

/// Every round of at most 256 blocks has a ranking, so [`ranking`] is one.
pub proof fn lemma_ranking_exists(deployed: Seq<u64>)
    requires
        deployed.len() <= 256,
    ensures
        is_ranking(deployed, ranking(deployed)),
{
    lemma_ranking_of_first(deployed, deployed.len());
    assert(is_ranking(deployed, ranking_of_first(deployed, deployed.len())));
}

/// Entries that hold the same amount stand in the order of their indices.
spec fn ties_in_order(ranked: Seq<RankedBlock>) -> bool {
    forall|i: int, j: int|
        0 <= i < j < ranked.len() && (#[trigger] ranked[i]).committed == (
        #[trigger] ranked[j]).committed ==> ranked[i].index < ranked[j].index
}

/// Every entry before `split` holds at most what any entry from `split` on holds.
spec fn settled_from(ranked: Seq<RankedBlock>, split: int) -> bool {
    &&& forall|i: int, j: int|
        0 <= i < split <= j < ranked.len() ==> (#[trigger] ranked[i]).committed <= (
        #[trigger] ranked[j]).committed
    &&& forall|i: int, j: int|
        split <= i < j < ranked.len() ==> (#[trigger] ranked[i]).committed <= (
        #[trigger] ranked[j]).committed
}

/// Ranks the blocks of a round: ascending by committed amount, blocks with
/// equal amounts in the order of their indices.
pub fn rank_blocks(deployed: &[u64; 25]) -> (ranked: [RankedBlock; 25])
    ensures
        is_ranking(deployed@, ranked@),
        ranked@ == ranking(deployed@),
{
    let mut blocks: [RankedBlock; 25] = [RankedBlock { index: 0, committed: 0 };25];
    let mut k: usize = 0;
    while k < BLOCK_COUNT
        invariant
            k <= BLOCK_COUNT,
            forall|i: int|
                0 <= i < k ==> (#[trigger] blocks@[i]).index == i && blocks@[i].committed
                    == deployed@[i],
        decreases BLOCK_COUNT - k,
    {
        blocks[k] = RankedBlock { index: k as u8, committed: deployed[k] };
        k += 1;
    }
    let mut pass: usize = 0;
    while pass < BLOCK_COUNT - 1
        invariant
            pass <= BLOCK_COUNT - 1,
            blocks_of(deployed@, blocks@),
            ties_in_order(blocks@),
            settled_from(blocks@, BLOCK_COUNT - pass),
        decreases BLOCK_COUNT - 1 - pass,
    {
        let mut j: usize = 0;
        while j < BLOCK_COUNT - 1 - pass
            invariant
                pass < BLOCK_COUNT - 1,
                j <= BLOCK_COUNT - 1 - pass,
                blocks_of(deployed@, blocks@),
                ties_in_order(blocks@),
                settled_from(blocks@, BLOCK_COUNT - pass),
                forall|i: int| 0 <= i < j ==> (#[trigger] blocks@[i]).committed <= blocks@[j as int].committed,
            decreases BLOCK_COUNT - 1 - pass - j,
        {
            if blocks[j].committed > blocks[j + 1].committed {
                let lower: RankedBlock = blocks[j + 1];
                blocks[j + 1] = blocks[j];
                blocks[j] = lower;
            }
            j += 1;
        }
        pass += 1;
    }
    proof {
        lemma_ranking_exists(deployed@);
        lemma_ranking_unique(deployed@, blocks@, ranking(deployed@));
    }
    blocks
}

} // verus!
