use ore_deploy::deploy::{
    block_mask, deploy_order_data, process_ore_deploy, DeployOrder, ORE_DEPLOY_IX_DISCRIMINATOR,
};
use ore_deploy::error::DeployError;
use ore_deploy::instruction::OreDeployIxData;
use ore_deploy::round::OreRound;

fn round_with(deployed: [u64; 25], total_deployed: u64) -> OreRound {
    OreRound {
        _disc: [0; 8],
        id: 1,
        deployed,
        slot_hash: [0; 32],
        count: [0; 25],
        expires_at: 0,
        motherlode: 0,
        rent_payer: [0; 32],
        top_miner: [0; 32],
        top_miner_reward: 0,
        total_deployed,
        total_vaulted: 0,
        total_winnings: 0,
    }
}

fn staircase(step: u64) -> OreRound {
    let mut deployed = [0u64; 25];
    for i in 0..25 {
        deployed[i] = step * (i as u64 + 1);
    }
    round_with(deployed, deployed.iter().sum())
}

fn request(total_amount: u64, price: u64, threshold: i16, num_blocks: u8) -> OreDeployIxData {
    OreDeployIxData {
        total_amount,
        ore_price_lamports: price,
        min_ev_threshold_bps: threshold,
        num_blocks,
        _padding: [0; 5],
    }
}

#[test]
fn request_for_no_blocks_is_invalid() {
    let result = process_ore_deploy(&staircase(1), &request(1_000, 10_000, 0, 0));
    assert_eq!(result.err(), Some(DeployError::InvalidRequest));
}

#[test]
fn request_for_more_than_five_blocks_is_invalid() {
    let result = process_ore_deploy(&staircase(1), &request(1_000, 10_000, 0, 6));
    assert_eq!(result.err(), Some(DeployError::InvalidRequest));
    let result = process_ore_deploy(&staircase(1), &request(1_000, 10_000, 0, 255));
    assert_eq!(result.err(), Some(DeployError::InvalidRequest));
}

#[test]
fn request_without_a_unit_price_is_invalid() {
    let result = process_ore_deploy(&staircase(1), &request(1_000, 0, 0, 3));
    assert_eq!(result.err(), Some(DeployError::InvalidRequest));
}

#[test]
fn request_validity() {
    assert!(request(0, 1, 0, 1).is_valid());
    assert!(request(0, 1, 0, 5).is_valid());
    assert!(!request(0, 1, 0, 0).is_valid());
    assert!(!request(0, 1, 0, 6).is_valid());
    assert!(!request(0, 0, 0, 3).is_valid());
}

#[test]
fn request_that_no_candidate_can_meet_has_no_viable_allocation() {
    // A budget of 1 against a size of 245: the candidate is scaled to nothing.
    let result = process_ore_deploy(&staircase(100), &request(1, 1, 10_000, 1));
    assert_eq!(result.err(), Some(DeployError::NoViableAllocation));
}

#[test]
fn request_with_a_budget_of_one_is_met_where_it_pays() {
    // The smallest block holds 1 of 49 and the bonus pool is worth 90: the
    // size is 1, the pot 133, the expected value 2, and 1 is asked for.
    let mut deployed = [2u64; 25];
    deployed[0] = 1;
    let mut round = round_with(deployed, 49);
    round.motherlode = 62_500;
    let plan = process_ore_deploy(&round, &request(1, 1, 10_000, 1)).unwrap();
    assert_eq!(plan.count, 1);
    assert_eq!(plan.block_indices[0], 0);
    assert_eq!(plan.amounts[0], 1);
    assert_eq!(plan.expected_values[0], 2);
}

#[test]
fn request_against_a_single_block_has_no_viable_allocation() {
    let mut deployed = [0u64; 25];
    deployed[3] = 1_000;
    let round = round_with(deployed, 1_000);
    let result = process_ore_deploy(&round, &request(1_000_000_000_000, 1, 0, 1));
    assert_eq!(result.err(), Some(DeployError::NoViableAllocation));

    let mut deployed = [0u64; 25];
    deployed[0] = 1_000;
    let round = round_with(deployed, 1_000);
    let result = process_ore_deploy(&round, &request(1_000_000_000_000, 1, 0, 1));
    assert_eq!(result.err(), Some(DeployError::NoViableAllocation));
}

#[test]
fn request_below_the_threshold_has_no_viable_allocation() {
    // The first candidate is 250 with an expected value of 616 and needs 819.
    let result = process_ore_deploy(&staircase(100), &request(1_000_000, 1_000, 32_767, 2));
    assert_eq!(result.err(), Some(DeployError::NoViableAllocation));
}

#[test]
fn request_in_order_yields_its_plan() {
    let round = staircase(1);
    let plan = process_ore_deploy(&round, &request(1_000_000_000, 10_000, 0, 2)).unwrap();
    assert_eq!(plan.count, 2);
    assert_eq!(plan.block_indices, [0, 1, 255, 255, 255]);
    assert_eq!(plan.amounts, [18, 25, 0, 0, 0]);
    assert_eq!(plan.expected_values, [335, 320, 0, 0, 0]);
    assert!(plan.total_deployed() <= 1_000_000_000);
    assert_eq!(plan.total_deployed(), 43);
}

#[test]
fn orders_of_a_plan_name_one_block_each() {
    let plan = process_ore_deploy(&staircase(1), &request(20, 10_000, 0, 3)).unwrap();
    assert_eq!(plan.count, 3);
    assert_eq!(plan.order(0), DeployOrder { amount: 4, squares: 0b001 });
    assert_eq!(plan.order(1), DeployOrder { amount: 6, squares: 0b010 });
    assert_eq!(plan.order(2), DeployOrder { amount: 8, squares: 0b100 });
    for k in 0..3 {
        assert_eq!(plan.order(k).squares.count_ones(), 1);
    }
}

#[test]
fn block_mask_sets_the_bit_of_the_block() {
    assert_eq!(block_mask(0), 1);
    assert_eq!(block_mask(1), 2);
    assert_eq!(block_mask(24), 0x0100_0000);
    assert_eq!(block_mask(31), 0x8000_0000);
    for index in 0..32u8 {
        let mask = block_mask(index);
        assert_eq!(mask.count_ones(), 1);
        assert_eq!(mask.trailing_zeros(), index as u32);
    }
}

#[test]
fn order_data_is_tag_amount_and_mask() {
    assert_eq!(ORE_DEPLOY_IX_DISCRIMINATOR, 6);
    assert_eq!(
        deploy_order_data(0x0102_0304_0506_0708, 0x0A0B_0C0D),
        [6, 8, 7, 6, 5, 4, 3, 2, 1, 0x0D, 0x0C, 0x0B, 0x0A]
    );
    assert_eq!(deploy_order_data(0, 0), [6, 0, 0, 0, 0, 0, 0, 0, 0, 0, 0, 0, 0]);
    assert_eq!(
        deploy_order_data(u64::MAX, u32::MAX),
        [6, 255, 255, 255, 255, 255, 255, 255, 255, 255, 255, 255, 255]
    );
    let data = deploy_order_data(29_031, 1 << 24);
    assert_eq!(data[0], 6);
    assert_eq!(data[1..9], 29_031u64.to_le_bytes());
    assert_eq!(data[9..13], (1u32 << 24).to_le_bytes());
}
