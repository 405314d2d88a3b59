use ore_deploy::error::DeployError;
use ore_deploy::round::{read_ore_round_data, OreRound};

fn sample() -> OreRound {
    let mut deployed = [0u64; 25];
    let mut count = [0u64; 25];
    for i in 0..25 {
        deployed[i] = 1_000_000_007 * (i as u64 + 1);
        count[i] = 3 * i as u64;
    }
    OreRound {
        _disc: [1, 2, 3, 4, 5, 6, 7, 8],
        id: 0x1122_3344_5566_7788,
        deployed,
        slot_hash: [0xAB; 32],
        count,
        expires_at: 987_654_321,
        motherlode: u64::MAX,
        rent_payer: [0x11; 32],
        top_miner: [0x22; 32],
        top_miner_reward: 42,
        total_deployed: deployed.iter().sum(),
        total_vaulted: 77,
        total_winnings: 1 << 63,
    }
}

fn record(round: &OreRound) -> Vec<u8> {
    let mut data = Vec::new();
    data.extend_from_slice(&round._disc);
    data.extend_from_slice(&round.id.to_le_bytes());
    for amount in round.deployed {
        data.extend_from_slice(&amount.to_le_bytes());
    }
    data.extend_from_slice(&round.slot_hash);
    for participants in round.count {
        data.extend_from_slice(&participants.to_le_bytes());
    }
    data.extend_from_slice(&round.expires_at.to_le_bytes());
    data.extend_from_slice(&round.motherlode.to_le_bytes());
    data.extend_from_slice(&round.rent_payer);
    data.extend_from_slice(&round.top_miner);
    data.extend_from_slice(&round.top_miner_reward.to_le_bytes());
    data.extend_from_slice(&round.total_deployed.to_le_bytes());
    data.extend_from_slice(&round.total_vaulted.to_le_bytes());
    data.extend_from_slice(&round.total_winnings.to_le_bytes());
    data
}

#[test]
fn round_record_has_560_bytes() {
    assert_eq!(OreRound::LEN, 560);
    assert_eq!(record(&sample()).len(), OreRound::LEN);
}

#[test]
fn round_record_is_read_field_by_field() {
    let round = sample();
    assert_eq!(read_ore_round_data(&record(&round)), Ok(round));
}

#[test]
fn round_record_fields_stand_at_their_offsets() {
    let mut data = vec![0u8; 560];
    data[16] = 1;
    data[16 + 8 * 24 + 1] = 2;
    data[248 + 8] = 3;
    data[456] = 4;
    data[536 + 7] = 5;
    let round = read_ore_round_data(&data).unwrap();
    assert_eq!(round.deployed[0], 1);
    assert_eq!(round.deployed[24], 0x200);
    assert_eq!(round.count[1], 3);
    assert_eq!(round.motherlode, 4);
    assert_eq!(round.total_deployed, 5 << 56);
    assert_eq!(round.id, 0);
    assert_eq!(round.total_winnings, 0);
}

#[test]
fn round_record_may_be_followed_by_more() {
    let round = sample();
    let mut data = record(&round);
    data.extend_from_slice(&[0xFF; 40]);
    assert_eq!(read_ore_round_data(&data), Ok(round));
}

#[test]
fn round_record_that_is_too_short_is_refused() {
    let data = record(&sample());
    assert_eq!(read_ore_round_data(&data[..559]), Err(DeployError::InvalidAccountData));
    assert_eq!(read_ore_round_data(&[]), Err(DeployError::InvalidAccountData));
}

#[test]
fn round_record_agrees_with_the_memory_of_its_fields() {
    // The record is the fields as they lie in the memory of a little-endian
    // machine, one after the other.
    let round = sample();
    let deployed: [u64; 25] = round.deployed.map(u64::to_le);
    let count: [u64; 25] = round.count.map(u64::to_le);
    let mut data = Vec::new();
    data.extend_from_slice(&round._disc);
    data.extend_from_slice(bytemuck::bytes_of(&round.id.to_le()));
    data.extend_from_slice(bytemuck::bytes_of(&deployed));
    data.extend_from_slice(&round.slot_hash);
    data.extend_from_slice(bytemuck::bytes_of(&count));
    data.extend_from_slice(bytemuck::bytes_of(&round.expires_at.to_le()));
    data.extend_from_slice(bytemuck::bytes_of(&round.motherlode.to_le()));
    data.extend_from_slice(&round.rent_payer);
    data.extend_from_slice(&round.top_miner);
    data.extend_from_slice(bytemuck::bytes_of(&round.top_miner_reward.to_le()));
    data.extend_from_slice(bytemuck::bytes_of(&round.total_deployed.to_le()));
    data.extend_from_slice(bytemuck::bytes_of(&round.total_vaulted.to_le()));
    data.extend_from_slice(bytemuck::bytes_of(&round.total_winnings.to_le()));
    assert_eq!(data, record(&round));
    assert_eq!(read_ore_round_data(&data), Ok(round));
}
