//! The state of a round as the ledger records it.

use crate::error::DeployError;
use crate::wire::{read_u64_le, u64_le};
use vstd::prelude::*;

verus! {

/// The record of one round.
///
/// The optimizer reads the committed amounts, their total and the bonus pool;
/// the other fields are carried as the record holds them.
#[derive(Clone, Copy, Debug, PartialEq)]
pub struct OreRound {
    /// Tag that marks the record as a round.
    pub _disc: [u8; 8],
    /// The round number.
    pub id: u64,
    /// The amount committed to each block.
    pub deployed: [u64; 25],
    /// Hash of the round's final slot, the seed of its randomness.
    pub slot_hash: [u8; 32],
    /// The number of participants on each block.
    pub count: [u64; 25],
    /// The slot at which claims for the round end.
    pub expires_at: u64,
    /// The bonus pool of the round.
    pub motherlode: u64,
    /// The account that receives the rent when the record is closed.
    pub rent_payer: [u8; 32],
    /// The top participant of the round.
    pub top_miner: [u8; 32],
    /// The reward of the top participant.
    pub top_miner_reward: u64,
    /// The total committed to the round.
    pub total_deployed: u64,
    /// The total put into the vault.
    pub total_vaulted: u64,
    /// The total won by participants.
    pub total_winnings: u64,
}

/// The 64-bit number at `offset` of a record.
pub open spec fn u64_at(data: Seq<u8>, offset: int) -> nat {
    u64_le(data.subrange(offset, offset + 8))
}

impl OreRound {
    /// Length in bytes of the record of a round.
    pub const LEN: usize = 560;

    /// The round is what the first [`OreRound::LEN`] bytes of `data` hold.
    ///
    /// The fields follow each other without gaps, in the order in which the
    /// type declares them; numbers are in little-endian order.
    pub open spec fn holds(&self, data: Seq<u8>) -> bool {
        &&& self._disc@ == data.subrange(0, 8)
        &&& self.id == u64_at(data, 8)
        &&& forall|i: int| 0 <= i < 25 ==> #[trigger] self.deployed[i] == u64_at(data, 16 + 8 * i)
        &&& self.slot_hash@ == data.subrange(216, 248)
        &&& forall|i: int| 0 <= i < 25 ==> #[trigger] self.count[i] == u64_at(data, 248 + 8 * i)
        &&& self.expires_at == u64_at(data, 448)
        &&& self.motherlode == u64_at(data, 456)
        &&& self.rent_payer@ == data.subrange(464, 496)
        &&& self.top_miner@ == data.subrange(496, 528)
        &&& self.top_miner_reward == u64_at(data, 528)
        &&& self.total_deployed == u64_at(data, 536)
        &&& self.total_vaulted == u64_at(data, 544)
        &&& self.total_winnings == u64_at(data, 552)
    }
}

/// Copies the eight bytes from `offset` on.
fn read_bytes_8(data: &[u8], offset: usize) -> (bytes: [u8; 8])
    requires
        offset + 8 <= data@.len(),
    ensures
        bytes@ == data@.subrange(offset as int, offset + 8),
{
    let len: usize = data.len();
    let mut bytes: [u8; 8] = [0;8];
    let mut i: usize = 0;
    while i < 8
        invariant
            i <= 8,
            offset + 8 <= len == data@.len(),
            forall|k: int| 0 <= k < i ==> bytes@[k] == data@[offset + k],
        decreases 8 - i,
    {
        bytes[i] = data[offset + i];
        i += 1;
    }
    assert(bytes@ =~= data@.subrange(offset as int, offset + 8));
    bytes
}

/// Copies the 32 bytes from `offset` on.
fn read_bytes_32(data: &[u8], offset: usize) -> (bytes: [u8; 32])
    requires
        offset + 32 <= data@.len(),
    ensures
        bytes@ == data@.subrange(offset as int, offset + 32),
{
    let len: usize = data.len();
    let mut bytes: [u8; 32] = [0;32];
    let mut i: usize = 0;
    while i < 32
        invariant
            i <= 32,
            offset + 32 <= len == data@.len(),
            forall|k: int| 0 <= k < i ==> bytes@[k] == data@[offset + k],
        decreases 32 - i,
    {
        bytes[i] = data[offset + i];
        i += 1;
    }
    assert(bytes@ =~= data@.subrange(offset as int, offset + 32));
    bytes
}

/// Reads the 25 numbers that follow each other from `offset` on.
fn read_u64_per_block(data: &[u8], offset: usize) -> (values: [u64; 25])
    requires
        offset + 200 <= data@.len(),
    ensures
        forall|i: int| 0 <= i < 25 ==> #[trigger] values[i] == u64_at(data@, offset + 8 * i),
{
    let len: usize = data.len();
    let mut values: [u64; 25] = [0;25];
    let mut i: usize = 0;
    while i < 25
        invariant
            i <= 25,
            offset + 200 <= len == data@.len(),
            forall|k: int| 0 <= k < i ==> #[trigger] values[k] == u64_at(data@, offset + 8 * k),
        decreases 25 - i,
    {
        values[i] = read_u64_le(data, offset + 8 * i);
        i += 1;
    }
    values
}

/// Reads a round from the data of its account.
///
/// The data must hold at least [`OreRound::LEN`] bytes; what follows them is
/// ignored.
pub fn read_ore_round_data(account_data: &[u8]) -> (result: Result<OreRound, DeployError>)
    ensures
        account_data@.len() < OreRound::LEN ==> result == Err::<OreRound, DeployError>(
            DeployError::InvalidAccountData,
        ),
        account_data@.len() >= OreRound::LEN ==> result.is_ok() && result.unwrap().holds(
            account_data@,
        ),
{
    if account_data.len() < OreRound::LEN {
        return Err(DeployError::InvalidAccountData);
    }
    Ok(
        OreRound {
            _disc: read_bytes_8(account_data, 0),
            id: read_u64_le(account_data, 8),
            deployed: read_u64_per_block(account_data, 16),
            slot_hash: read_bytes_32(account_data, 216),
            count: read_u64_per_block(account_data, 248),
            expires_at: read_u64_le(account_data, 448),
            motherlode: read_u64_le(account_data, 456),
            rent_payer: read_bytes_32(account_data, 464),
            top_miner: read_bytes_32(account_data, 496),
            top_miner_reward: read_u64_le(account_data, 528),
            total_deployed: read_u64_le(account_data, 536),
            total_vaulted: read_u64_le(account_data, 544),
            total_winnings: read_u64_le(account_data, 552),
        },
    )
}

} // verus!
