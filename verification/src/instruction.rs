//! The instructions of the program and the record of a deployment request.

use crate::error::DeployError;
use crate::wire::{i16_le, read_i16_le, read_u64_le, u64_le};
use vstd::prelude::*;
use vstd::std_specs::convert::TryFromSpecImpl;

verus! {

/// The tag by which the program knows a deployment request.
pub const ORE_DEPLOY_TAG: u8 = 1;

/// The instructions of the program.
#[derive(Clone, Copy, Debug, PartialEq, Eq, Structural)]
pub enum MyProgramInstruction {
    /// Deploy a budget over the smallest blocks of the round.
    OreDeploy,
}

impl<'a> TryFrom<&'a u8> for MyProgramInstruction {
    type Error = DeployError;

    /// The instruction that a tag stands for.
    fn try_from(value: &'a u8) -> (ret: Result<Self, DeployError>) {
        if *value == ORE_DEPLOY_TAG {
            Ok(MyProgramInstruction::OreDeploy)
        } else {
            Err(DeployError::InvalidInstructionData)
        }
    }
}

impl<'a> TryFromSpecImpl<&'a u8> for MyProgramInstruction {
    open spec fn obeys_try_from_spec() -> bool {
        true
    }

    open spec fn try_from_spec(value: &'a u8) -> Result<Self, DeployError> {
        if *value == ORE_DEPLOY_TAG {
            Ok(MyProgramInstruction::OreDeploy)
        } else {
            Err(DeployError::InvalidInstructionData)
        }
    }
}

/// A deployment request.
#[derive(Clone, Copy, Debug, PartialEq, Eq)]
pub struct OreDeployIxData {
    /// Total budget, to be allocated over the blocks.
    pub total_amount: u64,
    /// Unit price, by which the bonus pool is valued.
    pub ore_price_lamports: u64,
    /// Least expected value of a commitment, in basis points of its amount.
    /// It may be negative: -500 accepts an expected loss of 5 %.
    pub min_ev_threshold_bps: i16,
    /// Number of smallest blocks to consider, from 1 to 5.
    pub num_blocks: u8,
    /// Reserved bytes, carried as the record holds them.
    pub _padding: [u8; 5],
}

impl OreDeployIxData {
    /// Length in bytes of the record of a deployment request.
    pub const LEN: usize = 24;

    /// The request is in order: it names one to five blocks and gives a unit
    /// price.
    pub open spec fn valid(&self) -> bool {
        1 <= self.num_blocks <= 5 && self.ore_price_lamports != 0
    }

    /// The request is what the 24 bytes of `data` hold: two unsigned 64-bit
    /// numbers, a signed 16-bit number, a byte and five reserved bytes, the
    /// numbers in little-endian order.
    pub open spec fn holds(&self, data: Seq<u8>) -> bool {
        &&& self.total_amount == u64_le(data.subrange(0, 8))
        &&& self.ore_price_lamports == u64_le(data.subrange(8, 16))
        &&& self.min_ev_threshold_bps == i16_le(data.subrange(16, 18))
        &&& self.num_blocks == data[18]
        &&& self._padding@ == data.subrange(19, 24)
    }

    /// Whether the request is in order.
    pub fn is_valid(&self) -> (ok: bool)
        ensures
            ok == self.valid(),
    {
        1 <= self.num_blocks && self.num_blocks <= 5 && self.ore_price_lamports != 0
    }

    /// Reads a request from its record.  The record must be exactly
    /// [`OreDeployIxData::LEN`] bytes long.
    pub fn from_bytes(data: &[u8]) -> (result: Result<OreDeployIxData, DeployError>)
        ensures
            data@.len() != OreDeployIxData::LEN ==> result == Err::<OreDeployIxData, DeployError>(
                DeployError::InvalidInstructionData,
            ),
            data@.len() == OreDeployIxData::LEN ==> result.is_ok() && result.unwrap().holds(
                data@,
            ),
    {
        if data.len() != OreDeployIxData::LEN {
            return Err(DeployError::InvalidInstructionData);
        }
        let padding: [u8; 5] = [data[19], data[20], data[21], data[22], data[23]];
        assert(padding@ =~= data@.subrange(19, 24));
        Ok(
            OreDeployIxData {
                total_amount: read_u64_le(data, 0),
                ore_price_lamports: read_u64_le(data, 8),
                min_ev_threshold_bps: read_i16_le(data, 16),
                num_blocks: data[18],
                _padding: padding,
            },
        )
    }
}

} // verus!
