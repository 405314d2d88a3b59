//! Deterministic, integer-only sizing of deployments across the blocks of a
//! round.
//!
//! Given a budget, a unit price, the state of a round and a threshold on the
//! expected value, the library decides how much to commit to each of the
//! smallest blocks of the round:
//!
//! - [`sqrt`]: integer square roots;
//! - [`kelly`]: the Kelly-optimal size of a commitment to one block;
//! - [`rank`]: the ranking of the blocks by what they hold;
//! - [`ev`]: the expected value of a commitment;
//! - [`plan`]: sizing, scaling to the budget and filtering by expected value;
//! - [`laws`]: what holds of every plan;
//! - [`deploy`]: validation of a request and the orders that carry out a plan;
//! - [`instruction`], [`round`], [`wire`]: the byte records of requests and rounds;
//! - [`arith`]: clamping arithmetic; [`error`]: the refusals.
//!
//! All arithmetic is on integers and never wraps, so the same inputs give the
//! same plan on every machine.

pub mod arith;
pub mod deploy;
pub mod error;
pub mod ev;
pub mod instruction;
pub mod kelly;
pub mod laws;
pub mod plan;
pub mod rank;
pub mod round;
pub mod sqrt;
pub mod wire;

pub use deploy::{block_mask, deploy_order_data, process_ore_deploy, DeployOrder};
pub use error::DeployError;
pub use ev::calculate_ev;
pub use instruction::{MyProgramInstruction, OreDeployIxData};
pub use kelly::calculate_kelly_optimal;
pub use plan::{calculate_optimal_deployments, Allocation, DeploymentPlan};
pub use rank::{rank_blocks, RankedBlock};
pub use round::{read_ore_round_data, OreRound};
pub use sqrt::isqrt;
