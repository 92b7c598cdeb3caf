//! Hierarchical consensus gateway: a deterministic state machine that keeps a
//! registry of child subnets, routes value-bearing cross-messages up and down
//! the subnet tree, commits child checkpoints, and tallies weighted cron votes.
//!
//! Every operation is a pure function of (prior state, inputs) producing
//! (new state, outbound transfers); the host performs the transfers.
use vstd::prelude::*;

pub mod address;
pub mod checkpoint;
pub mod codec;
pub mod cron;
pub mod cross;
pub mod decode;
pub mod hash;
pub mod laws;
pub mod state;
pub mod subnet;
pub mod error;
pub mod gateway;
pub mod subnet_id;

verus! {

/// Fee collected from every cross-message operation, in atto-units.
pub const CROSS_MSG_FEE: u128 = 100;

/// Minimum collateral required to register a subnet, in atto-units.
pub const MIN_COLLATERAL_AMOUNT: u128 = 1_000_000_000_000_000_000;

/// Checkpoint period used when the constructor is given a shorter one.
pub const DEFAULT_CHECKPOINT_PERIOD: u64 = 20;

/// Sentinel for the bottom-up applied nonce before the first message lands.
pub const MAX_NONCE: u64 = u64::MAX;

/// Method number of a bare value transfer.
pub const METHOD_SEND: u64 = 0;

/// Method number under which collected fees are rewarded to a subnet actor.
pub const SUBNET_ACTOR_REWARD_METHOD: u64 = 3;

} // verus!
