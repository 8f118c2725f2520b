//! Verified core of three token contracts: a constant-product liquidity pool,
//! an arbitrated escrow and a staking pool with time-based rewards.
//!
//! Each contract entry point is a function from the stored values it reads
//! (and the call's arguments) to the values it writes back and the token
//! movements it asks for. Reading and writing contract storage, moving tokens,
//! checking signatures and publishing events are left to the host glue.

pub mod account;
pub mod arith;
pub mod ledger;
pub mod amm_pool;
pub mod escrow;
pub mod staking;
