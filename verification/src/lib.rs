//! A two-phase NPoS election provider.
//!
//! Once per election cycle this subsystem selects a fixed number of winners
//! and their stake distribution from a voter/target snapshot. A phase state
//! machine driven by block progression coordinates deposit-backed signed
//! submissions, unsigned submissions produced by an off-chain worker,
//! feasibility verification of every claimed solution, and a deterministic
//! on-chain fallback.

pub mod codec;
pub mod compact;
pub mod currency;
pub mod external;
pub mod feasibility;
pub mod miner;
pub mod onchain;
pub mod pallet;
pub mod signed;
pub mod score;
pub mod snapshot;
pub mod types;
pub mod unsigned;
