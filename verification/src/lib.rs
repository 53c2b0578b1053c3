//! A staking ledger: addresses deposit native currency, earn rewards in
//! proportion to the time their balance stays deposited, and withdraw
//! principal and rewards.

pub mod address;
pub mod amount;
pub mod laws;
pub mod ledger;
pub mod managed;
pub mod position;

pub use address::Address;
pub use amount::Amount;
pub use ledger::{Payout, StakingContract, StakingError};
pub use position::{StakingPosition, APY, BLOCKS_IN_YEAR, MAX_PCT};
