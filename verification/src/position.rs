//! Staking positions and the reward that accrues on them.

use crate::amount::Amount;
use vstd::prelude::*;

verus! {

/// Blocks produced in a year, at one block every six seconds.
pub const BLOCKS_IN_YEAR: u64 = 60 * 60 * 24 * 365 / 6;

/// The yearly reward rate, in basis points: ten percent.
pub const APY: u64 = 1_000;

/// The number of basis points in the whole.
pub const MAX_PCT: u64 = 10_000;

/// What one address has staked, and the block at which its reward was last
/// settled.
#[derive(Debug, PartialEq, Eq)]
pub struct StakingPosition {
    pub stake_amount: Amount,
    pub last_action_block: u64,
}

/// A staking position as mathematics sees it.
pub struct PositionView {
    pub stake_amount: nat,
    pub last_action_block: u64,
}

impl View for StakingPosition {
    type V = PositionView;

    open spec fn view(&self) -> PositionView {
        PositionView {
            stake_amount: self.stake_amount@,
            last_action_block: self.last_action_block,
        }
    }
}

impl Clone for StakingPosition {
    fn clone(&self) -> (copy: Self)
        ensures
            copy@ == self@,
    {
        StakingPosition {
            stake_amount: self.stake_amount.clone(),
            last_action_block: self.last_action_block,
        }
    }
}

impl Default for StakingPosition {
    /// The position of an address that has nothing staked.
    fn default() -> (position: Self)
        ensures
            position@ == empty_position(),
    {
        StakingPosition { stake_amount: Amount::zero(), last_action_block: 0 }
    }
}

/// The position of an address that has nothing staked: no stake, settled at
/// block zero.
pub open spec fn empty_position() -> PositionView {
    PositionView { stake_amount: 0, last_action_block: 0 }
}

/// The reward that has accrued on `position` at `current_block`: nothing until
/// a block after the last settlement; from then on the yearly rate on the
/// stake, in proportion to the blocks that have passed. Each division rounds
/// down, and the rate is applied before the blocks are.
pub open spec fn accrued_reward(position: PositionView, current_block: u64) -> nat {
    if current_block <= position.last_action_block {
        0
    } else {
        let yearly = (position.stake_amount * APY as nat) / MAX_PCT as nat;
        let blocks = (current_block - position.last_action_block) as nat;
        (yearly * blocks) / BLOCKS_IN_YEAR as nat
    }
}

/// `position` with its reward settled at `current_block`.
pub open spec fn settled(position: PositionView, current_block: u64) -> PositionView {
    PositionView { stake_amount: position.stake_amount, last_action_block: current_block }
}

/// Nothing accrues on an empty stake, however many blocks pass.
pub proof fn lemma_no_stake_no_reward(last_action_block: u64, current_block: u64)
    ensures
        accrued_reward(
            PositionView { stake_amount: 0, last_action_block },
            current_block,
        ) == 0,
{
    let blocks = (current_block - last_action_block) as nat;
    assert((0 * APY as nat) / MAX_PCT as nat == 0) by (nonlinear_arith);
    assert((0 * blocks) / BLOCKS_IN_YEAR as nat == 0) by (nonlinear_arith);
}

} // verus!
