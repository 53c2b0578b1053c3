//! The stake ledger: who has staked what, and the three operations that
//! change it.

use crate::address::Address;
use crate::amount::Amount;
use crate::position::{
    accrued_reward, empty_position, lemma_no_stake_no_reward, settled, PositionView,
    StakingPosition, APY, BLOCKS_IN_YEAR, MAX_PCT,
};
use vstd::prelude::*;

verus! {

/// Why the ledger turned an operation down.
#[derive(Clone, Copy, Debug, PartialEq, Eq, Structural)]
pub enum StakingError {
    /// A stake came without payment.
    InvalidPayment,
    /// The caller has no position.
    NotStaked,
    /// The amount to withdraw is zero or more than the caller has staked.
    InvalidAmount,
}

/// The text that goes with an error.
pub open spec fn message_of(error: StakingError) -> Seq<char> {
    match error {
        StakingError::InvalidPayment => "Must pay more than 0"@,
        StakingError::NotStaked => "Must stake first"@,
        StakingError::InvalidAmount => "Invalid unstake amount"@,
    }
}

impl StakingError {
    /// The text that tells the caller why the operation was turned down.
    pub fn message(&self) -> (text: &'static str)
        ensures
            text@ == message_of(*self),
    {
        match self {
            StakingError::InvalidPayment => "Must pay more than 0",
            StakingError::NotStaked => "Must stake first",
            StakingError::InvalidAmount => "Invalid unstake amount",
        }
    }
}

/// What the ledger owes the caller after a withdrawal.
#[derive(Debug, PartialEq, Eq)]
pub struct Payout {
    /// The reward settled by the withdrawal.
    pub reward: Amount,
    /// The principal withdrawn.
    pub principal: Amount,
}

/// One line of the ledger as mathematics sees it: an address and its position.
pub struct EntryView {
    pub address: Address,
    pub position: PositionView,
}

/// The index of the first line for `address`, or the number of lines if there
/// is none.
pub open spec fn index_of(entries: Seq<EntryView>, address: Address) -> int
    decreases entries.len(),
{
    if entries.len() == 0 {
        0
    } else {
        let before = index_of(entries.drop_last(), address);
        if before < entries.len() - 1 {
            before
        } else if entries.last().address == address {
            entries.len() - 1
        } else {
            entries.len() as int
        }
    }
}

/// A ledger is valid when no address has two lines and every line holds a
/// positive stake.
pub open spec fn valid_ledger(entries: Seq<EntryView>) -> bool {
    &&& forall|i: int, j: int|
        0 <= i < j < entries.len() ==> entries[i].address != entries[j].address
    &&& forall|i: int| 0 <= i < entries.len() ==> entries[i].position.stake_amount > 0
}

/// Whether `address` has a position.
pub open spec fn is_staked(entries: Seq<EntryView>, address: Address) -> bool {
    index_of(entries, address) < entries.len()
}

/// The position of `address`; the empty position if it has none.
pub open spec fn holding(entries: Seq<EntryView>, address: Address) -> PositionView {
    if is_staked(entries, address) {
        entries[index_of(entries, address)].position
    } else {
        empty_position()
    }
}

/// The addresses of the ledger, line by line.
pub open spec fn addresses_of(entries: Seq<EntryView>) -> Seq<Address> {
    Seq::new(entries.len(), |i: int| entries[i].address)
}

/// The reward that a stake by `caller` at `current_block` settles.
pub open spec fn stake_reward(
    entries: Seq<EntryView>,
    caller: Address,
    current_block: u64,
) -> nat {
    accrued_reward(holding(entries, caller), current_block)
}

/// The ledger after `caller` has staked `payment` at `current_block`: its
/// position is settled at that block and grows by the payment; a caller without
/// a position gets a new line at the end.
pub open spec fn after_stake(
    entries: Seq<EntryView>,
    caller: Address,
    payment: nat,
    current_block: u64,
) -> Seq<EntryView> {
    let position = PositionView {
        stake_amount: holding(entries, caller).stake_amount + payment,
        last_action_block: current_block,
    };
    let entry = EntryView { address: caller, position };
    if is_staked(entries, caller) {
        entries.update(index_of(entries, caller), entry)
    } else {
        entries.push(entry)
    }
}

/// The ledger after `caller` has claimed its reward at `current_block`: its
/// position is settled at that block.
pub open spec fn after_claim(
    entries: Seq<EntryView>,
    caller: Address,
    current_block: u64,
) -> Seq<EntryView> {
    if is_staked(entries, caller) {
        entries.update(
            index_of(entries, caller),
            EntryView {
                address: caller,
                position: settled(holding(entries, caller), current_block),
            },
        )
    } else {
        entries
    }
}

/// The amount that a withdrawal is for: the amount asked for, or the whole
/// stake where none is named.
pub open spec fn withdrawal_amount(
    entries: Seq<EntryView>,
    caller: Address,
    requested: Option<nat>,
) -> nat {
    match requested {
        Some(amount) => amount,
        None => holding(entries, caller).stake_amount,
    }
}

/// Why a withdrawal is turned down, if it is.
pub open spec fn withdrawal_refusal(
    entries: Seq<EntryView>,
    caller: Address,
    requested: Option<nat>,
) -> Option<StakingError> {
    let amount = withdrawal_amount(entries, caller, requested);
    if !is_staked(entries, caller) {
        Some(StakingError::NotStaked)
    } else if amount == 0 || amount > holding(entries, caller).stake_amount {
        Some(StakingError::InvalidAmount)
    } else {
        None
    }
}

/// The ledger after `caller` has withdrawn `amount` at `current_block`: its
/// position is settled at that block and shrinks by the amount; where nothing
/// remains, the last line takes the place of the caller's.
pub open spec fn after_unstake(
    entries: Seq<EntryView>,
    caller: Address,
    amount: nat,
    current_block: u64,
) -> Seq<EntryView> {
    let i = index_of(entries, caller);
    let remaining = holding(entries, caller).stake_amount - amount;
    if remaining > 0 {
        entries.update(
            i,
            EntryView {
                address: caller,
                position: PositionView {
                    stake_amount: remaining as nat,
                    last_action_block: current_block,
                },
            },
        )
    } else {
        entries.update(i, entries.last()).drop_last()
    }
}

/// The amount that an optional amount stands for.
pub open spec fn requested_view(requested: Option<Amount>) -> Option<nat> {
    match requested {
        Some(amount) => Some(amount@),
        None => None,
    }
}

/// `index_of` finds the first line for the address: that line holds it, and no
/// line before does.
pub proof fn lemma_index_of(entries: Seq<EntryView>, address: Address)
    ensures
        0 <= index_of(entries, address) <= entries.len(),
        index_of(entries, address) < entries.len() ==> entries[index_of(
            entries,
            address,
        )].address == address,
        forall|j: int| 0 <= j < index_of(entries, address) ==> entries[j].address != address,
    decreases entries.len(),
{
    if entries.len() > 0 {
        let front = entries.drop_last();
        lemma_index_of(front, address);
        assert forall|j: int| 0 <= j < index_of(entries, address) implies entries[j].address
            != address by {
            if j < front.len() {
                assert(front[j] == entries[j]);
            }
        }
    }
}

/// The one index that holds the address and has no line for it before is what
/// `index_of` returns.
pub proof fn lemma_index_of_is(entries: Seq<EntryView>, address: Address, i: int)
    requires
        0 <= i <= entries.len(),
        forall|j: int| 0 <= j < i ==> entries[j].address != address,
        i < entries.len() ==> entries[i].address == address,
    ensures
        index_of(entries, address) == i,
{
    lemma_index_of(entries, address);
}

/// Staking keeps a ledger valid.
pub proof fn lemma_stake_keeps_valid(
    entries: Seq<EntryView>,
    caller: Address,
    payment: nat,
    current_block: u64,
)
    requires
        valid_ledger(entries),
        payment > 0,
    ensures
        valid_ledger(after_stake(entries, caller, payment, current_block)),
{
    lemma_index_of(entries, caller);
}

/// Claiming keeps a ledger valid.
pub proof fn lemma_claim_keeps_valid(entries: Seq<EntryView>, caller: Address, current_block: u64)
    requires
        valid_ledger(entries),
    ensures
        valid_ledger(after_claim(entries, caller, current_block)),
{
    lemma_index_of(entries, caller);
}

/// A withdrawal that is not turned down keeps a ledger valid.
pub proof fn lemma_unstake_keeps_valid(
    entries: Seq<EntryView>,
    caller: Address,
    amount: nat,
    current_block: u64,
)
    requires
        valid_ledger(entries),
        is_staked(entries, caller),
        0 < amount <= holding(entries, caller).stake_amount,
    ensures
        valid_ledger(after_unstake(entries, caller, amount, current_block)),
{
    lemma_index_of(entries, caller);
}

/// One line of the ledger.
#[derive(Debug, PartialEq, Eq)]
struct Entry {
    address: Address,
    position: StakingPosition,
}

impl View for Entry {
    type V = EntryView;

    closed spec fn view(&self) -> EntryView {
        EntryView { address: self.address, position: self.position@ }
    }
}

/// The lines of a ledger as mathematics sees them.
spec fn lines(entries: Seq<Entry>) -> Seq<EntryView> {
    entries.map_values(|entry: Entry| entry@)
}

/// The stake ledger. Its lines are in the order in which the addresses first
/// staked, but for this: when a position is closed, the last line moves into
/// its place.
#[derive(Debug, PartialEq, Eq)]
pub struct StakingContract {
    entries: Vec<Entry>,
}

impl Clone for StakingContract {
    fn clone(&self) -> (copy: Self)
        ensures
            copy@ == self@,
    {
        proof {
            use_type_invariant(self);
        }
        let mut entries: Vec<Entry> = Vec::new();
        let mut i: usize = 0;
        while i < self.entries.len()
            invariant
                i <= self.entries@.len(),
                lines(entries@) == self@.take(i as int),
            decreases self.entries@.len() - i,
        {
            let entry = Entry {
                address: self.entries[i].address,
                position: self.entries[i].position.clone(),
            };
            assert(entry@ == self@[i as int]);
            let ghost copied = entries@;
            entries.push(entry);
            i += 1;
            assert(lines(entries@) =~= lines(copied).push(entry@));
            assert(lines(entries@) =~= self@.take(i as int));
        }
        assert(self@.take(i as int) =~= self@);
        StakingContract { entries }
    }
}

impl View for StakingContract {
    type V = Seq<EntryView>;

    closed spec fn view(&self) -> Seq<EntryView> {
        lines(self.entries@)
    }
}

impl StakingContract {
    #[verifier::type_invariant]
    spec fn valid(self) -> bool {
        valid_ledger(self@)
    }

    /// The ledger on which nobody has staked.
    pub fn init() -> (ledger: StakingContract)
        ensures
            ledger@ == Seq::<EntryView>::empty(),
            valid_ledger(ledger@),
    {
        let ledger = StakingContract { entries: Vec::new() };
        assert(ledger@ =~= Seq::<EntryView>::empty());
        ledger
    }

    /// Puts a position that was kept elsewhere back on the ledger, as a new
    /// line at the end. An address that is already on the ledger and a
    /// position without stake are turned down and change nothing.
    pub fn restore(&mut self, address: Address, position: StakingPosition) -> (restored: bool)
        ensures
            valid_ledger(final(self)@),
            restored == (!is_staked(old(self)@, address) && position@.stake_amount > 0),
            restored ==> final(self)@ == old(self)@.push(
                EntryView { address, position: position@ },
            ),
            !restored ==> final(self)@ == old(self)@,
    {
        proof {
            use_type_invariant(&*self);
        }
        if self.find(&address) < self.entries.len() || position.stake_amount.is_zero() {
            return false;
        }
        let entry = Entry { address, position };
        let ghost before = self@;
        proof {
            lemma_index_of(before, address);
        }
        let mut entries: Vec<Entry> = Vec::new();
        std::mem::swap(&mut entries, &mut self.entries);
        entries.push(entry);
        assert(lines(entries@) =~= before.push(entry@));
        self.entries = entries;
        true
    }

    /// The index of the line of `address`, or the number of lines.
    fn find(&self, address: &Address) -> (i: usize)
        ensures
            i == index_of(self@, *address),
            i <= self.entries@.len(),
            i < self.entries@.len() ==> self.entries@[i as int].address == *address,
    {
        let mut i: usize = 0;
        while i < self.entries.len()
            invariant
                i <= self.entries@.len(),
                forall|j: int| 0 <= j < i ==> self@[j].address != *address,
            decreases self.entries@.len() - i,
        {
            if self.entries[i].address.equals(address) {
                proof {
                    lemma_index_of_is(self@, *address, i as int);
                }
                return i;
            }
            i += 1;
        }
        proof {
            lemma_index_of_is(self@, *address, i as int);
        }
        i
    }

    /// The reward that has accrued on a position at `current_block`.
    pub fn calculate_rewards(
        &self,
        staking_position: &StakingPosition,
        current_block: u64,
    ) -> (reward: Amount)
        ensures
            reward@ == accrued_reward(staking_position@, current_block),
            current_block <= staking_position.last_action_block ==> reward@ == 0,
    {
        if current_block <= staking_position.last_action_block {
            return Amount::zero();
        }
        let block_diff = current_block - staking_position.last_action_block;
        staking_position.stake_amount.mul_u64(APY).div_u64(MAX_PCT).mul_u64(block_diff).div_u64(
            BLOCKS_IN_YEAR,
        )
    }

    /// Settles the reward of a position at `current_block`: returns what has
    /// accrued, which is owed to the position's owner, and marks the position
    /// as settled at that block, whether anything had accrued or not.
    pub fn claim_rewards_for_user(
        &self,
        staking_pos: &mut StakingPosition,
        current_block: u64,
    ) -> (reward: Amount)
        ensures
            reward@ == accrued_reward(old(staking_pos)@, current_block),
            final(staking_pos)@ == settled(old(staking_pos)@, current_block),
    {
        let reward_amount = self.calculate_rewards(staking_pos, current_block);
        staking_pos.last_action_block = current_block;
        reward_amount
    }

    /// Stakes `payment_amount` for `caller`. A payment of zero is turned down
    /// and changes nothing. Otherwise the caller's reward is settled at
    /// `current_block` and returned, and its stake grows by the payment.
    ///
    /// A caller without a position starts from an empty one, dated
    /// `current_epoch`; as nothing accrues on an empty stake, its reward is
    /// zero and the date leaves no trace.
    pub fn stake(
        &mut self,
        caller: &Address,
        payment_amount: Amount,
        current_epoch: u64,
        current_block: u64,
    ) -> (outcome: Result<Amount, StakingError>)
        ensures
            valid_ledger(final(self)@),
            payment_amount@ == 0 ==> outcome == Err::<Amount, StakingError>(
                StakingError::InvalidPayment,
            ) && final(self)@ == old(self)@,
            payment_amount@ > 0 ==> outcome is Ok && outcome->Ok_0@ == stake_reward(
                old(self)@,
                *caller,
                current_block,
            ) && final(self)@ == after_stake(
                old(self)@,
                *caller,
                payment_amount@,
                current_block,
            ),
            payment_amount@ > 0 && !is_staked(old(self)@, *caller) ==> outcome->Ok_0@ == 0,
    {
        proof {
            use_type_invariant(&*self);
        }
        if payment_amount.is_zero() {
            return Err(StakingError::InvalidPayment);
        }
        let i = self.find(caller);
        let new_user = i == self.entries.len();
        let mut staking_pos = if !new_user {
            self.entries[i].position.clone()
        } else {
            proof {
                lemma_no_stake_no_reward(current_epoch, current_block);
                lemma_no_stake_no_reward(0, current_block);
            }
            StakingPosition { stake_amount: Amount::zero(), last_action_block: current_epoch }
        };
        let reward = self.claim_rewards_for_user(&mut staking_pos, current_block);
        staking_pos.stake_amount = staking_pos.stake_amount.add(&payment_amount);
        let entry = Entry { address: *caller, position: staking_pos };
        let ghost before = self@;
        proof {
            lemma_stake_keeps_valid(before, *caller, payment_amount@, current_block);
        }
        let mut entries: Vec<Entry> = Vec::new();
        std::mem::swap(&mut entries, &mut self.entries);
        if new_user {
            entries.push(entry);
            assert(lines(entries@) =~= before.push(entry@));
        } else {
            entries.set(i, entry);
            assert(lines(entries@) =~= before.update(i as int, entry@));
        }
        self.entries = entries;
        Ok(reward)
    }

    /// Withdraws from the stake of `caller`: the amount named, or the whole
    /// stake where none is. A caller without a position, an amount of zero and
    /// an amount above the stake are turned down and change nothing. Otherwise
    /// the caller's reward is settled at `current_block`, its stake shrinks by
    /// the amount, and both are returned; a position with nothing left is
    /// closed.
    pub fn unstake(
        &mut self,
        caller: &Address,
        opt_unstake_amount: Option<Amount>,
        current_block: u64,
    ) -> (outcome: Result<Payout, StakingError>)
        ensures
            valid_ledger(final(self)@),
            withdrawal_refusal(old(self)@, *caller, requested_view(opt_unstake_amount)) matches Some(
                error,
            ) ==> outcome == Err::<Payout, StakingError>(error) && final(self)@ == old(self)@,
            withdrawal_refusal(old(self)@, *caller, requested_view(opt_unstake_amount)) is None
                ==> outcome is Ok && outcome->Ok_0.principal@ == withdrawal_amount(
                old(self)@,
                *caller,
                requested_view(opt_unstake_amount),
            ) && outcome->Ok_0.reward@ == accrued_reward(
                holding(old(self)@, *caller),
                current_block,
            ) && final(self)@ == after_unstake(
                old(self)@,
                *caller,
                withdrawal_amount(old(self)@, *caller, requested_view(opt_unstake_amount)),
                current_block,
            ),
    {
        proof {
            use_type_invariant(&*self);
        }
        let i = self.find(caller);
        if i == self.entries.len() {
            return Err(StakingError::NotStaked);
        }
        let mut staking_pos = self.entries[i].position.clone();
        let unstake_amount = match opt_unstake_amount {
            Some(amt) => amt,
            None => staking_pos.stake_amount.clone(),
        };
        if unstake_amount.is_zero() || !unstake_amount.le(&staking_pos.stake_amount) {
            return Err(StakingError::InvalidAmount);
        }
        let reward = self.claim_rewards_for_user(&mut staking_pos, current_block);
        staking_pos.stake_amount = staking_pos.stake_amount.sub(&unstake_amount);
        let ghost before = self@;
        proof {
            lemma_unstake_keeps_valid(before, *caller, unstake_amount@, current_block);
        }
        let mut entries: Vec<Entry> = Vec::new();
        std::mem::swap(&mut entries, &mut self.entries);
        if !staking_pos.stake_amount.is_zero() {
            let entry = Entry { address: *caller, position: staking_pos };
            entries.set(i, entry);
            assert(lines(entries@) =~= before.update(i as int, entry@));
        } else {
            entries.swap_remove(i);
            assert(lines(entries@) =~= before.update(i as int, before.last()).drop_last());
        }
        self.entries = entries;
        Ok(Payout { reward, principal: unstake_amount })
    }

    /// Settles the reward of `caller` at `current_block` and returns it; the
    /// stake stays as it is. A caller without a position is turned down.
    pub fn claim_rewards(&mut self, caller: &Address, current_block: u64) -> (outcome: Result<
        Amount,
        StakingError,
    >)
        ensures
            valid_ledger(final(self)@),
            !is_staked(old(self)@, *caller) ==> outcome == Err::<Amount, StakingError>(
                StakingError::NotStaked,
            ) && final(self)@ == old(self)@,
            is_staked(old(self)@, *caller) ==> outcome is Ok && outcome->Ok_0@ == accrued_reward(
                holding(old(self)@, *caller),
                current_block,
            ) && final(self)@ == after_claim(old(self)@, *caller, current_block),
    {
        proof {
            use_type_invariant(&*self);
        }
        let i = self.find(caller);
        if i == self.entries.len() {
            return Err(StakingError::NotStaked);
        }
        let mut staking_pos = self.entries[i].position.clone();
        let reward = self.claim_rewards_for_user(&mut staking_pos, current_block);
        let entry = Entry { address: *caller, position: staking_pos };
        let ghost before = self@;
        proof {
            lemma_claim_keeps_valid(before, *caller, current_block);
        }
        let mut entries: Vec<Entry> = Vec::new();
        std::mem::swap(&mut entries, &mut self.entries);
        entries.set(i, entry);
        assert(lines(entries@) =~= before.update(i as int, entry@));
        self.entries = entries;
        Ok(reward)
    }

    /// Whether `user` has a position: `Ok` if so, `NotStaked` if not.
    pub fn require_user_staked(&self, user: &Address) -> (outcome: Result<(), StakingError>)
        ensures
            is_staked(self@, *user) ==> outcome == Ok::<(), StakingError>(()),
            !is_staked(self@, *user) ==> outcome == Err::<(), StakingError>(
                StakingError::NotStaked,
            ),
    {
        if self.find(user) < self.entries.len() {
            Ok(())
        } else {
            Err(StakingError::NotStaked)
        }
    }

    /// The reward that has accrued to `addr` at `current_block`; zero for an
    /// address without a position. Changes nothing.
    pub fn calculate_rewards_for_user(&self, addr: Address, current_block: u64) -> (reward: Amount)
        ensures
            reward@ == accrued_reward(holding(self@, addr), current_block),
            !is_staked(self@, addr) ==> reward@ == 0,
    {
        proof {
            lemma_no_stake_no_reward(0, current_block);
        }
        let staking_pos = self.staking_position(&addr);
        self.calculate_rewards(&staking_pos, current_block)
    }

    /// The position of `addr`; the empty position for an address without one.
    pub fn staking_position(&self, addr: &Address) -> (position: StakingPosition)
        ensures
            position@ == holding(self@, *addr),
    {
        let i = self.find(addr);
        if i < self.entries.len() {
            self.entries[i].position.clone()
        } else {
            StakingPosition::default()
        }
    }

    /// The addresses that have a position, in the order of the ledger's lines.
    pub fn staked_addresses(&self) -> (addresses: Vec<Address>)
        ensures
            addresses@ == addresses_of(self@),
    {
        let mut addresses: Vec<Address> = Vec::new();
        let mut i: usize = 0;
        while i < self.entries.len()
            invariant
                i <= self.entries@.len(),
                addresses@ == addresses_of(self@).take(i as int),
            decreases self.entries@.len() - i,
        {
            addresses.push(self.entries[i].address);
            i += 1;
            assert(addresses@ =~= addresses_of(self@).take(i as int));
        }
        assert(addresses_of(self@).take(i as int) =~= addresses_of(self@));
        addresses
    }
}

} // verus!
