//! What holds of the ledger whatever is done with it.

use crate::address::Address;
use crate::ledger::{
    after_claim, after_stake, after_unstake, holding, index_of, is_staked, lemma_claim_keeps_valid,
    lemma_index_of, lemma_index_of_is, lemma_stake_keeps_valid, lemma_unstake_keeps_valid,
    valid_ledger, withdrawal_amount, withdrawal_refusal, EntryView,
};
use crate::position::{accrued_reward, empty_position, PositionView};
use vstd::prelude::*;

verus! {

/// The sum of all stakes on the ledger.
pub open spec fn total_staked(entries: Seq<EntryView>) -> nat
    decreases entries.len(),
{
    if entries.len() == 0 {
        0
    } else {
        total_staked(entries.drop_last()) + entries.last().position.stake_amount
    }
}

/// A call that moves principal: a stake with its payment, or a withdrawal
/// with the amount asked for, each at its block.
pub enum Call {
    Stake { caller: Address, payment: nat, block: u64 },
    Unstake { caller: Address, requested: Option<nat>, block: u64 },
}

/// Whether the ledger carries the call out; a call that it turns down changes
/// nothing and moves nothing.
pub open spec fn is_accepted(entries: Seq<EntryView>, call: Call) -> bool {
    match call {
        Call::Stake { caller, payment, block } => payment > 0,
        Call::Unstake { caller, requested, block } => withdrawal_refusal(
            entries,
            caller,
            requested,
        ) is None,
    }
}

/// The ledger after the call.
pub open spec fn after_call(entries: Seq<EntryView>, call: Call) -> Seq<EntryView> {
    if !is_accepted(entries, call) {
        entries
    } else {
        match call {
            Call::Stake { caller, payment, block } => after_stake(entries, caller, payment, block),
            Call::Unstake { caller, requested, block } => after_unstake(
                entries,
                caller,
                withdrawal_amount(entries, caller, requested),
                block,
            ),
        }
    }
}

/// The principal that the call brings in; what it takes out counts as negative.
pub open spec fn net_payment(entries: Seq<EntryView>, call: Call) -> int {
    if !is_accepted(entries, call) {
        0
    } else {
        match call {
            Call::Stake { caller, payment, block } => payment as int,
            Call::Unstake { caller, requested, block } => -(withdrawal_amount(
                entries,
                caller,
                requested,
            ) as int),
        }
    }
}

/// The reward that the call settles and pays to its caller.
pub open spec fn reward_paid(entries: Seq<EntryView>, call: Call) -> nat {
    if !is_accepted(entries, call) {
        0
    } else {
        match call {
            Call::Stake { caller, payment, block } => accrued_reward(
                holding(entries, caller),
                block,
            ),
            Call::Unstake { caller, requested, block } => accrued_reward(
                holding(entries, caller),
                block,
            ),
        }
    }
}

/// The block at which the call is made.
pub open spec fn block_of(call: Call) -> u64 {
    match call {
        Call::Stake { caller, payment, block } => block,
        Call::Unstake { caller, requested, block } => block,
    }
}

/// The ledger after the calls, made in order.
pub open spec fn after_calls(entries: Seq<EntryView>, calls: Seq<Call>) -> Seq<EntryView>
    decreases calls.len(),
{
    if calls.len() == 0 {
        entries
    } else {
        after_call(after_calls(entries, calls.drop_last()), calls.last())
    }
}

/// The principal that the calls bring in, less what they take out.
pub open spec fn net_payments(entries: Seq<EntryView>, calls: Seq<Call>) -> int
    decreases calls.len(),
{
    if calls.len() == 0 {
        0
    } else {
        net_payments(entries, calls.drop_last()) + net_payment(
            after_calls(entries, calls.drop_last()),
            calls.last(),
        )
    }
}

/// The rewards that the calls pay, all together.
pub open spec fn rewards_paid(entries: Seq<EntryView>, calls: Seq<Call>) -> nat
    decreases calls.len(),
{
    if calls.len() == 0 {
        0
    } else {
        rewards_paid(entries, calls.drop_last()) + reward_paid(
            after_calls(entries, calls.drop_last()),
            calls.last(),
        )
    }
}

/// Whether every position on the ledger is settled at `block` or later, so
/// that nothing has accrued on any of them at `block`.
pub open spec fn settled_by(entries: Seq<EntryView>, block: u64) -> bool {
    forall|i: int| 0 <= i < entries.len() ==> entries[i].position.last_action_block >= block
}

/// Replacing a line changes the total by the difference of the two stakes.
pub proof fn lemma_total_update(entries: Seq<EntryView>, i: int, entry: EntryView)
    requires
        0 <= i < entries.len(),
    ensures
        total_staked(entries.update(i, entry)) == total_staked(entries)
            - entries[i].position.stake_amount + entry.position.stake_amount,
    decreases entries.len(),
{
    let replaced = entries.update(i, entry);
    if i == entries.len() - 1 {
        assert(replaced.drop_last() =~= entries.drop_last());
    } else {
        lemma_total_update(entries.drop_last(), i, entry);
        assert(replaced.drop_last() =~= entries.drop_last().update(i, entry));
    }
}

/// Moving the last line into the place of another takes that other line's
/// stake off the total.
pub proof fn lemma_total_swap_remove(entries: Seq<EntryView>, i: int)
    requires
        0 <= i < entries.len(),
    ensures
        total_staked(entries.update(i, entries.last()).drop_last()) == total_staked(entries)
            - entries[i].position.stake_amount,
{
    let front = entries.drop_last();
    if i == entries.len() - 1 {
        assert(entries.update(i, entries.last()).drop_last() =~= front);
    } else {
        lemma_total_update(front, i, entries.last());
        assert(entries.update(i, entries.last()).drop_last() =~= front.update(i, entries.last()));
    }
}

/// One call changes the total of all stakes by the principal it moves, and
/// keeps the ledger valid.
pub proof fn lemma_call_conserves(entries: Seq<EntryView>, call: Call)
    requires
        valid_ledger(entries),
    ensures
        valid_ledger(after_call(entries, call)),
        total_staked(after_call(entries, call)) == total_staked(entries) + net_payment(
            entries,
            call,
        ),
{
    if is_accepted(entries, call) {
        match call {
            Call::Stake { caller, payment, block } => {
                lemma_index_of(entries, caller);
                lemma_stake_keeps_valid(entries, caller, payment, block);
                let i = index_of(entries, caller);
                let after = after_stake(entries, caller, payment, block);
                if is_staked(entries, caller) {
                    lemma_total_update(entries, i, after[i]);
                } else {
                    assert(after.drop_last() =~= entries);
                }
            },
            Call::Unstake { caller, requested, block } => {
                lemma_index_of(entries, caller);
                let amount = withdrawal_amount(entries, caller, requested);
                lemma_unstake_keeps_valid(entries, caller, amount, block);
                let i = index_of(entries, caller);
                let after = after_unstake(entries, caller, amount, block);
                if holding(entries, caller).stake_amount - amount > 0 {
                    lemma_total_update(entries, i, after[i]);
                } else {
                    lemma_total_swap_remove(entries, i);
                }
            },
        }
    }
}

/// Conservation of principal: after any calls to stake and to withdraw, made
/// in any order and at any blocks, the stakes on the ledger add up to what
/// they added up to before, plus the payments staked, less the amounts
/// withdrawn. Rewards never enter a stake.
pub proof fn law_conservation(entries: Seq<EntryView>, calls: Seq<Call>)
    requires
        valid_ledger(entries),
    ensures
        valid_ledger(after_calls(entries, calls)),
        total_staked(after_calls(entries, calls)) == total_staked(entries) + net_payments(
            entries,
            calls,
        ),
    decreases calls.len(),
{
    if calls.len() > 0 {
        law_conservation(entries, calls.drop_last());
        lemma_call_conserves(after_calls(entries, calls.drop_last()), calls.last());
    }
}

/// A call made at `block` on a ledger whose positions are all settled at
/// `block` or later pays no reward and leaves such a ledger.
pub proof fn lemma_call_pays_nothing(entries: Seq<EntryView>, call: Call)
    requires
        valid_ledger(entries),
        settled_by(entries, block_of(call)),
    ensures
        reward_paid(entries, call) == 0,
        settled_by(after_call(entries, call), block_of(call)),
{
    match call {
        Call::Stake { caller, payment, block } => {
            lemma_index_of(entries, caller);
            crate::position::lemma_no_stake_no_reward(0, block);
        },
        Call::Unstake { caller, requested, block } => {
            lemma_index_of(entries, caller);
        },
    }
}

/// Where no block passes, no reward is paid: calls to stake and to withdraw
/// that are all made at one block, on a ledger whose positions are settled at
/// that block or later, pay no reward at all. With conservation of principal,
/// the payments staked less the amounts withdrawn are then all that moves.
pub proof fn law_no_blocks_no_rewards(entries: Seq<EntryView>, calls: Seq<Call>, block: u64)
    requires
        valid_ledger(entries),
        settled_by(entries, block),
        forall|k: int| 0 <= k < calls.len() ==> block_of(calls[k]) == block,
    ensures
        rewards_paid(entries, calls) == 0,
        settled_by(after_calls(entries, calls), block),
    decreases calls.len(),
{
    if calls.len() > 0 {
        let earlier = calls.drop_last();
        assert forall|k: int| 0 <= k < earlier.len() implies block_of(earlier[k]) == block by {
            assert(earlier[k] == calls[k]);
        }
        law_no_blocks_no_rewards(entries, earlier, block);
        law_conservation(entries, earlier);
        lemma_call_pays_nothing(after_calls(entries, earlier), calls.last());
    }
}

/// Settlement pays once: after a claim at some block, nothing has accrued to
/// the caller at that block, so a second claim there pays zero and changes
/// nothing.
pub proof fn law_settlement_idempotent(entries: Seq<EntryView>, caller: Address, block: u64)
    ensures
        is_staked(after_claim(entries, caller, block), caller) == is_staked(entries, caller),
        accrued_reward(holding(after_claim(entries, caller, block), caller), block) == 0,
        after_claim(after_claim(entries, caller, block), caller, block) == after_claim(
            entries,
            caller,
            block,
        ),
{
    lemma_index_of(entries, caller);
    let once = after_claim(entries, caller, block);
    if is_staked(entries, caller) {
        lemma_index_of_is(once, caller, index_of(entries, caller));
        assert(after_claim(once, caller, block) =~= once);
    } else {
        crate::position::lemma_no_stake_no_reward(0, block);
    }
}

/// On a valid ledger an address has a position exactly when it has a positive
/// stake.
pub proof fn law_staked_iff_positive(entries: Seq<EntryView>, address: Address)
    requires
        valid_ledger(entries),
    ensures
        is_staked(entries, address) <==> holding(entries, address).stake_amount > 0,
        is_staked(entries, address) <==> crate::ledger::addresses_of(entries).contains(address),
{
    lemma_index_of(entries, address);
    let addresses = crate::ledger::addresses_of(entries);
    if is_staked(entries, address) {
        assert(addresses[index_of(entries, address)] == address);
    }
}

/// Removal on zero: a withdrawal of the whole stake closes the position. The
/// caller is then no longer among the staked addresses, and its position
/// reads as the empty one.
pub proof fn law_full_withdrawal_closes(entries: Seq<EntryView>, caller: Address, block: u64)
    requires
        valid_ledger(entries),
        is_staked(entries, caller),
    ensures
        !is_staked(
            after_unstake(entries, caller, holding(entries, caller).stake_amount, block),
            caller,
        ),
        !crate::ledger::addresses_of(
            after_unstake(entries, caller, holding(entries, caller).stake_amount, block),
        ).contains(caller),
        holding(
            after_unstake(entries, caller, holding(entries, caller).stake_amount, block),
            caller,
        ) == empty_position(),
{
    lemma_index_of(entries, caller);
    let after = after_unstake(entries, caller, holding(entries, caller).stake_amount, block);
    lemma_index_of_is(after, caller, after.len() as int);
}

/// A withdrawal of less than the whole stake keeps the position open, with
/// what remains, settled at the block of the withdrawal.
pub proof fn law_partial_withdrawal_keeps(
    entries: Seq<EntryView>,
    caller: Address,
    amount: nat,
    block: u64,
)
    requires
        valid_ledger(entries),
        is_staked(entries, caller),
        0 < amount < holding(entries, caller).stake_amount,
    ensures
        is_staked(after_unstake(entries, caller, amount, block), caller),
        holding(after_unstake(entries, caller, amount, block), caller) == (PositionView {
            stake_amount: (holding(entries, caller).stake_amount - amount) as nat,
            last_action_block: block,
        }),
{
    lemma_index_of(entries, caller);
    lemma_index_of_is(
        after_unstake(entries, caller, amount, block),
        caller,
        index_of(entries, caller),
    );
}

/// After a stake the caller holds what it held before plus the payment,
/// settled at the block of the stake.
pub proof fn law_stake_adds(entries: Seq<EntryView>, caller: Address, payment: nat, block: u64)
    requires
        valid_ledger(entries),
        payment > 0,
    ensures
        is_staked(after_stake(entries, caller, payment, block), caller),
        holding(after_stake(entries, caller, payment, block), caller) == (PositionView {
            stake_amount: holding(entries, caller).stake_amount + payment,
            last_action_block: block,
        }),
{
    lemma_index_of(entries, caller);
    lemma_index_of_is(
        after_stake(entries, caller, payment, block),
        caller,
        index_of(entries, caller),
    );
}

/// An operation touches its caller only: after a stake, a claim or a
/// withdrawal by one address, every other address has a position exactly when
/// it had one before, and holds what it held before.
pub proof fn law_others_untouched(
    entries: Seq<EntryView>,
    caller: Address,
    other: Address,
    amount: nat,
    block: u64,
)
    requires
        valid_ledger(entries),
        other != caller,
    ensures
        holding(after_stake(entries, caller, amount, block), other) == holding(entries, other),
        is_staked(after_stake(entries, caller, amount, block), other) == is_staked(
            entries,
            other,
        ),
        holding(after_claim(entries, caller, block), other) == holding(entries, other),
        is_staked(after_claim(entries, caller, block), other) == is_staked(entries, other),
        is_staked(entries, caller) ==> holding(
            after_unstake(entries, caller, amount, block),
            other,
        ) == holding(entries, other),
        is_staked(entries, caller) ==> is_staked(
            after_unstake(entries, caller, amount, block),
            other,
        ) == is_staked(entries, other),
{
    lemma_index_of(entries, caller);
    lemma_index_of(entries, other);
    let i = index_of(entries, caller);
    let j = index_of(entries, other);
    let staked = after_stake(entries, caller, amount, block);
    if is_staked(entries, other) || is_staked(entries, caller) {
        lemma_index_of_is(staked, other, j);
    } else {
        lemma_index_of_is(staked, other, j + 1);
    }
    lemma_index_of_is(after_claim(entries, caller, block), other, j);
    if is_staked(entries, caller) {
        let withdrawn = after_unstake(entries, caller, amount, block);
        if withdrawn.len() == entries.len() {
            lemma_index_of_is(withdrawn, other, j);
        } else if j == entries.len() {
            lemma_index_of_is(withdrawn, other, j - 1);
        } else if j == entries.len() - 1 {
            lemma_index_of_is(withdrawn, other, i);
        } else {
            lemma_index_of_is(withdrawn, other, j);
        }
    }
}

} // verus!
