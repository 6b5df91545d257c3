use vstd::prelude::*;
use vstd::arithmetic::div_mod::lemma_div_is_ordered;
use crate::counting::{
    count_in_state, first_empty, lemma_count_update,
    lemma_count_zero_iff_absent, lemma_counts_partition, lemma_first_empty, lemma_promote_total,
    total_balance,
};
use crate::errors::CustomError;
use crate::model::{promote_staked, BalanceItemView, SlotState, VaultView};
use crate::pubkey::Pubkey;
use crate::record::{
    claimable, clear_claimed, lemma_clear_claimed_step, lemma_eligible_refs_grow,
    lemma_payout_keeps_attached, lemma_position_of, lemma_position_unique,
    lemma_refs_depend_on_referred, position_of, refers_to, UserView,
};
use crate::state::StakedNft;
use crate::stake::{stake, unstake};
use crate::user::claim_rewards;

verus! {

/// How many balance items are `Staked` in `before` and `Eligible` in `after`.
pub open spec fn newly_eligible(before: Seq<BalanceItemView>, after: Seq<BalanceItemView>) -> nat
    decreases before.len(),
{
    if before.len() == 0 || after.len() != before.len() {
        0
    } else {
        newly_eligible(before.drop_last(), after.drop_last()) + if before.last().state
            == SlotState::Staked && after.last().state == SlotState::Eligible {
            1nat
        } else {
            0nat
        }
    }
}

/// The vault after `n` balance items have been added one after the other,
/// or the error that stopped the first addition that was refused.
pub open spec fn after_adding(vault: VaultView, n: nat) -> Result<VaultView, CustomError>
    decreases n,
{
    if n == 0 {
        Ok(vault)
    } else {
        match after_adding(vault, (n - 1) as nat) {
            Ok(grown) => match grown.add_balance_item() {
                Ok((next, _)) => Ok(next),
                Err(e) => Err(e),
            },
            Err(e) => Err(e),
        }
    }
}

/// In a well-formed vault no more items are eligible than are staked, and
/// no more are staked than the table has balance items.
pub proof fn law_counts_are_ordered(vault: VaultView)
    requires
        vault.wf(),
    ensures
        vault.total_eligible_count <= vault.total_staked_count,
        vault.total_staked_count <= vault.total_balance_items.len(),
{
    lemma_counts_partition(vault.total_balance_items);
}

/// A payout round is paid once: after the rounds have been brought up to
/// `now`, bringing them up to `now` again, or to an earlier time, changes
/// nothing.
pub proof fn law_payout_is_idempotent(vault: VaultView, now: nat, again: nat)
    requires
        again <= now,
    ensures
        vault.update_payout_round(now) matches Ok(current) ==> current.update_payout_round(again)
            == Ok::<VaultView, CustomError>(current),
{
    if vault.update_payout_round(now) is Ok && vault.payout_interval > 0 && again
        >= vault.payout_schedule_started_time {
        lemma_div_is_ordered(
            again - vault.payout_schedule_started_time,
            now - vault.payout_schedule_started_time,
            vault.payout_interval as int,
        );
    }
}

/// The table does not change where nothing is staked, and a payout makes
/// every `Staked` item `Eligible`.
proof fn lemma_newly_eligible(slots: Seq<BalanceItemView>, earned: nat)
    ensures
        newly_eligible(slots, slots) == 0,
        newly_eligible(slots, promote_staked(slots, earned)) == count_in_state(
            slots,
            SlotState::Staked,
        ),
    decreases slots.len(),
{
    if slots.len() > 0 {
        assert(promote_staked(slots, earned).drop_last() =~= promote_staked(
            slots.drop_last(),
            earned,
        ));
        lemma_newly_eligible(slots.drop_last(), earned);
    }
}

/// Rewards are conserved: bringing the payout rounds up to `now` adds to
/// the balances, in sum, the round earnings once for each balance item that
/// goes from `Staked` to `Eligible`, and the count of eligible items grows
/// by the number of those items.
pub proof fn law_payout_conserves_rewards(vault: VaultView, now: nat)
    ensures
        vault.update_payout_round(now) matches Ok(current) ==> {
            let k = newly_eligible(vault.total_balance_items, current.total_balance_items);
            &&& total_balance(current.total_balance_items) == total_balance(
                vault.total_balance_items,
            ) + vault.round_earnings(now) * k
            &&& current.total_eligible_count == vault.total_eligible_count + k
            &&& vault.payout_pending(now) ==> k == count_in_state(
                vault.total_balance_items,
                SlotState::Staked,
            )
            &&& !vault.payout_pending(now) ==> k == 0
        },
{
    let earned = vault.round_earnings(now);
    lemma_newly_eligible(vault.total_balance_items, earned);
    lemma_promote_total(vault.total_balance_items, earned);
    assert(earned * 0 == 0) by (nonlinear_arith);
}

/// A vault is full exactly when every balance item is counted as staked.
pub proof fn law_full_iff_all_staked(vault: VaultView)
    requires
        vault.wf(),
    ensures
        vault.add_balance_item() is Err <==> vault.total_staked_count
            == vault.total_balance_items.len(),
        vault.add_balance_item() is Err ==> vault.add_balance_item() == Err::<
            (VaultView, nat),
            CustomError,
        >(CustomError::VaultFull),
{
    let slots = vault.total_balance_items;
    lemma_first_empty(slots);
    lemma_counts_partition(slots);
    lemma_count_zero_iff_absent(slots, SlotState::Empty);
}

/// Adding a balance item keeps a vault well formed, keeps the length of its
/// table, and counts one more staked item.
proof fn lemma_add_keeps_wf(vault: VaultView)
    requires
        vault.wf(),
    ensures
        vault.add_balance_item() matches Ok((next, index)) ==> {
            &&& next.wf()
            &&& next.total_balance_items.len() == vault.total_balance_items.len()
            &&& next.total_staked_count == vault.total_staked_count + 1
        },
{
    let slots = vault.total_balance_items;
    lemma_first_empty(slots);
    if let Ok((next, index)) = vault.add_balance_item() {
        let item = next.total_balance_items[index as int];
        lemma_count_update(slots, index as int, item, SlotState::Staked);
        lemma_count_update(slots, index as int, item, SlotState::Eligible);
    }
}

/// What `n` additions in a row do to the counters.
proof fn lemma_after_adding(vault: VaultView, n: nat)
    requires
        vault.wf(),
    ensures
        after_adding(vault, n) matches Ok(grown) ==> {
            &&& grown.wf()
            &&& grown.total_balance_items.len() == vault.total_balance_items.len()
            &&& grown.total_staked_count == vault.total_staked_count + n
        },
    decreases n,
{
    if n > 0 {
        lemma_after_adding(vault, (n - 1) as nat);
        if let Ok(grown) = after_adding(vault, (n - 1) as nat) {
            lemma_add_keeps_wf(grown);
        }
    }
}

/// The capacity of a vault is a bound: once as many balance items have been
/// added, with none removed, as the table has, the next addition is refused
/// because the vault is full.
pub proof fn law_full_after_capacity(vault: VaultView)
    requires
        vault.wf(),
    ensures
        after_adding(vault, vault.total_balance_items.len()) matches Ok(full)
            ==> full.add_balance_item() == Err::<(VaultView, nat), CustomError>(
            CustomError::VaultFull,
        ),
{
    lemma_after_adding(vault, vault.total_balance_items.len());
    if let Ok(full) = after_adding(vault, vault.total_balance_items.len()) {
        law_counts_are_ordered(full);
        law_full_iff_all_staked(full);
    }
}

/// A vault with nothing staked takes as many balance items as its table has.
pub proof fn law_empty_vault_takes_capacity(vault: VaultView, n: nat)
    requires
        vault.wf(),
        vault.total_staked_count == 0,
        n <= vault.total_balance_items.len(),
    ensures
        after_adding(vault, n) is Ok,
    decreases n,
{
    if n > 0 {
        law_empty_vault_takes_capacity(vault, (n - 1) as nat);
        lemma_after_adding(vault, (n - 1) as nat);
        let grown = after_adding(vault, (n - 1) as nat)->Ok_0;
        law_full_iff_all_staked(grown);
    }
}

/// Taking an item back undoes staking it: the record, the counters of the
/// vault and the balance item are as they were before the item was staked.
pub proof fn law_remove_undoes_add(user: UserView, vault: VaultView, mint: Pubkey)
    requires
        vault.wf(),
    ensures
        user.add_item(vault, mint) matches Ok((staked, occupied)) ==> staked.remove_item(
            occupied,
            mint,
        ) == Ok::<(UserView, VaultView), CustomError>((user, vault)),
{
    if let Ok((staked, occupied)) = user.add_item(vault, mint) {
        let slots = vault.total_balance_items;
        let index = first_empty(slots) as int;
        lemma_first_empty(slots);
        lemma_position_unique(staked.staked_items, mint, user.staked_items.len() as int);
        assert(staked.staked_items.remove(user.staked_items.len() as int)
            =~= user.staked_items);
        let (record, ledger) = staked.remove_item(occupied, mint)->Ok_0;
        assert(ledger.total_balance_items =~= slots);
        assert(record == user);
        assert(ledger == vault);
    }
}

/// Staking an item and taking it back at the same time leaves the record
/// as it was, and the vault as bringing the payout rounds up to that time
/// leaves it, but for the two fees, which have been earned.
pub proof fn law_unstake_undoes_stake(
    user: UserView,
    vault: VaultView,
    mint: Pubkey,
    now: nat,
    signer: Pubkey,
)
    requires
        vault.wf(),
    ensures
        stake(user, vault, mint, now) matches Ok((staked, occupied)) ==> (unstake(
            staked,
            occupied,
            mint,
            now,
            signer,
        ) matches Ok((record, ledger)) ==> {
            &&& record == user
            &&& vault.update_payout_round(now) matches Ok(current)
            &&& ledger == VaultView {
                total_earned: vault.total_earned + vault.stake_fee + vault.unstake_fee,
                ..current
            }
        }),
{
    if let Ok((staked, occupied)) = stake(user, vault, mint, now) {
        if let Ok((record, ledger)) = unstake(staked, occupied, mint, now, signer) {
            let charged = vault.charge_fee(vault.stake_fee)->Ok_0;
            let current = charged.update_payout_round(now)->Ok_0;
            let plain = vault.update_payout_round(now)->Ok_0;
            assert(current == VaultView { total_earned: charged.total_earned, ..plain });
            lemma_payout_keeps_wf(charged, now);
            law_remove_undoes_add(user, current, mint);
            let recharged = occupied.charge_fee(occupied.unstake_fee)->Ok_0;
            law_payout_is_idempotent(charged, now, now);
            assert(recharged.update_payout_round(now) == Ok::<VaultView, CustomError>(
                recharged,
            ));
            law_remove_undoes_add(
                user,
                VaultView { total_earned: recharged.total_earned, ..current },
                mint,
            );
        }
    }
}

/// Bringing the payout rounds up to date keeps a vault well formed.
proof fn lemma_payout_keeps_wf(vault: VaultView, now: nat)
    requires
        vault.wf(),
    ensures
        vault.update_payout_round(now) matches Ok(current) ==> current.wf(),
{
    crate::counting::lemma_promote_counts(vault.total_balance_items, vault.round_earnings(now));
}

/// Whether two records refer to no balance item in common.
pub open spec fn share_no_slot(a: UserView, b: UserView) -> bool {
    forall|i: int, j: int|
        0 <= i < a.staked_items.len() && 0 <= j < b.staked_items.len() ==> (
        #[trigger] a.staked_items[i]).index != (#[trigger] b.staked_items[j]).index
}

/// When one participant stakes an item, the record of another still belongs
/// to the vault, and the two records still refer to no balance item in
/// common.
pub proof fn law_add_keeps_other_records(
    user: UserView,
    other: UserView,
    vault: VaultView,
    mint: Pubkey,
)
    requires
        vault.wf(),
        other.attached_to(vault),
        share_no_slot(user, other),
    ensures
        user.add_item(vault, mint) matches Ok((record, ledger)) ==> other.attached_to(ledger)
            && share_no_slot(record, other),
{
    if let Ok((record, ledger)) = user.add_item(vault, mint) {
        let slots = vault.total_balance_items;
        let index = first_empty(slots) as int;
        lemma_first_empty(slots);
        assert forall|j: int| 0 <= j < other.staked_items.len() implies {
            &&& (#[trigger] other.staked_items[j]).index != index
            &&& ledger.occupied(other.staked_items[j].index as int)
            &&& slots[other.staked_items[j].index as int]
                == ledger.total_balance_items[other.staked_items[j].index as int]
        } by {
            assert(vault.occupied(other.staked_items[j].index as int));
        }
        lemma_refs_depend_on_referred(other.staked_items, slots, ledger.total_balance_items);
        assert forall|i: int, j: int|
            0 <= i < record.staked_items.len() && 0 <= j < other.staked_items.len() implies (
        #[trigger] record.staked_items[i]).index != (#[trigger] other.staked_items[j]).index by {
            if i < user.staked_items.len() {
                assert(record.staked_items[i] == user.staked_items[i]);
            }
        }
    }
}

/// When one participant takes an item back, the record of another still
/// belongs to the vault, and the two records still refer to no balance item
/// in common.
pub proof fn law_remove_keeps_other_records(
    user: UserView,
    other: UserView,
    vault: VaultView,
    mint: Pubkey,
)
    requires
        user.attached_to(vault),
        other.attached_to(vault),
        share_no_slot(user, other),
    ensures
        user.remove_item(vault, mint) matches Ok((record, ledger)) ==> other.attached_to(ledger)
            && share_no_slot(record, other),
{
    if let Ok((record, ledger)) = user.remove_item(vault, mint) {
        let slots = vault.total_balance_items;
        lemma_position_of(user.staked_items, mint);
        let position = position_of(user.staked_items, mint) as int;
        let index = user.staked_items[position].index as int;
        assert(vault.occupied(user.staked_items[position].index as int));
        assert forall|j: int| 0 <= j < other.staked_items.len() implies {
            &&& (#[trigger] other.staked_items[j]).index != index
            &&& ledger.occupied(other.staked_items[j].index as int)
            &&& slots[other.staked_items[j].index as int]
                == ledger.total_balance_items[other.staked_items[j].index as int]
        } by {
            assert(user.staked_items[position].index != other.staked_items[j].index);
            assert(vault.occupied(other.staked_items[j].index as int));
        }
        lemma_refs_depend_on_referred(other.staked_items, slots, ledger.total_balance_items);
        assert forall|i: int, j: int|
            0 <= i < record.staked_items.len() && 0 <= j < other.staked_items.len() implies (
        #[trigger] record.staked_items[i]).index != (#[trigger] other.staked_items[j]).index by {
            let a = if i < position {
                i
            } else {
                i + 1
            };
            assert(record.staked_items[i] == user.staked_items[a]);
        }
    }
}

/// A claim changes no state, so every record that belongs to the vault
/// still belongs to it after the claim of any participant.
pub proof fn law_claim_keeps_records(user: UserView, other: UserView, vault: VaultView)
    requires
        other.attached_to(vault),
    ensures
        user.claim(vault) matches Ok((ledger, total)) ==> other.attached_to(ledger),
{
    if let Ok((ledger, total)) = user.claim(vault) {
        let items = other.staked_items;
        assert forall|j: int| 0 <= j < items.len() implies {
            &&& ledger.occupied((#[trigger] items[j]).index as int)
            &&& vault.total_balance_items[items[j].index as int].state
                == SlotState::Eligible ==> ledger.total_balance_items[items[j].index as int].state
                == SlotState::Eligible
        } by {
            assert(vault.occupied(items[j].index as int));
        }
        lemma_eligible_refs_grow(items, vault.total_balance_items, ledger.total_balance_items);
    }
}

/// Bringing the payout rounds up to date keeps every record that belongs to
/// the vault.
pub proof fn law_payout_keeps_records(other: UserView, vault: VaultView, now: nat)
    requires
        other.attached_to(vault),
    ensures
        vault.update_payout_round(now) matches Ok(current) ==> other.attached_to(current),
{
    lemma_payout_keeps_attached(
        other,
        vault,
        vault.elapsed_rounds(now),
        vault.round_earnings(now),
    );
}

/// Staking keeps the records of the other participants: a record that
/// belongs to the vault and shares no balance item with the record that
/// stakes still does so afterwards.
pub proof fn law_stake_keeps_other_records(
    user: UserView,
    other: UserView,
    vault: VaultView,
    mint: Pubkey,
    now: nat,
)
    requires
        vault.wf(),
        other.attached_to(vault),
        share_no_slot(user, other),
    ensures
        stake(user, vault, mint, now) matches Ok((record, ledger)) ==> other.attached_to(ledger)
            && share_no_slot(record, other),
{
    if let Ok(charged) = vault.charge_fee(vault.stake_fee) {
        assert(other.attached_to(charged));
        lemma_payout_keeps_wf(charged, now);
        law_payout_keeps_records(other, charged, now);
        if let Ok(current) = charged.update_payout_round(now) {
            law_add_keeps_other_records(user, other, current, mint);
        }
    }
}

/// Taking an item back keeps the records of the other participants: a
/// record that belongs to the vault and shares no balance item with the
/// record that unstakes still does so afterwards.
pub proof fn law_unstake_keeps_other_records(
    user: UserView,
    other: UserView,
    vault: VaultView,
    mint: Pubkey,
    now: nat,
    signer: Pubkey,
)
    requires
        user.attached_to(vault),
        other.attached_to(vault),
        share_no_slot(user, other),
    ensures
        unstake(user, vault, mint, now, signer) matches Ok((record, ledger))
            ==> other.attached_to(ledger) && share_no_slot(record, other),
{
    if let Ok(charged) = vault.charge_fee(vault.unstake_fee) {
        assert(other.attached_to(charged));
        assert(user.attached_to(charged));
        law_payout_keeps_records(other, charged, now);
        law_payout_keeps_records(user, charged, now);
        if let Ok(current) = charged.update_payout_round(now) {
            law_remove_keeps_other_records(user, other, current, mint);
        }
    }
}

/// Claiming keeps every record that belongs to the vault, that of the
/// participant who claims and those of the others.
pub proof fn law_claim_rewards_keeps_records(
    user: UserView,
    other: UserView,
    vault: VaultView,
    now: nat,
)
    requires
        other.attached_to(vault),
    ensures
        claim_rewards(user, vault, now) matches Ok((ledger, total)) ==> other.attached_to(ledger),
{
    law_payout_keeps_records(other, vault, now);
    if let Ok(current) = vault.update_payout_round(now) {
        law_claim_keeps_records(user, other, current);
        if let Ok((cleared, total)) = user.claim(current) {
            assert(other.attached_to(cleared));
        }
    }
}

/// The vault after the balance has been taken out of the balance item of
/// each staked item in turn, and the sum of what was taken.
pub open spec fn claim_each(items: Seq<StakedNft>, vault: VaultView) -> (VaultView, nat)
    decreases items.len(),
{
    if items.len() == 0 {
        (vault, 0)
    } else {
        let (cleared, total) = claim_each(items.drop_last(), vault);
        let (next, balance) = cleared.claim_balance_item(items.last().index as int);
        (next, total + balance)
    }
}

/// The claim of a record is the claim of each of its staked items in turn:
/// where no two staked items refer to one balance item, taking the balances
/// out one after the other leaves the vault, and gives the sum, that the
/// claim of the record states.
pub proof fn law_claim_is_claim_of_each(items: Seq<StakedNft>, vault: VaultView)
    requires
        forall|i: int|
            0 <= i < items.len() ==> (#[trigger] items[i]).index < vault.total_balance_items.len(),
        forall|i: int, j: int|
            0 <= i < j < items.len() ==> (#[trigger] items[i]).index != (#[trigger] items[j]).index,
    ensures
        claim_each(items, vault) == (
            VaultView {
                total_balance_items: clear_claimed(items, vault.total_balance_items),
                ..vault
            },
            claimable(items, vault.total_balance_items),
        ),
    decreases items.len(),
{
    let slots = vault.total_balance_items;
    if items.len() == 0 {
        assert(clear_claimed(items, slots) =~= slots);
    } else {
        let front = items.drop_last();
        let last = items.len() - 1;
        assert forall|i: int| 0 <= i < front.len() implies (#[trigger] front[i]).index
            < slots.len() by {
            assert(front[i] == items[i]);
        }
        assert forall|i: int, j: int| 0 <= i < j < front.len() implies (#[trigger] front[i]).index
            != (#[trigger] front[j]).index by {
            assert(front[i] == items[i]);
            assert(front[j] == items[j]);
        }
        law_claim_is_claim_of_each(front, vault);
        assert(items.take(last) =~= front);
        assert(items.take(last + 1) =~= items);
        lemma_clear_claimed_step(items, slots, last);
        if refers_to(front, items[last].index as int) {
            let k = choose|k: int|
                0 <= k < front.len() && (#[trigger] front[k]).index == items[last].index as int;
            assert(front[k] == items[k]);
        }
    }
}

} // verus!
