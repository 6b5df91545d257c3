use vstd::prelude::*;
use crate::counting::lemma_count_zero_iff_absent;
use crate::errors::CustomError;
use crate::model::{BalanceItemView, SlotState, VaultView};
use crate::pubkey::Pubkey;
use crate::state::{BalanceItem, Vault};

verus! {

/// Sets up a vault under `authority`: stores the configuration, and fills
/// the table with `capacity` empty balance items. Every counter starts at
/// zero and no payout schedule runs.
pub fn handle_vault_initialization(
    authority: Pubkey,
    creator_address: Pubkey,
    payout_interval: u64,
    payout_amount: u64,
    stake_fee: u64,
    unstake_fee: u64,
    bump: u8,
    capacity: u32,
) -> (vault: Vault)
    ensures
        vault.wf(),
        vault@ == VaultView::initial(
            authority,
            creator_address,
            payout_interval as nat,
            payout_amount as nat,
            stake_fee as nat,
            unstake_fee as nat,
            bump,
            capacity as nat,
        ),
{
    let mut total_balance_items: Vec<BalanceItem> = Vec::new();
    let mut i: u32 = 0;
    while i < capacity
        invariant
            i <= capacity,
            total_balance_items@.len() == i,
            forall|j: int|
                0 <= j < i ==> (#[trigger] total_balance_items@[j])@ == (BalanceItemView {
                    balance: 0,
                    state: SlotState::Empty,
                }),
        decreases capacity - i,
    {
        total_balance_items.push(BalanceItem::default());
        i += 1;
    }
    let vault = Vault {
        authority,
        creator_address,
        total_earned: 0,
        payout_schedule_started_time: 0,
        payout_round: 0,
        payout_interval,
        payout_amount,
        total_staked_count: 0,
        total_eligible_count: 0,
        total_amount: 0,
        stake_fee,
        unstake_fee,
        total_items_count: 0,
        bump,
        total_balance_items,
    };
    proof {
        let slots = vault@.total_balance_items;
        assert(slots =~= Seq::new(
            capacity as nat,
            |j: int| BalanceItemView { balance: 0, state: SlotState::Empty },
        ));
        lemma_count_zero_iff_absent(slots, SlotState::Staked);
        lemma_count_zero_iff_absent(slots, SlotState::Eligible);
    }
    vault
}

/// Replaces the authority and the configuration of the vault. Only the
/// authority may do so; the payout schedule, the counters and the balance
/// items are not touched.
pub fn handle_vault_update(
    vault: &mut Vault,
    caller: Pubkey,
    new_authority: Pubkey,
    creator_address: Pubkey,
    payout_interval: u64,
    payout_amount: u64,
    stake_fee: u64,
    unstake_fee: u64,
) -> (r: Result<(), CustomError>)
    ensures
        old(vault).wf() ==> final(vault).wf(),
        match old(vault)@.update_config(
            caller,
            new_authority,
            creator_address,
            payout_interval as nat,
            payout_amount as nat,
            stake_fee as nat,
            unstake_fee as nat,
        ) {
            Ok(ledger) => r == Ok::<(), CustomError>(()) && final(vault)@ == ledger,
            Err(e) => r == Err::<(), CustomError>(e) && final(vault)@ == old(vault)@,
        },
{
    if !(caller == vault.authority) {
        return Err(CustomError::Unauthorized);
    }
    vault.authority = new_authority;
    vault.creator_address = creator_address;
    vault.payout_interval = payout_interval;
    vault.payout_amount = payout_amount;
    vault.stake_fee = stake_fee;
    vault.unstake_fee = unstake_fee;
    Ok(())
}

/// Adds `amount` to the funded pool. A pool beyond the machine range of an
/// amount is a fault.
pub fn handle_fund(vault: &mut Vault, amount: u64) -> (r: Result<(), CustomError>)
    ensures
        old(vault).wf() ==> final(vault).wf(),
        match old(vault)@.fund(amount as nat) {
            Ok(ledger) => r == Ok::<(), CustomError>(()) && final(vault)@ == ledger,
            Err(e) => r == Err::<(), CustomError>(e) && final(vault)@ == old(vault)@,
        },
{
    match vault.total_amount.checked_add(amount) {
        Some(total) => {
            vault.total_amount = total;
            Ok(())
        },
        None => Err(CustomError::ArithmeticFault),
    }
}

/// Takes `amount` out of the funded pool. Only the authority may do so, and
/// no more than the pool holds.
pub fn handle_drain(vault: &mut Vault, caller: Pubkey, amount: u64) -> (r: Result<
    (),
    CustomError,
>)
    ensures
        old(vault).wf() ==> final(vault).wf(),
        match old(vault)@.drain(caller, amount as nat) {
            Ok(ledger) => r == Ok::<(), CustomError>(()) && final(vault)@ == ledger,
            Err(e) => r == Err::<(), CustomError>(e) && final(vault)@ == old(vault)@,
        },
{
    if !(caller == vault.authority) {
        return Err(CustomError::Unauthorized);
    }
    if amount > vault.total_amount {
        return Err(CustomError::InsufficientFunds);
    }
    vault.total_amount = vault.total_amount - amount;
    Ok(())
}

/// Starts the payout schedule at `now` with round 1; a schedule that runs
/// already starts anew. Only the authority may do so.
pub fn handle_start_payout_schedule(vault: &mut Vault, caller: Pubkey, now: u64) -> (r: Result<
    (),
    CustomError,
>)
    ensures
        old(vault).wf() ==> final(vault).wf(),
        match old(vault)@.authorized_start(caller, now as nat) {
            Ok(ledger) => r == Ok::<(), CustomError>(()) && final(vault)@ == ledger,
            Err(e) => r == Err::<(), CustomError>(e) && final(vault)@ == old(vault)@,
        },
{
    if !(caller == vault.authority) {
        return Err(CustomError::Unauthorized);
    }
    vault.start_payout_schedule(now);
    Ok(())
}

} // verus!
