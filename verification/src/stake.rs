use vstd::prelude::*;
use crate::constants::MAX_NFT_PER_USER;
use crate::counting::lemma_promote_first_empty;
use crate::errors::CustomError;
use crate::model::{SlotState, VaultView};
use crate::pubkey::Pubkey;
use crate::record::{lemma_payout_keeps_attached, lemma_position_of, UserView};
use crate::state::{Payout, User, Vault};

verus! {

/// Staking `mint` at `now`: the stake fee is credited to the fees earned,
/// the payout rounds are brought up to `now`, and only then does the item
/// take a balance item, so that it has no part in the payout just made. The
/// result holds the record and the vault after the operation.
pub open spec fn stake(user: UserView, vault: VaultView, mint: Pubkey, now: nat) -> Result<
    (UserView, VaultView),
    CustomError,
> {
    match vault.charge_fee(vault.stake_fee) {
        Err(e) => Err(e),
        Ok(charged) => match charged.update_payout_round(now) {
            Err(e) => Err(e),
            Ok(current) => user.add_item(current, mint),
        },
    }
}

/// Whether `signer` may take back the items of the record of `user`: the
/// owner of the record may, and so may the authority of the vault.
pub open spec fn may_unstake(user: UserView, vault: VaultView, signer: Pubkey) -> bool {
    signer == user.key || signer == vault.authority
}

/// Taking `mint` back at `now` on behalf of `signer`: the unstake fee is
/// credited to the fees earned, the payout rounds are brought up to `now`,
/// and then the item gives up its balance item. The result holds the record
/// and the vault after the operation.
pub open spec fn unstake(
    user: UserView,
    vault: VaultView,
    mint: Pubkey,
    now: nat,
    signer: Pubkey,
) -> Result<(UserView, VaultView), CustomError> {
    if !may_unstake(user, vault, signer) {
        Err(CustomError::Unauthorized)
    } else {
        match vault.charge_fee(vault.unstake_fee) {
            Err(e) => Err(e),
            Ok(charged) => match charged.update_payout_round(now) {
                Err(e) => Err(e),
                Ok(current) => user.remove_item(current, mint),
            },
        }
    }
}

/// Whether `creator_address` is among `creators`.
pub fn is_listed_creator(creators: &Vec<Pubkey>, creator_address: Pubkey) -> (found: bool)
    ensures
        found == exists|i: int| 0 <= i < creators@.len() && creators@[i] == creator_address,
{
    let n: usize = creators.len();
    let mut i: usize = 0;
    while i < n
        invariant
            i <= n,
            n == creators@.len(),
            forall|j: int| 0 <= j < i ==> creators@[j] != creator_address,
        decreases n - i,
    {
        if creators[i] == creator_address {
            return true;
        }
        i += 1;
    }
    false
}

/// Stakes `mint` for the owner of `user` at `now`, and returns the stake fee
/// that the owner owes the vault. The fee is credited, the payout rounds are
/// brought up to `now`, and the item takes the first empty balance item. A
/// refused operation changes neither the vault nor the record.
pub fn handle_stake(vault: &mut Vault, user: &mut User, mint: Pubkey, now: u64) -> (r: Result<
    u64,
    CustomError,
>)
    requires
        old(vault).wf(),
        old(user).wf(),
        old(user)@.attached_to(old(vault)@),
    ensures
        final(vault).wf(),
        final(user).wf(),
        final(user)@.attached_to(final(vault)@),
        match stake(old(user)@, old(vault)@, mint, now as nat) {
            Ok((record, ledger)) => {
                &&& r == Ok::<u64, CustomError>(old(vault).stake_fee)
                &&& final(user)@ == record
                &&& final(vault)@ == ledger
            },
            Err(e) => {
                &&& r == Err::<u64, CustomError>(e)
                &&& final(user)@ == old(user)@
                &&& final(vault)@ == old(vault)@
            },
        },
{
    let fee: u64 = vault.stake_fee;
    let total_earned: u64 = match vault.total_earned.checked_add(fee) {
        Some(total) => total,
        None => {
            return Err(CustomError::ArithmeticFault);
        },
    };
    let payout: Option<Payout> = match vault.plan_payout(now) {
        Ok(payout) => payout,
        Err(e) => {
            return Err(e);
        },
    };
    proof {
        lemma_position_of(user@.staked_items, mint);
        if let Some(p) = payout {
            lemma_promote_first_empty(vault@.total_balance_items, p.earned as nat);
            lemma_payout_keeps_attached(user@, vault@, p.round as nat, p.earned as nat);
        }
    }
    if user.position(mint) < user.staked_items.len() {
        return Err(CustomError::AlreadyStaked);
    }
    if user.staked_items.len() >= MAX_NFT_PER_USER {
        return Err(CustomError::MaxStaked);
    }
    if vault.first_empty_index() >= vault.total_balance_items.len() {
        return Err(CustomError::VaultFull);
    }
    vault.total_earned = total_earned;
    if let Some(p) = payout {
        vault.apply_payout(p);
    }
    match user.add_item(vault, mint) {
        Ok(()) => Ok(fee),
        Err(e) => Err(e),
    }
}

/// Takes `mint` back for the owner of `user` at `now`, on behalf of
/// `signer`, and returns the unstake fee that the owner owes the vault. The
/// owner may take back their own items, and the authority of the vault
/// anybody's. The fee is credited, the payout rounds are brought up to
/// `now`, and the item gives up its balance item. A refused operation changes
/// neither the vault nor the record.
pub fn handle_unstake(
    vault: &mut Vault,
    user: &mut User,
    mint: Pubkey,
    now: u64,
    signer: Pubkey,
) -> (r: Result<u64, CustomError>)
    requires
        old(vault).wf(),
        old(user).wf(),
        old(user)@.attached_to(old(vault)@),
    ensures
        final(vault).wf(),
        final(user).wf(),
        final(user)@.attached_to(final(vault)@),
        match unstake(old(user)@, old(vault)@, mint, now as nat, signer) {
            Ok((record, ledger)) => {
                &&& r == Ok::<u64, CustomError>(old(vault).unstake_fee)
                &&& final(user)@ == record
                &&& final(vault)@ == ledger
            },
            Err(e) => {
                &&& r == Err::<u64, CustomError>(e)
                &&& final(user)@ == old(user)@
                &&& final(vault)@ == old(vault)@
            },
        },
{
    if !(signer == user.key) && !(signer == vault.authority) {
        return Err(CustomError::Unauthorized);
    }
    let fee: u64 = vault.unstake_fee;
    let total_earned: u64 = match vault.total_earned.checked_add(fee) {
        Some(total) => total,
        None => {
            return Err(CustomError::ArithmeticFault);
        },
    };
    let payout: Option<Payout> = match vault.plan_payout(now) {
        Ok(payout) => payout,
        Err(e) => {
            return Err(e);
        },
    };
    proof {
        lemma_position_of(user@.staked_items, mint);
        if let Some(p) = payout {
            lemma_payout_keeps_attached(user@, vault@, p.round as nat, p.earned as nat);
        }
    }
    let position: usize = user.position(mint);
    if position >= user.staked_items.len() {
        return Err(CustomError::NotFound);
    }
    let index: usize = user.staked_items[position].index;
    assert(vault@.occupied(user@.staked_items[position as int].index as int));
    let eligible: bool = payout.is_some() || vault.total_balance_items[index].state
        == SlotState::Eligible;
    if eligible && user.eligible_count == 0 {
        return Err(CustomError::ArithmeticFault);
    }
    vault.total_earned = total_earned;
    if let Some(p) = payout {
        vault.apply_payout(p);
    }
    match user.remove_item(vault, mint) {
        Ok(()) => Ok(fee),
        Err(e) => Err(e),
    }
}

} // verus!
