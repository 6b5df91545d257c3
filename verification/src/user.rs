use vstd::prelude::*;
use crate::errors::CustomError;
use crate::model::VaultView;
use crate::pubkey::Pubkey;
use crate::record::{lemma_payout_keeps_attached, UserView};
use crate::state::{Payout, StakedNft, User, Vault};

verus! {

/// Claiming at `now`: the payout rounds are brought up to `now`, the
/// balances that the record refers to are taken out, and their sum leaves
/// the funded pool, which must hold that much. The result holds the vault
/// after the operation and the sum paid out.
pub open spec fn claim_rewards(user: UserView, vault: VaultView, now: nat) -> Result<
    (VaultView, nat),
    CustomError,
> {
    match vault.update_payout_round(now) {
        Err(e) => Err(e),
        Ok(current) => match user.claim(current) {
            Err(e) => Err(e),
            Ok((cleared, total)) => if total > cleared.total_amount {
                Err(CustomError::InsufficientFunds)
            } else {
                Ok(
                    (
                        VaultView {
                            total_amount: (cleared.total_amount - total) as nat,
                            ..cleared
                        },
                        total,
                    ),
                )
            },
        },
    }
}

/// A staking record for `key` with nothing staked.
pub fn handle_create_stake_account(key: Pubkey, bump: u8) -> (user: User)
    ensures
        user.wf(),
        user@ == UserView::created(key, bump),
        forall|vault: VaultView| user@.attached_to(vault),
{
    let staked_items: Vec<StakedNft> = Vec::new();
    User { key, eligible_count: 0, mint_staked_count: 0, bump, staked_items }
}

/// Claims the rewards of `user` at `now`, and returns the amount that the
/// vault owes the owner of the record. The payout rounds are brought up to
/// `now`, the balances that the record refers to are taken out, and their
/// sum leaves the funded pool. A pool that holds less is refused. A refused
/// operation changes neither the vault nor the record.
pub fn handle_claim_rewards(vault: &mut Vault, user: &mut User, now: u64) -> (r: Result<
    u64,
    CustomError,
>)
    requires
        old(vault).wf(),
        old(user).wf(),
        old(user)@.attached_to(old(vault)@),
    ensures
        final(vault).wf(),
        final(user)@ == old(user)@,
        final(user)@.attached_to(final(vault)@),
        match claim_rewards(old(user)@, old(vault)@, now as nat) {
            Ok((ledger, total)) => {
                &&& r == Ok::<u64, CustomError>(total as u64)
                &&& final(vault)@ == ledger
            },
            Err(e) => r == Err::<u64, CustomError>(e) && final(vault)@ == old(vault)@,
        },
{
    let payout: Option<Payout> = match vault.plan_payout(now) {
        Ok(payout) => payout,
        Err(e) => {
            return Err(e);
        },
    };
    proof {
        assert forall|i: int| 0 <= i < user@.staked_items.len() implies (
        #[trigger] user@.staked_items[i]).index < vault@.total_balance_items.len() by {
            assert(vault@.occupied(user@.staked_items[i].index as int));
        }
        if let Some(p) = payout {
            lemma_payout_keeps_attached(user@, vault@, p.round as nat, p.earned as nat);
        }
    }
    let total: u64 = match user.claimable_after(vault, payout) {
        Ok(total) => total,
        Err(e) => {
            return Err(e);
        },
    };
    if total > vault.total_amount {
        return Err(CustomError::InsufficientFunds);
    }
    if let Some(p) = payout {
        vault.apply_payout(p);
    }
    match user.claim(vault) {
        Ok(claimed) => {
            vault.total_amount = vault.total_amount - claimed;
            Ok(claimed)
        },
        Err(e) => Err(e),
    }
}

} // verus!
