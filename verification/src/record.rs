use vstd::prelude::*;
use crate::constants::MAX_NFT_PER_USER;
use crate::errors::CustomError;
use crate::model::{promote_staked, BalanceItemView, SlotState, VaultView};
use crate::pubkey::Pubkey;
use crate::state::{Payout, StakedNft};

verus! {

/// The staking record of one participant as a mathematical value.
pub struct UserView {
    pub key: Pubkey,
    pub eligible_count: nat,
    pub mint_staked_count: nat,
    pub bump: u8,
    pub staked_items: Seq<StakedNft>,
}

/// Whether `mint` is among the staked items.
pub open spec fn holds_mint(items: Seq<StakedNft>, mint: Pubkey) -> bool {
    exists|i: int| 0 <= i < items.len() && (#[trigger] items[i]).mint == mint
}

/// The position of the first staked item with `mint`, or `items.len()` when
/// there is none.
pub open spec fn position_of(items: Seq<StakedNft>, mint: Pubkey) -> nat
    decreases items.len(),
{
    if items.len() == 0 {
        0
    } else if items.first().mint == mint {
        0
    } else {
        1 + position_of(items.drop_first(), mint)
    }
}

/// Whether some staked item refers to the balance item at `index`.
pub open spec fn refers_to(items: Seq<StakedNft>, index: int) -> bool {
    exists|i: int| 0 <= i < items.len() && (#[trigger] items[i]).index == index
}

/// How many of the staked items refer to an `Eligible` balance item.
pub open spec fn eligible_refs(items: Seq<StakedNft>, slots: Seq<BalanceItemView>) -> nat
    decreases items.len(),
{
    if items.len() == 0 {
        0
    } else {
        eligible_refs(items.drop_last(), slots) + if slots[items.last().index as int].state
            == SlotState::Eligible {
            1nat
        } else {
            0nat
        }
    }
}

/// The sum of the balances that the staked items refer to.
pub open spec fn claimable(items: Seq<StakedNft>, slots: Seq<BalanceItemView>) -> nat
    decreases items.len(),
{
    if items.len() == 0 {
        0
    } else {
        claimable(items.drop_last(), slots) + slots[items.last().index as int].balance
    }
}

/// The table once `payout` is made, if there is one.
pub open spec fn table_after(slots: Seq<BalanceItemView>, payout: Option<Payout>) -> Seq<
    BalanceItemView,
> {
    match payout {
        Some(payout) => promote_staked(slots, payout.earned as nat),
        None => slots,
    }
}

/// The table after a claim: the balance items that the staked items refer to
/// are left without a balance; the others are untouched.
pub open spec fn clear_claimed(items: Seq<StakedNft>, slots: Seq<BalanceItemView>) -> Seq<
    BalanceItemView,
> {
    Seq::new(
        slots.len(),
        |j: int|
            if refers_to(items, j) {
                BalanceItemView { balance: 0, ..slots[j] }
            } else {
                slots[j]
            },
    )
}

impl UserView {
    /// The record counts its own staked items, holds no more of them than a
    /// participant may, and holds no item twice.
    pub open spec fn wf(self) -> bool {
        &&& self.mint_staked_count == self.staked_items.len()
        &&& self.staked_items.len() <= MAX_NFT_PER_USER
        &&& self.eligible_count <= self.mint_staked_count
        &&& forall|i: int, j: int|
            0 <= i < j < self.staked_items.len() ==> (#[trigger] self.staked_items[i]).mint != (
            #[trigger] self.staked_items[j]).mint
    }

    /// The record belongs to `vault`: each staked item refers to an occupied
    /// balance item of its own, and the record counts no more eligible items
    /// than it refers to.
    pub open spec fn attached_to(self, vault: VaultView) -> bool {
        &&& forall|i: int|
            0 <= i < self.staked_items.len() ==> vault.occupied(
                (#[trigger] self.staked_items[i]).index as int,
            )
        &&& forall|i: int, j: int|
            0 <= i < j < self.staked_items.len() ==> (#[trigger] self.staked_items[i]).index != (
            #[trigger] self.staked_items[j]).index
        &&& self.eligible_count <= eligible_refs(self.staked_items, vault.total_balance_items)
    }

    /// A record for `key` with nothing staked.
    pub open spec fn created(key: Pubkey, bump: u8) -> UserView {
        UserView {
            key,
            eligible_count: 0,
            mint_staked_count: 0,
            bump,
            staked_items: Seq::empty(),
        }
    }

    /// The participant stakes `mint`: the vault occupies its first empty
    /// balance item, and the record gains a reference to it. The result holds
    /// the record and the vault after the operation.
    pub open spec fn add_item(self, vault: VaultView, mint: Pubkey) -> Result<
        (UserView, VaultView),
        CustomError,
    > {
        if holds_mint(self.staked_items, mint) {
            Err(CustomError::AlreadyStaked)
        } else if self.mint_staked_count >= MAX_NFT_PER_USER {
            Err(CustomError::MaxStaked)
        } else {
            match vault.add_balance_item() {
                Err(e) => Err(e),
                Ok((ledger, index)) => Ok(
                    (
                        UserView {
                            eligible_count: if ledger.total_balance_items[index as int].state
                                == SlotState::Eligible {
                                self.eligible_count + 1
                            } else {
                                self.eligible_count
                            },
                            mint_staked_count: self.mint_staked_count + 1,
                            staked_items: self.staked_items.push(
                                StakedNft { index: index as usize, mint },
                            ),
                            ..self
                        },
                        ledger,
                    ),
                ),
            }
        }
    }

    /// The participant takes `mint` back: the vault empties the balance item
    /// that the record refers to for it, and the record drops the reference.
    /// The record counts one eligible item less when that balance item was
    /// `Eligible`, which is a fault when it counts none. The result holds the
    /// record and the vault after the operation.
    pub open spec fn remove_item(self, vault: VaultView, mint: Pubkey) -> Result<
        (UserView, VaultView),
        CustomError,
    > {
        let position = position_of(self.staked_items, mint) as int;
        let index = self.staked_items[position].index as int;
        if !holds_mint(self.staked_items, mint) {
            Err(CustomError::NotFound)
        } else if vault.total_balance_items[index].state == SlotState::Eligible {
            if self.eligible_count == 0 {
                Err(CustomError::ArithmeticFault)
            } else {
                Ok(
                    (
                        UserView {
                            eligible_count: (self.eligible_count - 1) as nat,
                            mint_staked_count: (self.mint_staked_count - 1) as nat,
                            staked_items: self.staked_items.remove(position),
                            ..self
                        },
                        vault.remove_balance_item(index),
                    ),
                )
            }
        } else {
            Ok(
                (
                    UserView {
                        mint_staked_count: (self.mint_staked_count - 1) as nat,
                        staked_items: self.staked_items.remove(position),
                        ..self
                    },
                    vault.remove_balance_item(index),
                ),
            )
        }
    }

    /// The participant claims: the balances that the record refers to are
    /// taken out of the vault. The result holds the vault after the operation
    /// and the sum taken out, which must not leave the machine range of an
    /// amount.
    pub open spec fn claim(self, vault: VaultView) -> Result<(VaultView, nat), CustomError> {
        let total = claimable(self.staked_items, vault.total_balance_items);
        if total > u64::MAX {
            Err(CustomError::ArithmeticFault)
        } else {
            Ok(
                (
                    VaultView {
                        total_balance_items: clear_claimed(
                            self.staked_items,
                            vault.total_balance_items,
                        ),
                        ..vault
                    },
                    total,
                ),
            )
        }
    }
}

/// What `position_of` finds: a staked item with `mint` and none before it,
/// or nothing at all.
pub proof fn lemma_position_of(items: Seq<StakedNft>, mint: Pubkey)
    ensures
        position_of(items, mint) <= items.len(),
        position_of(items, mint) < items.len() ==> items[position_of(items, mint) as int].mint
            == mint,
        forall|j: int| 0 <= j < position_of(items, mint) ==> (#[trigger] items[j]).mint != mint,
        holds_mint(items, mint) <==> position_of(items, mint) < items.len(),
    decreases items.len(),
{
    if items.len() > 0 && items.first().mint != mint {
        let rest = items.drop_first();
        lemma_position_of(rest, mint);
        assert forall|j: int| 0 <= j < position_of(items, mint) implies (#[trigger] items[j]).mint
            != mint by {
            if j > 0 {
                assert(rest[j - 1] == items[j]);
            }
        }
    }
    let p = position_of(items, mint) as int;
    if p < items.len() {
        assert(items[p].mint == mint);
    } else if holds_mint(items, mint) {
        let i = choose|i: int| 0 <= i < items.len() && (#[trigger] items[i]).mint == mint;
        assert(items[i].mint != mint);
    }
}

/// A position with no item of `mint` before it, which holds `mint` itself or
/// is the end of the list, is the one `position_of` names.
pub proof fn lemma_position_unique(items: Seq<StakedNft>, mint: Pubkey, i: int)
    requires
        0 <= i <= items.len(),
        forall|j: int| 0 <= j < i ==> (#[trigger] items[j]).mint != mint,
        i < items.len() ==> items[i].mint == mint,
    ensures
        position_of(items, mint) == i,
{
    lemma_position_of(items, mint);
    let p = position_of(items, mint) as int;
    if p < i {
        assert(items[p].mint != mint);
    } else if i < p {
        assert(items[i].mint != mint);
    }
}

/// No more staked items refer to an eligible balance item than there are
/// staked items.
pub proof fn lemma_eligible_refs_bounded(items: Seq<StakedNft>, slots: Seq<BalanceItemView>)
    ensures
        eligible_refs(items, slots) <= items.len(),
    decreases items.len(),
{
    if items.len() > 0 {
        lemma_eligible_refs_bounded(items.drop_last(), slots);
    }
}

/// Two tables that agree wherever the staked items refer to are referred to
/// by as many eligible items, and hold the same claimable sum.
pub proof fn lemma_refs_depend_on_referred(
    items: Seq<StakedNft>,
    slots: Seq<BalanceItemView>,
    other: Seq<BalanceItemView>,
)
    requires
        forall|i: int|
            0 <= i < items.len() ==> slots[(#[trigger] items[i]).index as int] == other[items[i].index as int],
    ensures
        eligible_refs(items, slots) == eligible_refs(items, other),
        claimable(items, slots) == claimable(items, other),
    decreases items.len(),
{
    if items.len() > 0 {
        let front = items.drop_last();
        assert forall|i: int| 0 <= i < front.len() implies slots[(#[trigger] front[i]).index as int]
            == other[front[i].index as int] by {
            assert(front[i] == items[i]);
        }
        lemma_refs_depend_on_referred(front, slots, other);
        assert(items.last() == items[items.len() - 1]);
    }
}

/// Dropping one staked item takes it, and nothing else, out of the count of
/// eligible references.
pub proof fn lemma_eligible_refs_remove(
    items: Seq<StakedNft>,
    slots: Seq<BalanceItemView>,
    position: int,
)
    requires
        0 <= position < items.len(),
    ensures
        eligible_refs(items, slots) == eligible_refs(items.remove(position), slots) + (if slots[items[position].index as int].state
            == SlotState::Eligible {
            1nat
        } else {
            0nat
        }),
    decreases items.len(),
{
    if position == items.len() - 1 {
        assert(items.remove(position) =~= items.drop_last());
    } else {
        assert(items.remove(position).drop_last() =~= items.drop_last().remove(position));
        assert(items.remove(position).last() == items.last());
        lemma_eligible_refs_remove(items.drop_last(), slots, position);
    }
}

/// A payout leaves every occupied balance item `Eligible`, so it can only
/// add to the eligible references of a record.
pub proof fn lemma_eligible_refs_grow(
    items: Seq<StakedNft>,
    slots: Seq<BalanceItemView>,
    other: Seq<BalanceItemView>,
)
    requires
        forall|i: int|
            0 <= i < items.len() && slots[(#[trigger] items[i]).index as int].state
                == SlotState::Eligible ==> other[items[i].index as int].state
                == SlotState::Eligible,
    ensures
        eligible_refs(items, slots) <= eligible_refs(items, other),
    decreases items.len(),
{
    if items.len() > 0 {
        let front = items.drop_last();
        assert forall|i: int|
            0 <= i < front.len() && slots[(#[trigger] front[i]).index as int].state
                == SlotState::Eligible implies other[front[i].index as int].state
            == SlotState::Eligible by {
            assert(front[i] == items[i]);
        }
        lemma_eligible_refs_grow(front, slots, other);
        assert(items.last() == items[items.len() - 1]);
    }
}

/// Taking one more staked item into a prefix adds the balance it refers to
/// to the claimable sum.
pub proof fn lemma_claimable_prefix_step(
    items: Seq<StakedNft>,
    slots: Seq<BalanceItemView>,
    i: int,
)
    requires
        0 <= i < items.len(),
    ensures
        claimable(items.take(i + 1), slots) == claimable(items.take(i), slots) + slots[items[i].index as int].balance,
{
    assert(items.take(i + 1).drop_last() =~= items.take(i));
}

/// A prefix of the staked items claims no more than all of them.
pub proof fn lemma_claimable_prefix_bounded(
    items: Seq<StakedNft>,
    slots: Seq<BalanceItemView>,
    i: int,
)
    requires
        0 <= i <= items.len(),
    ensures
        claimable(items.take(i), slots) <= claimable(items, slots),
    decreases items.len() - i,
{
    if i == items.len() {
        assert(items.take(i) =~= items);
    } else {
        lemma_claimable_prefix_step(items, slots, i);
        lemma_claimable_prefix_bounded(items, slots, i + 1);
    }
}

/// Clearing the balances that a prefix refers to, and then the balance that
/// the next staked item refers to, clears what the longer prefix refers to.
pub proof fn lemma_clear_claimed_step(items: Seq<StakedNft>, slots: Seq<BalanceItemView>, i: int)
    requires
        0 <= i < items.len(),
        0 <= items[i].index < slots.len(),
    ensures
        clear_claimed(items.take(i + 1), slots) == clear_claimed(items.take(i), slots).update(
            items[i].index as int,
            BalanceItemView {
                balance: 0,
                ..clear_claimed(items.take(i), slots)[items[i].index as int]
            },
        ),
{
    let shorter = items.take(i);
    let longer = items.take(i + 1);
    let index = items[i].index as int;
    assert forall|j: int| refers_to(longer, j) <==> (refers_to(shorter, j) || j == index) by {
        if refers_to(longer, j) {
            let k = choose|k: int| 0 <= k < longer.len() && (#[trigger] longer[k]).index == j;
            if k < i {
                assert(shorter[k].index == j);
            }
        }
        if refers_to(shorter, j) {
            let k = choose|k: int| 0 <= k < shorter.len() && (#[trigger] shorter[k]).index == j;
            assert(longer[k].index == j);
        }
        if j == index {
            assert(longer[i].index == j);
        }
    }
    assert(clear_claimed(longer, slots) =~= clear_claimed(shorter, slots).update(
        index,
        BalanceItemView { balance: 0, ..clear_claimed(shorter, slots)[index] },
    ));
}

/// A record that belongs to a vault still belongs to it after a payout.
pub proof fn lemma_payout_keeps_attached(user: UserView, vault: VaultView, round: nat, earned: nat)
    requires
        user.attached_to(vault),
    ensures
        user.attached_to(vault.pay_out(round, earned)),
{
    let items = user.staked_items;
    let after = vault.pay_out(round, earned);
    assert forall|i: int| 0 <= i < items.len() implies after.occupied(
        (#[trigger] items[i]).index as int,
    ) by {
        assert(vault.occupied(items[i].index as int));
    }
    assert forall|i: int|
        0 <= i < items.len() && vault.total_balance_items[(#[trigger] items[i]).index as int].state
            == SlotState::Eligible implies after.total_balance_items[items[i].index as int].state
        == SlotState::Eligible by {
        assert(vault.occupied(items[i].index as int));
    }
    lemma_eligible_refs_grow(items, vault.total_balance_items, after.total_balance_items);
}

/// Taking one more staked item into a prefix adds it to the eligible
/// references when the balance item it refers to is `Eligible`.
pub proof fn lemma_eligible_refs_prefix_step(
    items: Seq<StakedNft>,
    slots: Seq<BalanceItemView>,
    i: int,
)
    requires
        0 <= i < items.len(),
    ensures
        eligible_refs(items.take(i + 1), slots) == eligible_refs(items.take(i), slots) + (if slots[items[i].index as int].state
            == SlotState::Eligible {
            1nat
        } else {
            0nat
        }),
{
    assert(items.take(i + 1).drop_last() =~= items.take(i));
}

} // verus!
