use vstd::prelude::*;
use crate::constants::MAX_NFT_PER_USER;
use crate::counting::{
    count_in_state, first_empty, lemma_count_prefix_bounded, lemma_count_prefix_step,
    lemma_count_update, lemma_count_zero_iff_absent, lemma_counts_partition, lemma_first_empty,
    lemma_first_empty_unique, lemma_promote_counts, total_balance,
};
use crate::errors::CustomError;
use crate::laws::{law_payout_conserves_rewards, newly_eligible};
use crate::model::{promote_staked, BalanceItemView, SlotState, VaultView};
use crate::pubkey::Pubkey;
use crate::record::{
    claimable, clear_claimed, eligible_refs, lemma_claimable_prefix_bounded,
    lemma_claimable_prefix_step, lemma_clear_claimed_step, lemma_eligible_refs_bounded,
    lemma_eligible_refs_grow, lemma_eligible_refs_prefix_step, lemma_eligible_refs_remove,
    lemma_position_of, lemma_position_unique, lemma_refs_depend_on_referred, position_of,
    table_after, UserView,
};

verus! {

/// One reward-bearing position of a vault: a claimable balance and an
/// occupancy state.
#[derive(Clone, Copy, Debug, PartialEq, Eq, Structural)]
pub struct BalanceItem {
    pub balance: u64,
    pub state: SlotState,
}

impl View for BalanceItem {
    type V = BalanceItemView;

    open spec fn view(&self) -> BalanceItemView {
        BalanceItemView { balance: self.balance as nat, state: self.state }
    }
}

impl Default for BalanceItem {
    /// An empty balance item without a balance.
    fn default() -> (item: BalanceItem)
        ensures
            item.balance == 0,
            item.state == SlotState::Empty,
    {
        BalanceItem { balance: 0, state: SlotState::Empty }
    }
}

/// The reference that a staking record keeps for one staked item: the item,
/// and the index of the balance item that it occupies.
#[derive(Clone, Copy, Debug, PartialEq, Eq)]
pub struct StakedNft {
    pub index: usize,
    pub mint: Pubkey,
}

/// The balance items of a table as mathematical values.
pub open spec fn slots_view(items: Seq<BalanceItem>) -> Seq<BalanceItemView> {
    Seq::new(items.len(), |j: int| items[j]@)
}

/// The ledger of one vault: who governs it, what staking costs, how rewards
/// are paid out, and a table of balance items whose length never changes.
#[derive(Clone, Debug, PartialEq, Eq)]
pub struct Vault {
    pub authority: Pubkey,
    pub creator_address: Pubkey,
    pub total_earned: u64,
    pub payout_schedule_started_time: u64,
    pub payout_round: u32,
    pub payout_interval: u64,
    pub payout_amount: u64,
    pub total_staked_count: u32,
    pub total_eligible_count: u32,
    pub total_amount: u64,
    pub stake_fee: u64,
    pub unstake_fee: u64,
    pub total_items_count: u32,
    pub bump: u8,
    pub total_balance_items: Vec<BalanceItem>,
}

impl View for Vault {
    type V = VaultView;

    open spec fn view(&self) -> VaultView {
        VaultView {
            authority: self.authority,
            creator_address: self.creator_address,
            total_earned: self.total_earned as nat,
            payout_schedule_started_time: self.payout_schedule_started_time as nat,
            payout_round: self.payout_round as nat,
            payout_interval: self.payout_interval as nat,
            payout_amount: self.payout_amount as nat,
            total_staked_count: self.total_staked_count as nat,
            total_eligible_count: self.total_eligible_count as nat,
            total_amount: self.total_amount as nat,
            stake_fee: self.stake_fee as nat,
            unstake_fee: self.unstake_fee as nat,
            total_items_count: self.total_items_count as nat,
            bump: self.bump,
            total_balance_items: slots_view(self.total_balance_items@),
        }
    }
}

/// A payout that is due: the round it closes, and what each newly eligible
/// balance item gains.
#[derive(Clone, Copy, Debug, PartialEq, Eq, Structural)]
pub struct Payout {
    pub round: u32,
    pub earned: u64,
}

impl Vault {
    /// The counters agree with the table of balance items.
    pub open spec fn wf(&self) -> bool {
        self@.wf()
    }

    /// Whether the counters agree with the table of balance items.
    #[verifier::loop_isolation(false)]
    pub fn is_well_formed(&self) -> (ok: bool)
        ensures
            ok == self.wf(),
    {
        let ghost slots = self@.total_balance_items;
        let n: usize = self.total_balance_items.len();
        if n > u32::MAX as usize {
            return false;
        }
        let mut staked: usize = 0;
        let mut eligible: usize = 0;
        let mut i: usize = 0;
        while i < n
            invariant
                i <= n,
                staked <= i,
                eligible <= i,
                staked == count_in_state(slots.take(i as int), SlotState::Staked) + count_in_state(
                    slots.take(i as int),
                    SlotState::Eligible,
                ),
                eligible == count_in_state(slots.take(i as int), SlotState::Eligible),
            decreases n - i,
        {
            proof {
                lemma_count_prefix_step(slots, i as int, SlotState::Staked);
                lemma_count_prefix_step(slots, i as int, SlotState::Eligible);
            }
            let item: BalanceItem = self.total_balance_items[i];
            assert(slots[i as int] == item@);
            match item.state {
                SlotState::Empty => {},
                SlotState::Staked => {
                    staked += 1;
                },
                SlotState::Eligible => {
                    staked += 1;
                    eligible += 1;
                },
            }
            i += 1;
        }
        assert(slots.take(n as int) =~= slots);
        staked == self.total_staked_count as usize && eligible == self.total_eligible_count as usize
    }

    /// The payout schedule starts, or starts anew, at `now` with round 1.
    pub fn start_payout_schedule(&mut self, now: u64)
        ensures
            final(self)@ == old(self)@.start_payout_schedule(now as nat),
    {
        self.payout_schedule_started_time = now;
        self.payout_round = 1;
    }

    /// The index of the first empty balance item, or the length of the table
    /// when every item is occupied.
    pub fn first_empty_index(&self) -> (index: usize)
        ensures
            index == first_empty(self@.total_balance_items),
    {
        let n: usize = self.total_balance_items.len();
        let mut i: usize = 0;
        while i < n
            invariant
                i <= n,
                n == self.total_balance_items.len(),
                forall|j: int|
                    0 <= j < i ==> (#[trigger] self@.total_balance_items[j]).state
                        != SlotState::Empty,
            decreases n - i,
        {
            if self.total_balance_items[i].state == SlotState::Empty {
                proof {
                    lemma_first_empty_unique(self@.total_balance_items, i as int);
                }
                return i;
            }
            i += 1;
        }
        proof {
            lemma_first_empty_unique(self@.total_balance_items, n as int);
        }
        n
    }

    /// Occupies the first empty balance item and returns its index. The item
    /// is `Eligible` at once while no payout schedule has started, and
    /// `Staked` otherwise; its balance is not touched. With no empty item
    /// left the vault is full.
    pub fn add_balance_item(&mut self) -> (r: Result<usize, CustomError>)
        requires
            old(self).wf(),
        ensures
            final(self).wf(),
            match old(self)@.add_balance_item() {
                Ok((vault, index)) => {
                    &&& r == Ok::<usize, CustomError>(index as usize)
                    &&& final(self)@ == vault
                },
                Err(e) => r == Err::<usize, CustomError>(e) && final(self)@ == old(self)@,
            },
    {
        let index: usize = self.first_empty_index();
        if index >= self.total_balance_items.len() {
            return Err(CustomError::VaultFull);
        }
        let ghost before = self@;
        proof {
            let slots = before.total_balance_items;
            lemma_first_empty(slots);
            lemma_counts_partition(slots);
            lemma_count_zero_iff_absent(slots, SlotState::Empty);
        }
        let mut item: BalanceItem = self.total_balance_items[index];
        if self.payout_schedule_started_time == 0 {
            item.state = SlotState::Eligible;
            self.total_eligible_count = self.total_eligible_count + 1;
        } else {
            item.state = SlotState::Staked;
        }
        self.total_staked_count = self.total_staked_count + 1;
        self.total_balance_items[index] = item;
        proof {
            let slots = before.total_balance_items;
            assert(self@.total_balance_items =~= slots.update(index as int, item@));
            lemma_count_update(slots, index as int, item@, SlotState::Staked);
            lemma_count_update(slots, index as int, item@, SlotState::Eligible);
        }
        Ok(index)
    }

    /// Empties the occupied balance item at `index`, and takes it out of the
    /// counts it was in. Its balance is not touched.
    pub fn remove_balance_item(&mut self, index: usize)
        requires
            old(self).wf(),
            old(self)@.occupied(index as int),
        ensures
            final(self).wf(),
            final(self)@ == old(self)@.remove_balance_item(index as int),
    {
        let ghost slots = self@.total_balance_items;
        proof {
            lemma_count_zero_iff_absent(slots, slots[index as int].state);
        }
        let mut item: BalanceItem = self.total_balance_items[index];
        if item.state == SlotState::Eligible {
            self.total_eligible_count = self.total_eligible_count - 1;
        }
        item.state = SlotState::Empty;
        self.total_staked_count = self.total_staked_count - 1;
        self.total_balance_items[index] = item;
        proof {
            assert(self@.total_balance_items =~= slots.update(index as int, item@));
            lemma_count_update(slots, index as int, item@, SlotState::Staked);
            lemma_count_update(slots, index as int, item@, SlotState::Eligible);
        }
    }

    /// Takes the balance out of the balance item at `index` and returns it.
    /// The state of the item and the counters stay.
    pub fn claim_balance_item(&mut self, index: usize) -> (balance: u64)
        requires
            old(self).wf(),
            index < old(self)@.total_balance_items.len(),
        ensures
            final(self).wf(),
            (final(self)@, balance as nat) == old(self)@.claim_balance_item(index as int),
    {
        let ghost slots = self@.total_balance_items;
        let mut item: BalanceItem = self.total_balance_items[index];
        let balance: u64 = item.balance;
        item.balance = 0;
        self.total_balance_items[index] = item;
        proof {
            assert(self@.total_balance_items =~= slots.update(index as int, item@));
            lemma_count_update(slots, index as int, item@, SlotState::Staked);
            lemma_count_update(slots, index as int, item@, SlotState::Eligible);
        }
        balance
    }

    /// Works out the payout that is due at `now` without making it: `None`
    /// when nothing is pending, and a fault when the payout would leave the
    /// machine range of the round number or of a balance.
    #[verifier::loop_isolation(false)]
    pub fn plan_payout(&self, now: u64) -> (r: Result<Option<Payout>, CustomError>)
        requires
            self.wf(),
        ensures
            match r {
                Ok(None) => !self@.payout_pending(now as nat),
                Ok(Some(payout)) => {
                    &&& self@.payout_pending(now as nat)
                    &&& !self@.payout_faults(now as nat)
                    &&& payout.round == self@.elapsed_rounds(now as nat)
                    &&& payout.earned == self@.round_earnings(now as nat)
                },
                Err(e) => {
                    &&& self@.payout_pending(now as nat)
                    &&& self@.payout_faults(now as nat)
                    &&& e == CustomError::ArithmeticFault
                },
            },
    {
        if self.payout_schedule_started_time == 0 || self.total_eligible_count == 0 || now
            < self.payout_schedule_started_time {
            return Ok(None);
        }
        if self.payout_interval == 0 {
            return Err(CustomError::ArithmeticFault);
        }
        let passed: u64 = (now - self.payout_schedule_started_time) / self.payout_interval;
        assert(self@.elapsed_rounds(now as nat) == passed + 1);
        if passed < self.payout_round as u64 {
            return Ok(None);
        }
        if passed >= u32::MAX as u64 {
            return Err(CustomError::ArithmeticFault);
        }
        let round: u32 = (passed + 1) as u32;
        let share: u64 = self.payout_amount / (self.total_eligible_count as u64);
        let rounds: u64 = (round - self.payout_round) as u64;
        assert(self@.round_earnings(now as nat) == share * rounds);
        let earned: u64 = match share.checked_mul(rounds) {
            Some(earned) => earned,
            None => {
                return Err(CustomError::ArithmeticFault);
            },
        };
        let n: usize = self.total_balance_items.len();
        let mut i: usize = 0;
        while i < n
            invariant
                i <= n,
                n == self.total_balance_items.len(),
                forall|j: int|
                    0 <= j < i ==> !((#[trigger] self@.total_balance_items[j]).state
                        == SlotState::Staked && self@.total_balance_items[j].balance + earned
                        > u64::MAX),
            decreases n - i,
        {
            let item: BalanceItem = self.total_balance_items[i];
            if item.state == SlotState::Staked && item.balance > u64::MAX - earned {
                assert(self@.total_balance_items[i as int].state == SlotState::Staked);
                return Err(CustomError::ArithmeticFault);
            }
            i += 1;
        }
        Ok(Some(Payout { round, earned }))
    }

    /// Makes a payout: every `Staked` balance item becomes `Eligible` and
    /// gains `payout.earned`, and the round number moves to `payout.round`.
    #[verifier::loop_isolation(false)]
    pub fn apply_payout(&mut self, payout: Payout)
        requires
            old(self).wf(),
            forall|j: int|
                0 <= j < old(self)@.total_balance_items.len() && (
                #[trigger] old(self)@.total_balance_items[j]).state == SlotState::Staked
                    ==> old(self)@.total_balance_items[j].balance + payout.earned <= u64::MAX,
        ensures
            final(self).wf(),
            final(self)@ == old(self)@.pay_out(payout.round as nat, payout.earned as nat),
    {
        let ghost before = self@;
        let ghost slots = self@.total_balance_items;
        proof {
            lemma_counts_partition(slots);
        }
        let n: usize = self.total_balance_items.len();
        let mut i: usize = 0;
        while i < n
            invariant
                i <= n,
                n == slots.len(),
                n <= u32::MAX,
                self@.total_balance_items.len() == n,
                self@ == (VaultView {
                    total_eligible_count: self@.total_eligible_count,
                    total_balance_items: self@.total_balance_items,
                    ..before
                }),
                forall|j: int|
                    0 <= j < i ==> #[trigger] self@.total_balance_items[j] == promote_staked(
                        slots,
                        payout.earned as nat,
                    )[j],
                forall|j: int| i <= j < n ==> #[trigger] self@.total_balance_items[j] == slots[j],
                self.total_eligible_count == before.total_eligible_count + count_in_state(
                    slots.take(i as int),
                    SlotState::Staked,
                ),
                before.total_eligible_count == count_in_state(slots, SlotState::Eligible),
                count_in_state(slots, SlotState::Staked) + count_in_state(
                    slots,
                    SlotState::Eligible,
                ) <= n,
                forall|j: int|
                    0 <= j < n && (#[trigger] slots[j]).state == SlotState::Staked ==> slots[j].balance
                        + payout.earned <= u64::MAX,
            decreases n - i,
        {
            proof {
                lemma_count_prefix_step(slots, i as int, SlotState::Staked);
                lemma_count_prefix_bounded(slots, i as int + 1, SlotState::Staked);
            }
            let ghost current = self@.total_balance_items;
            let mut item: BalanceItem = self.total_balance_items[i];
            assert(current[i as int] == item@);
            if item.state == SlotState::Staked {
                item.state = SlotState::Eligible;
                item.balance = item.balance + payout.earned;
                self.total_eligible_count = self.total_eligible_count + 1;
                self.total_balance_items[i] = item;
            }
            proof {
                assert forall|j: int| 0 <= j < n implies #[trigger] self@.total_balance_items[j]
                    == (if j == i {
                    item@
                } else {
                    current[j]
                }) by {}
            }
            i += 1;
        }
        self.payout_round = payout.round;
        proof {
            assert(slots.take(n as int) =~= slots);
            assert(self@.total_balance_items =~= promote_staked(slots, payout.earned as nat));
            lemma_promote_counts(slots, payout.earned as nat);
        }
    }

    /// Brings the payout rounds up to `now`. With no schedule running, no
    /// eligible balance item, or `now` within the round of the last payout
    /// (or before the start of the schedule), nothing changes. Otherwise every
    /// `Staked` balance item becomes `Eligible` and gains the payout amount
    /// divided among the items eligible so far, for each round passed; items
    /// that were `Eligible` already gain nothing. A payout that would leave
    /// the machine range of the round number or of a balance, or whose
    /// interval is zero, is a fault and changes nothing.
    pub fn update_payout_round(&mut self, now: u64) -> (r: Result<(), CustomError>)
        requires
            old(self).wf(),
        ensures
            final(self).wf(),
            match old(self)@.update_payout_round(now as nat) {
                Ok(vault) => r == Ok::<(), CustomError>(()) && final(self)@ == vault,
                Err(e) => r == Err::<(), CustomError>(e) && final(self)@ == old(self)@,
            },
            r is Ok ==> {
                let k = newly_eligible(
                    old(self)@.total_balance_items,
                    final(self)@.total_balance_items,
                );
                &&& total_balance(final(self)@.total_balance_items) == total_balance(
                    old(self)@.total_balance_items,
                ) + old(self)@.round_earnings(now as nat) * k
                &&& final(self)@.total_eligible_count == old(self)@.total_eligible_count + k
            },
    {
        proof {
            law_payout_conserves_rewards(self@, now as nat);
        }
        match self.plan_payout(now) {
            Ok(None) => Ok(()),
            Ok(Some(payout)) => {
                self.apply_payout(payout);
                Ok(())
            },
            Err(e) => Err(e),
        }
    }
}

/// The staking record of one participant: who owns it, and a reference for
/// each item the participant has staked.
#[derive(Clone, Debug, PartialEq, Eq)]
pub struct User {
    pub key: Pubkey,
    pub eligible_count: u32,
    pub mint_staked_count: u32,
    pub bump: u8,
    pub staked_items: Vec<StakedNft>,
}

impl View for User {
    type V = UserView;

    open spec fn view(&self) -> UserView {
        UserView {
            key: self.key,
            eligible_count: self.eligible_count as nat,
            mint_staked_count: self.mint_staked_count as nat,
            bump: self.bump,
            staked_items: self.staked_items@,
        }
    }
}

impl User {
    /// The record counts its own staked items and holds no item twice.
    pub open spec fn wf(&self) -> bool {
        self@.wf()
    }

    /// Whether the record counts its own staked items and holds no item
    /// twice.
    #[verifier::loop_isolation(false)]
    pub fn is_well_formed(&self) -> (ok: bool)
        ensures
            ok == self.wf(),
    {
        let ghost items = self@.staked_items;
        let n: usize = self.staked_items.len();
        if n > MAX_NFT_PER_USER || self.mint_staked_count as usize != n || self.eligible_count
            > self.mint_staked_count {
            return false;
        }
        let mut j: usize = 0;
        while j < n
            invariant
                j <= n,
                forall|a: int, b: int|
                    0 <= a < b < j ==> (#[trigger] items[a]).mint != (#[trigger] items[b]).mint,
            decreases n - j,
        {
            let mut i: usize = 0;
            while i < j
                invariant
                    i <= j,
                    j < n,
                    forall|a: int| 0 <= a < i ==> (#[trigger] items[a]).mint != items[j as int].mint,
                decreases j - i,
            {
                if self.staked_items[i].mint == self.staked_items[j].mint {
                    return false;
                }
                i += 1;
            }
            j += 1;
        }
        true
    }

    /// Whether the record belongs to `vault`: each staked item refers to an
    /// occupied balance item of its own, and the record counts no more
    /// eligible items than it refers to.
    #[verifier::loop_isolation(false)]
    pub fn is_attached_to(&self, vault: &Vault) -> (ok: bool)
        ensures
            ok == self@.attached_to(vault@),
    {
        let ghost items = self@.staked_items;
        let ghost slots = vault@.total_balance_items;
        let n: usize = self.staked_items.len();
        let capacity: usize = vault.total_balance_items.len();
        let mut eligible: usize = 0;
        let mut j: usize = 0;
        while j < n
            invariant
                j <= n,
                eligible <= j,
                eligible == eligible_refs(items.take(j as int), slots),
                forall|a: int| 0 <= a < j ==> vault@.occupied((#[trigger] items[a]).index as int),
                forall|a: int, b: int|
                    0 <= a < b < j ==> (#[trigger] items[a]).index != (#[trigger] items[b]).index,
            decreases n - j,
        {
            let index: usize = self.staked_items[j].index;
            if index >= capacity {
                assert(!vault@.occupied(items[j as int].index as int));
                return false;
            }
            let item: BalanceItem = vault.total_balance_items[index];
            assert(slots[index as int] == item@);
            if item.state == SlotState::Empty {
                assert(!vault@.occupied(items[j as int].index as int));
                return false;
            }
            let mut i: usize = 0;
            while i < j
                invariant
                    i <= j,
                    j < n,
                    forall|a: int| 0 <= a < i ==> (#[trigger] items[a]).index != index,
                decreases j - i,
            {
                if self.staked_items[i].index == index {
                    assert(items[i as int].index == items[j as int].index);
                    return false;
                }
                i += 1;
            }
            proof {
                lemma_eligible_refs_prefix_step(items, slots, j as int);
            }
            if item.state == SlotState::Eligible {
                eligible += 1;
            }
            j += 1;
        }
        assert(items.take(n as int) =~= items);
        self.eligible_count as usize <= eligible
    }

    /// The position of the staked item with `mint`, or the number of staked
    /// items when there is none.
    pub fn position(&self, mint: Pubkey) -> (position: usize)
        ensures
            position == position_of(self@.staked_items, mint),
    {
        let n: usize = self.staked_items.len();
        let mut i: usize = 0;
        while i < n
            invariant
                i <= n,
                n == self.staked_items.len(),
                forall|j: int| 0 <= j < i ==> (#[trigger] self@.staked_items[j]).mint != mint,
            decreases n - i,
        {
            if self.staked_items[i].mint == mint {
                proof {
                    lemma_position_unique(self@.staked_items, mint, i as int);
                }
                return i;
            }
            i += 1;
        }
        proof {
            lemma_position_unique(self@.staked_items, mint, n as int);
        }
        n
    }

    /// Stakes `mint`: the vault occupies its first empty balance item, and
    /// the record gains a reference to it, counted as eligible when the
    /// balance item is. An item that is staked already, a record that is
    /// full and a vault that is full are refused, in that order.
    pub fn add_item(&mut self, vault: &mut Vault, mint: Pubkey) -> (r: Result<(), CustomError>)
        requires
            old(self).wf(),
            old(vault).wf(),
            old(self)@.attached_to(old(vault)@),
        ensures
            final(self).wf(),
            final(vault).wf(),
            final(self)@.attached_to(final(vault)@),
            match old(self)@.add_item(old(vault)@, mint) {
                Ok((user, ledger)) => {
                    &&& r == Ok::<(), CustomError>(())
                    &&& final(self)@ == user
                    &&& final(vault)@ == ledger
                },
                Err(e) => {
                    &&& r == Err::<(), CustomError>(e)
                    &&& final(self)@ == old(self)@
                    &&& final(vault)@ == old(vault)@
                },
            },
    {
        let ghost items = self@.staked_items;
        let ghost slots = vault@.total_balance_items;
        proof {
            lemma_position_of(items, mint);
        }
        if self.position(mint) < self.staked_items.len() {
            return Err(CustomError::AlreadyStaked);
        }
        if self.staked_items.len() >= MAX_NFT_PER_USER {
            return Err(CustomError::MaxStaked);
        }
        let index: usize = match vault.add_balance_item() {
            Ok(index) => index,
            Err(e) => {
                return Err(e);
            },
        };
        proof {
            lemma_first_empty(slots);
            lemma_refs_depend_on_referred(items, slots, vault@.total_balance_items);
            lemma_eligible_refs_bounded(items, slots);
        }
        if vault.total_balance_items[index].state == SlotState::Eligible {
            self.eligible_count = self.eligible_count + 1;
        }
        self.mint_staked_count = self.mint_staked_count + 1;
        self.staked_items.push(StakedNft { index, mint });
        proof {
            assert(self@.staked_items.drop_last() =~= items);
        }
        Ok(())
    }

    /// Takes `mint` back: the vault empties the balance item that the record
    /// refers to for it, and the record drops the reference. The record
    /// counts one eligible item less when that balance item was `Eligible`.
    /// An item that is not staked is refused; so is, as a fault, the removal
    /// of an eligible item from a record that counts none.
    pub fn remove_item(&mut self, vault: &mut Vault, mint: Pubkey) -> (r: Result<(), CustomError>)
        requires
            old(self).wf(),
            old(vault).wf(),
            old(self)@.attached_to(old(vault)@),
        ensures
            final(self).wf(),
            final(vault).wf(),
            final(self)@.attached_to(final(vault)@),
            match old(self)@.remove_item(old(vault)@, mint) {
                Ok((user, ledger)) => {
                    &&& r == Ok::<(), CustomError>(())
                    &&& final(self)@ == user
                    &&& final(vault)@ == ledger
                },
                Err(e) => {
                    &&& r == Err::<(), CustomError>(e)
                    &&& final(self)@ == old(self)@
                    &&& final(vault)@ == old(vault)@
                },
            },
    {
        let ghost items = self@.staked_items;
        let ghost slots = vault@.total_balance_items;
        proof {
            lemma_position_of(items, mint);
        }
        let position: usize = self.position(mint);
        if position >= self.staked_items.len() {
            return Err(CustomError::NotFound);
        }
        let index: usize = self.staked_items[position].index;
        assert(vault@.occupied(items[position as int].index as int));
        let eligible: bool = vault.total_balance_items[index].state == SlotState::Eligible;
        if eligible && self.eligible_count == 0 {
            return Err(CustomError::ArithmeticFault);
        }
        if eligible {
            self.eligible_count = self.eligible_count - 1;
        }
        self.mint_staked_count = self.mint_staked_count - 1;
        vault.remove_balance_item(index);
        self.staked_items.remove(position);
        proof {
            let rest = items.remove(position as int);
            assert(self@.staked_items == rest);
            assert forall|i: int| 0 <= i < rest.len() implies {
                &&& (#[trigger] rest[i]).index != index
                &&& old(vault)@.occupied(rest[i].index as int)
            } by {
                if i < position {
                    assert(rest[i] == items[i]);
                } else {
                    assert(rest[i] == items[i + 1]);
                }
            }
            assert forall|i: int, j: int| 0 <= i < j < rest.len() implies {
                &&& (#[trigger] rest[i]).index != (#[trigger] rest[j]).index
                &&& rest[i].mint != rest[j].mint
            } by {
                let a = if i < position { i } else { i + 1 };
                let b = if j < position { j } else { j + 1 };
                assert(rest[i] == items[a]);
                assert(rest[j] == items[b]);
            }
            lemma_eligible_refs_remove(items, slots, position as int);
            lemma_refs_depend_on_referred(rest, slots, vault@.total_balance_items);
            lemma_eligible_refs_bounded(rest, vault@.total_balance_items);
        }
        Ok(())
    }

    /// The sum of the balances that the record refers to, as it will be once
    /// `payout` is made, if there is one. A sum beyond the machine range of
    /// an amount is a fault.
    #[verifier::loop_isolation(false)]
    pub fn claimable_after(&self, vault: &Vault, payout: Option<Payout>) -> (r: Result<
        u64,
        CustomError,
    >)
        requires
            forall|i: int|
                0 <= i < self@.staked_items.len() ==> (#[trigger] self@.staked_items[i]).index
                    < vault@.total_balance_items.len(),
            payout matches Some(p) ==> forall|j: int|
                0 <= j < vault@.total_balance_items.len() && (
                #[trigger] vault@.total_balance_items[j]).state == SlotState::Staked
                    ==> vault@.total_balance_items[j].balance + p.earned <= u64::MAX,
        ensures
            match r {
                Ok(total) => total == claimable(
                    self@.staked_items,
                    table_after(vault@.total_balance_items, payout),
                ),
                Err(e) => {
                    &&& e == CustomError::ArithmeticFault
                    &&& claimable(
                        self@.staked_items,
                        table_after(vault@.total_balance_items, payout),
                    ) > u64::MAX
                },
            },
    {
        let ghost items = self@.staked_items;
        let ghost slots = table_after(vault@.total_balance_items, payout);
        let n: usize = self.staked_items.len();
        let mut total: u64 = 0;
        let mut i: usize = 0;
        while i < n
            invariant
                i <= n,
                total == claimable(items.take(i as int), slots),
            decreases n - i,
        {
            let index: usize = self.staked_items[i].index;
            assert(items[i as int].index < vault@.total_balance_items.len());
            let item: BalanceItem = vault.total_balance_items[index];
            assert(vault@.total_balance_items[index as int] == item@);
            let balance: u64 = match payout {
                Some(payout) => if item.state == SlotState::Staked {
                    item.balance + payout.earned
                } else {
                    item.balance
                },
                None => item.balance,
            };
            proof {
                lemma_claimable_prefix_step(items, slots, i as int);
                lemma_claimable_prefix_bounded(items, slots, i as int + 1);
            }
            total = match total.checked_add(balance) {
                Some(sum) => sum,
                None => {
                    return Err(CustomError::ArithmeticFault);
                },
            };
            i += 1;
        }
        assert(items.take(n as int) =~= items);
        Ok(total)
    }

    /// Claims the rewards of the record: takes the balance out of every
    /// balance item that the record refers to and returns the sum. The record
    /// itself, the states and the counters stay. A sum beyond the machine
    /// range of an amount is a fault, and then no balance is taken.
    #[verifier::loop_isolation(false)]
    pub fn claim(&mut self, vault: &mut Vault) -> (r: Result<u64, CustomError>)
        requires
            old(self).wf(),
            old(vault).wf(),
            old(self)@.attached_to(old(vault)@),
        ensures
            final(self)@ == old(self)@,
            final(vault).wf(),
            final(self)@.attached_to(final(vault)@),
            match old(self)@.claim(old(vault)@) {
                Ok((ledger, total)) => {
                    &&& r == Ok::<u64, CustomError>(total as u64)
                    &&& final(vault)@ == ledger
                },
                Err(e) => r == Err::<u64, CustomError>(e) && final(vault)@ == old(vault)@,
            },
    {
        let ghost items = self@.staked_items;
        let ghost before = vault@;
        let ghost slots = vault@.total_balance_items;
        assert forall|i: int| 0 <= i < items.len() implies (#[trigger] items[i]).index
            < slots.len() by {
            assert(before.occupied(items[i].index as int));
        }
        let total: u64 = match self.claimable_after(vault, None) {
            Ok(total) => total,
            Err(e) => {
                return Err(e);
            },
        };
        let n: usize = self.staked_items.len();
        let mut k: usize = 0;
        assert(clear_claimed(items.take(0), slots) =~= slots);
        while k < n
            invariant
                k <= n,
                vault.wf(),
                vault@ == (VaultView {
                    total_balance_items: clear_claimed(items.take(k as int), slots),
                    ..before
                }),
            decreases n - k,
        {
            let index: usize = self.staked_items[k].index;
            assert(items[k as int].index < slots.len());
            proof {
                lemma_clear_claimed_step(items, slots, k as int);
            }
            vault.claim_balance_item(index);
            k += 1;
        }
        proof {
            assert(items.take(n as int) =~= items);
            lemma_eligible_refs_grow(items, slots, vault@.total_balance_items);
        }
        Ok(total)
    }
}

} // verus!
