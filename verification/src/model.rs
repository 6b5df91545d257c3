use vstd::prelude::*;
use crate::counting::{count_in_state, first_empty};
use crate::errors::CustomError;
use crate::pubkey::Pubkey;

verus! {

/// The occupancy of one balance item.
#[derive(Clone, Copy, Debug, PartialEq, Eq, Structural)]
pub enum SlotState {
    /// Free to be taken by the next staked item.
    Empty,
    /// Occupied, and waiting for a payout round to make it eligible.
    Staked,
    /// Occupied, and holding a reward balance.
    Eligible,
}

impl SlotState {
    /// The byte that stands for the state in a stored balance item.
    pub open spec fn spec_code(self) -> u8 {
        match self {
            SlotState::Empty => 0,
            SlotState::Staked => 1,
            SlotState::Eligible => 2,
        }
    }

    /// The byte that stands for the state in a stored balance item.
    #[verifier::when_used_as_spec(spec_code)]
    pub fn code(self) -> (code: u8)
        ensures
            code == self.spec_code(),
    {
        match self {
            SlotState::Empty => 0,
            SlotState::Staked => 1,
            SlotState::Eligible => 2,
        }
    }

    /// The state that the byte `code` stands for, if it stands for one.
    pub fn from_code(code: u8) -> (state: Option<SlotState>)
        ensures
            code > 2 <==> state is None,
            state matches Some(s) ==> s.code() == code,
    {
        if code == 0 {
            Some(SlotState::Empty)
        } else if code == 1 {
            Some(SlotState::Staked)
        } else if code == 2 {
            Some(SlotState::Eligible)
        } else {
            None
        }
    }
}

/// One balance item as a mathematical value.
pub struct BalanceItemView {
    pub balance: nat,
    pub state: SlotState,
}

/// A vault as a mathematical value: its configuration, its payout schedule,
/// its counters and its table of balance items. The operations of the vault
/// are stated as functions on this value; an operation that is refused is an
/// `Err`, and the vault then stays as it was.
pub struct VaultView {
    pub authority: Pubkey,
    pub creator_address: Pubkey,
    pub total_earned: nat,
    pub payout_schedule_started_time: nat,
    pub payout_round: nat,
    pub payout_interval: nat,
    pub payout_amount: nat,
    pub total_staked_count: nat,
    pub total_eligible_count: nat,
    pub total_amount: nat,
    pub stake_fee: nat,
    pub unstake_fee: nat,
    pub total_items_count: nat,
    pub bump: u8,
    pub total_balance_items: Seq<BalanceItemView>,
}

/// The table after a payout: every `Staked` item has become `Eligible` and
/// has gained `earned`; the other items are untouched.
pub open spec fn promote_staked(slots: Seq<BalanceItemView>, earned: nat) -> Seq<
    BalanceItemView,
> {
    Seq::new(
        slots.len(),
        |j: int|
            if slots[j].state == SlotState::Staked {
                BalanceItemView { balance: slots[j].balance + earned, state: SlotState::Eligible }
            } else {
                slots[j]
            },
    )
}

impl VaultView {
    /// The counters agree with the table, and the table is small enough for
    /// the counters to count it.
    pub open spec fn wf(self) -> bool {
        &&& self.total_balance_items.len() <= u32::MAX
        &&& self.total_staked_count == count_in_state(self.total_balance_items, SlotState::Staked)
            + count_in_state(self.total_balance_items, SlotState::Eligible)
        &&& self.total_eligible_count == count_in_state(
            self.total_balance_items,
            SlotState::Eligible,
        )
    }

    /// The vault as it is first set up: the given configuration, `capacity`
    /// empty balance items without a balance, every counter at zero and no
    /// payout schedule.
    pub open spec fn initial(
        authority: Pubkey,
        creator_address: Pubkey,
        payout_interval: nat,
        payout_amount: nat,
        stake_fee: nat,
        unstake_fee: nat,
        bump: u8,
        capacity: nat,
    ) -> VaultView {
        VaultView {
            authority,
            creator_address,
            total_earned: 0,
            payout_schedule_started_time: 0,
            payout_round: 0,
            payout_interval,
            payout_amount,
            total_staked_count: 0,
            total_eligible_count: 0,
            total_amount: 0,
            stake_fee,
            unstake_fee,
            total_items_count: 0,
            bump,
            total_balance_items: Seq::new(
                capacity,
                |j: int| BalanceItemView { balance: 0, state: SlotState::Empty },
            ),
        }
    }

    /// The authority replaces the configuration; the schedule, the counters
    /// and the table stay.
    pub open spec fn update_config(
        self,
        caller: Pubkey,
        new_authority: Pubkey,
        creator_address: Pubkey,
        payout_interval: nat,
        payout_amount: nat,
        stake_fee: nat,
        unstake_fee: nat,
    ) -> Result<VaultView, CustomError> {
        if caller != self.authority {
            Err(CustomError::Unauthorized)
        } else {
            Ok(
                VaultView {
                    authority: new_authority,
                    creator_address,
                    payout_interval,
                    payout_amount,
                    stake_fee,
                    unstake_fee,
                    ..self
                },
            )
        }
    }

    /// `amount` enters the funded pool.
    pub open spec fn fund(self, amount: nat) -> Result<VaultView, CustomError> {
        if self.total_amount + amount > u64::MAX {
            Err(CustomError::ArithmeticFault)
        } else {
            Ok(VaultView { total_amount: self.total_amount + amount, ..self })
        }
    }

    /// The authority takes `amount` out of the funded pool.
    pub open spec fn drain(self, caller: Pubkey, amount: nat) -> Result<VaultView, CustomError> {
        if caller != self.authority {
            Err(CustomError::Unauthorized)
        } else if amount > self.total_amount {
            Err(CustomError::InsufficientFunds)
        } else {
            Ok(VaultView { total_amount: (self.total_amount - amount) as nat, ..self })
        }
    }

    /// `fee` is credited to the fees earned.
    pub open spec fn charge_fee(self, fee: nat) -> Result<VaultView, CustomError> {
        if self.total_earned + fee > u64::MAX {
            Err(CustomError::ArithmeticFault)
        } else {
            Ok(VaultView { total_earned: self.total_earned + fee, ..self })
        }
    }

    /// The payout schedule starts, or starts anew, at `now` with round 1.
    pub open spec fn start_payout_schedule(self, now: nat) -> VaultView {
        VaultView { payout_schedule_started_time: now, payout_round: 1, ..self }
    }

    /// The authority starts the payout schedule.
    pub open spec fn authorized_start(self, caller: Pubkey, now: nat) -> Result<
        VaultView,
        CustomError,
    > {
        if caller != self.authority {
            Err(CustomError::Unauthorized)
        } else {
            Ok(self.start_payout_schedule(now))
        }
    }

    /// The first empty balance item becomes occupied: `Eligible` at once while
    /// no payout schedule has started, `Staked` otherwise. Its balance stays.
    /// The result holds the index of the item.
    pub open spec fn add_balance_item(self) -> Result<(VaultView, nat), CustomError> {
        let index = first_empty(self.total_balance_items);
        if index >= self.total_balance_items.len() {
            Err(CustomError::VaultFull)
        } else if self.payout_schedule_started_time == 0 {
            Ok(
                (
                    VaultView {
                        total_staked_count: self.total_staked_count + 1,
                        total_eligible_count: self.total_eligible_count + 1,
                        total_balance_items: self.total_balance_items.update(
                            index as int,
                            BalanceItemView {
                                state: SlotState::Eligible,
                                ..self.total_balance_items[index as int]
                            },
                        ),
                        ..self
                    },
                    index,
                ),
            )
        } else {
            Ok(
                (
                    VaultView {
                        total_staked_count: self.total_staked_count + 1,
                        total_balance_items: self.total_balance_items.update(
                            index as int,
                            BalanceItemView {
                                state: SlotState::Staked,
                                ..self.total_balance_items[index as int]
                            },
                        ),
                        ..self
                    },
                    index,
                ),
            )
        }
    }

    /// Whether the balance item at `index` exists and is occupied.
    pub open spec fn occupied(self, index: int) -> bool {
        &&& 0 <= index < self.total_balance_items.len()
        &&& self.total_balance_items[index].state != SlotState::Empty
    }

    /// The occupied balance item at `index` becomes empty. Its balance stays.
    pub open spec fn remove_balance_item(self, index: int) -> VaultView
        recommends
            self.occupied(index),
    {
        VaultView {
            total_staked_count: (self.total_staked_count - 1) as nat,
            total_eligible_count: if self.total_balance_items[index].state == SlotState::Eligible {
                (self.total_eligible_count - 1) as nat
            } else {
                self.total_eligible_count
            },
            total_balance_items: self.total_balance_items.update(
                index,
                BalanceItemView { state: SlotState::Empty, ..self.total_balance_items[index] },
            ),
            ..self
        }
    }

    /// The balance of the item at `index` is taken out: the result holds the
    /// balance, and the item is left with none.
    pub open spec fn claim_balance_item(self, index: int) -> (VaultView, nat)
        recommends
            0 <= index < self.total_balance_items.len(),
    {
        (
            VaultView {
                total_balance_items: self.total_balance_items.update(
                    index,
                    BalanceItemView { balance: 0, ..self.total_balance_items[index] },
                ),
                ..self
            },
            self.total_balance_items[index].balance,
        )
    }

    /// The payout round that `now` falls in: round 1 begins when the schedule
    /// starts, and each further round one interval later.
    pub open spec fn elapsed_rounds(self, now: nat) -> nat
        recommends
            self.payout_interval > 0,
            now >= self.payout_schedule_started_time,
    {
        ((now - self.payout_schedule_started_time) / (self.payout_interval as int) + 1) as nat
    }

    /// Whether a payout is to be made at `now`: the schedule runs, some item
    /// is eligible, and `now` lies in a later round than the last payout.
    pub open spec fn payout_pending(self, now: nat) -> bool {
        &&& self.payout_schedule_started_time != 0
        &&& self.total_eligible_count != 0
        &&& now >= self.payout_schedule_started_time
        &&& (self.payout_interval == 0 || self.elapsed_rounds(now) > self.payout_round)
    }

    /// What each newly eligible item gains at `now`: the payout amount
    /// divided among the items eligible so far, rounded down, for each round
    /// that has passed since the last payout.
    pub open spec fn round_earnings(self, now: nat) -> nat
        recommends
            self.payout_pending(now),
            self.payout_interval > 0,
    {
        (self.payout_amount / self.total_eligible_count) * ((self.elapsed_rounds(now)
            - self.payout_round) as nat)
    }

    /// Whether the pending payout at `now` cannot be made within the machine
    /// ranges of the round number and of the balances.
    pub open spec fn payout_faults(self, now: nat) -> bool
        recommends
            self.payout_pending(now),
    {
        ||| self.payout_interval == 0
        ||| self.elapsed_rounds(now) > u32::MAX
        ||| self.round_earnings(now) > u64::MAX
        ||| exists|j: int|
            0 <= j < self.total_balance_items.len() && (#[trigger] self.total_balance_items[j]).state
                == SlotState::Staked && self.total_balance_items[j].balance + self.round_earnings(
                now,
            ) > u64::MAX
    }

    /// A payout of `earned` that closes round `round`: every `Staked` item
    /// becomes `Eligible` and gains `earned`, and the round number moves to
    /// `round`. Items that were `Eligible` already gain nothing.
    pub open spec fn pay_out(self, round: nat, earned: nat) -> VaultView {
        VaultView {
            payout_round: round,
            total_eligible_count: self.total_eligible_count + count_in_state(
                self.total_balance_items,
                SlotState::Staked,
            ),
            total_balance_items: promote_staked(self.total_balance_items, earned),
            ..self
        }
    }

    /// The payout at `now`. With nothing pending the vault stays as it is.
    /// Otherwise the round earnings are paid out and the round number moves
    /// to the round of `now`.
    pub open spec fn update_payout_round(self, now: nat) -> Result<VaultView, CustomError> {
        if !self.payout_pending(now) {
            Ok(self)
        } else if self.payout_faults(now) {
            Err(CustomError::ArithmeticFault)
        } else {
            Ok(self.pay_out(self.elapsed_rounds(now), self.round_earnings(now)))
        }
    }
}

} // verus!
