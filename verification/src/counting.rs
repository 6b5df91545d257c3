use vstd::prelude::*;
use crate::model::{promote_staked, BalanceItemView, SlotState};

verus! {

/// How many balance items of `slots` are in `state`.
pub open spec fn count_in_state(slots: Seq<BalanceItemView>, state: SlotState) -> nat
    decreases slots.len(),
{
    if slots.len() == 0 {
        0
    } else {
        count_in_state(slots.drop_last(), state) + if slots.last().state == state {
            1nat
        } else {
            0nat
        }
    }
}

/// The sum of the balances of `slots`.
pub open spec fn total_balance(slots: Seq<BalanceItemView>) -> nat
    decreases slots.len(),
{
    if slots.len() == 0 {
        0
    } else {
        total_balance(slots.drop_last()) + slots.last().balance
    }
}

/// The lowest index of an `Empty` balance item, or `slots.len()` when there
/// is none.
pub open spec fn first_empty(slots: Seq<BalanceItemView>) -> nat
    decreases slots.len(),
{
    if slots.len() == 0 {
        0
    } else if slots.first().state == SlotState::Empty {
        0
    } else {
        1 + first_empty(slots.drop_first())
    }
}

/// Every balance item is in exactly one of the three states.
pub proof fn lemma_counts_partition(slots: Seq<BalanceItemView>)
    ensures
        count_in_state(slots, SlotState::Empty) + count_in_state(slots, SlotState::Staked)
            + count_in_state(slots, SlotState::Eligible) == slots.len(),
    decreases slots.len(),
{
    if slots.len() > 0 {
        lemma_counts_partition(slots.drop_last());
    }
}

/// Replacing one balance item moves the counts by that item alone.
pub proof fn lemma_count_update(
    slots: Seq<BalanceItemView>,
    i: int,
    item: BalanceItemView,
    state: SlotState,
)
    requires
        0 <= i < slots.len(),
    ensures
        count_in_state(slots.update(i, item), state) + (if slots[i].state == state {
            1nat
        } else {
            0nat
        }) == count_in_state(slots, state) + (if item.state == state {
            1nat
        } else {
            0nat
        }),
    decreases slots.len(),
{
    let updated = slots.update(i, item);
    if i == slots.len() - 1 {
        assert(updated.drop_last() =~= slots.drop_last());
    } else {
        assert(updated.drop_last() =~= slots.drop_last().update(i, item));
        lemma_count_update(slots.drop_last(), i, item, state);
    }
}

/// A state that is counted is the state of some balance item, and a state
/// that is not counted is the state of none.
pub proof fn lemma_count_zero_iff_absent(slots: Seq<BalanceItemView>, state: SlotState)
    ensures
        count_in_state(slots, state) == 0 <==> forall|j: int|
            0 <= j < slots.len() ==> (#[trigger] slots[j]).state != state,
    decreases slots.len(),
{
    if slots.len() > 0 {
        let front = slots.drop_last();
        lemma_count_zero_iff_absent(front, state);
        if count_in_state(slots, state) == 0 {
            assert forall|j: int| 0 <= j < slots.len() implies (#[trigger] slots[j]).state
                != state by {
                if j < slots.len() - 1 {
                    assert(front[j] == slots[j]);
                }
            }
        } else if slots.last().state != state {
            let j = choose|j: int| 0 <= j < front.len() && (#[trigger] front[j]).state == state;
            assert(slots[j] == front[j]);
        }
    }
}

/// What `first_empty` finds: an `Empty` item with none before it, or nothing
/// at all.
pub proof fn lemma_first_empty(slots: Seq<BalanceItemView>)
    ensures
        first_empty(slots) <= slots.len(),
        first_empty(slots) < slots.len() ==> slots[first_empty(slots) as int].state
            == SlotState::Empty,
        forall|j: int| 0 <= j < first_empty(slots) ==> (#[trigger] slots[j]).state
            != SlotState::Empty,
    decreases slots.len(),
{
    if slots.len() > 0 && slots.first().state != SlotState::Empty {
        let rest = slots.drop_first();
        lemma_first_empty(rest);
        assert forall|j: int| 0 <= j < first_empty(slots) implies (#[trigger] slots[j]).state
            != SlotState::Empty by {
            if j > 0 {
                assert(rest[j - 1] == slots[j]);
            }
        }
    }
}

/// An index with no `Empty` item before it, which is `Empty` itself or the
/// end of the table, is the one `first_empty` names.
pub proof fn lemma_first_empty_unique(slots: Seq<BalanceItemView>, i: int)
    requires
        0 <= i <= slots.len(),
        forall|j: int| 0 <= j < i ==> (#[trigger] slots[j]).state != SlotState::Empty,
        i < slots.len() ==> slots[i].state == SlotState::Empty,
    ensures
        first_empty(slots) == i,
{
    lemma_first_empty(slots);
    let f = first_empty(slots) as int;
    if f < i {
        assert(slots[f].state != SlotState::Empty);
    } else if i < f {
        assert(slots[i].state != SlotState::Empty);
    }
}

/// Taking one more balance item into a prefix adds that item to the count.
pub proof fn lemma_count_prefix_step(slots: Seq<BalanceItemView>, i: int, state: SlotState)
    requires
        0 <= i < slots.len(),
    ensures
        count_in_state(slots.take(i + 1), state) == count_in_state(slots.take(i), state) + (if slots[i].state
            == state {
            1nat
        } else {
            0nat
        }),
{
    assert(slots.take(i + 1).drop_last() =~= slots.take(i));
}

/// A prefix holds no more items in a state than the whole table.
pub proof fn lemma_count_prefix_bounded(slots: Seq<BalanceItemView>, i: int, state: SlotState)
    requires
        0 <= i <= slots.len(),
    ensures
        count_in_state(slots.take(i), state) <= count_in_state(slots, state),
    decreases slots.len() - i,
{
    if i == slots.len() {
        assert(slots.take(i) =~= slots);
    } else {
        lemma_count_prefix_step(slots, i, state);
        lemma_count_prefix_bounded(slots, i + 1, state);
    }
}

/// A payout empties the `Staked` state into the `Eligible` state and leaves
/// the `Empty` items alone.
pub proof fn lemma_promote_counts(slots: Seq<BalanceItemView>, earned: nat)
    ensures
        count_in_state(promote_staked(slots, earned), SlotState::Staked) == 0,
        count_in_state(promote_staked(slots, earned), SlotState::Eligible) == count_in_state(
            slots,
            SlotState::Eligible,
        ) + count_in_state(slots, SlotState::Staked),
        count_in_state(promote_staked(slots, earned), SlotState::Empty) == count_in_state(
            slots,
            SlotState::Empty,
        ),
    decreases slots.len(),
{
    if slots.len() > 0 {
        assert(promote_staked(slots, earned).drop_last() =~= promote_staked(
            slots.drop_last(),
            earned,
        ));
        lemma_promote_counts(slots.drop_last(), earned);
    }
}

/// A payout adds the earnings to the sum of balances once for each item that
/// was `Staked`.
pub proof fn lemma_promote_total(slots: Seq<BalanceItemView>, earned: nat)
    ensures
        total_balance(promote_staked(slots, earned)) == total_balance(slots) + earned
            * count_in_state(slots, SlotState::Staked),
    decreases slots.len(),
{
    if slots.len() > 0 {
        let front = slots.drop_last();
        assert(promote_staked(slots, earned).drop_last() =~= promote_staked(front, earned));
        lemma_promote_total(front, earned);
        let k = count_in_state(front, SlotState::Staked);
        assert(earned * (k + 1) == earned * k + earned) by (nonlinear_arith);
    } else {
        assert(earned * 0 == 0) by (nonlinear_arith);
    }
}

/// A payout moves no item into or out of the `Empty` state, so the first
/// empty item stays where it is.
pub proof fn lemma_promote_first_empty(slots: Seq<BalanceItemView>, earned: nat)
    ensures
        first_empty(promote_staked(slots, earned)) == first_empty(slots),
{
    lemma_first_empty(slots);
    let promoted = promote_staked(slots, earned);
    let f = first_empty(slots) as int;
    assert forall|j: int| 0 <= j < f implies (#[trigger] promoted[j]).state
        != SlotState::Empty by {
        assert(slots[j].state != SlotState::Empty);
    }
    lemma_first_empty_unique(promoted, f);
}

} // verus!
