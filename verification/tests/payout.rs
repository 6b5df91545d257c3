use staking_vault::errors::CustomError;
use staking_vault::model::SlotState;
use staking_vault::pubkey::Pubkey;
use staking_vault::state::{BalanceItem, Payout, Vault};
use staking_vault::vault::{handle_start_payout_schedule, handle_vault_initialization};

fn authority() -> Pubkey {
    Pubkey::new_from_array([1; 32])
}

/// A vault with `eligible` items staked before the schedule started at
/// `started`, and `staked` items staked after.
fn running(
    interval: u64,
    amount: u64,
    started: u64,
    eligible: usize,
    staked: usize,
    capacity: u32,
) -> Vault {
    let mut vault =
        handle_vault_initialization(authority(), authority(), interval, amount, 0, 0, 0, capacity);
    for _ in 0..eligible {
        vault.add_balance_item().unwrap();
    }
    handle_start_payout_schedule(&mut vault, authority(), started).unwrap();
    for _ in 0..staked {
        vault.add_balance_item().unwrap();
    }
    vault
}

fn balances(vault: &Vault) -> u128 {
    let mut sum: u128 = 0;
    for item in vault.total_balance_items.iter() {
        sum += item.balance as u128;
    }
    sum
}

#[test]
fn payout_promotes_staked_slots_and_pays_the_rounded_share() {
    // three eligible, two staked; started at 10; now 215 is in round 3
    let mut vault = running(100, 1000, 10, 3, 2, 6);
    assert_eq!(vault.update_payout_round(215), Ok(()));
    assert_eq!(vault.payout_round, 3);
    // floor(1000 / 3) = 333 per round, two rounds passed
    for index in 0..3 {
        assert_eq!(
            vault.total_balance_items[index],
            BalanceItem { balance: 0, state: SlotState::Eligible }
        );
    }
    for index in 3..5 {
        assert_eq!(
            vault.total_balance_items[index],
            BalanceItem { balance: 666, state: SlotState::Eligible }
        );
    }
    assert_eq!(vault.total_balance_items[5], BalanceItem { balance: 0, state: SlotState::Empty });
    assert_eq!(vault.total_eligible_count, 5);
    assert_eq!(vault.total_staked_count, 5);
    assert!(vault.is_well_formed());
}

#[test]
fn payout_conserves_rewards() {
    let mut vault = running(50, 700, 1, 2, 3, 8);
    let before = vault.clone();
    // (601 - 1) / 50 + 1 = 13; twelve rounds passed; share floor(700 / 2) = 350
    vault.update_payout_round(601).unwrap();
    let k: u128 = 3;
    assert_eq!(balances(&vault) - balances(&before), 350 * 12 * k);
    assert_eq!(vault.total_eligible_count, before.total_eligible_count + 3);
    assert_eq!(vault.total_staked_count, before.total_staked_count);
    assert_eq!(vault.payout_round, 13);
}

#[test]
fn payout_twice_at_the_same_time_pays_once() {
    let mut vault = running(100, 1000, 10, 1, 2, 4);
    vault.update_payout_round(320).unwrap();
    let after_first = vault.clone();
    assert_eq!(after_first.payout_round, 4);
    assert_eq!(after_first.total_balance_items[1].balance, 3000);
    assert_eq!(vault.update_payout_round(320), Ok(()));
    assert_eq!(vault, after_first);
    // an earlier time changes nothing either
    assert_eq!(vault.update_payout_round(15), Ok(()));
    assert_eq!(vault, after_first);
    assert_eq!(vault.update_payout_round(0), Ok(()));
    assert_eq!(vault, after_first);
}

#[test]
fn payout_within_the_current_round_changes_nothing() {
    let mut vault = running(100, 1000, 10, 1, 1, 4);
    let before = vault.clone();
    assert_eq!(vault.update_payout_round(10), Ok(()));
    assert_eq!(vault.update_payout_round(109), Ok(()));
    assert_eq!(vault, before);
    // the round boundary is at started + interval
    assert_eq!(vault.update_payout_round(110), Ok(()));
    assert_eq!(vault.payout_round, 2);
    assert_eq!(vault.total_balance_items[1].balance, 1000);
}

#[test]
fn payout_before_the_start_of_the_schedule_changes_nothing() {
    let mut vault = running(100, 1000, 500, 1, 1, 4);
    let before = vault.clone();
    assert_eq!(vault.update_payout_round(499), Ok(()));
    assert_eq!(vault.update_payout_round(0), Ok(()));
    assert_eq!(vault, before);
}

#[test]
fn payout_without_a_schedule_changes_nothing() {
    let mut vault =
        handle_vault_initialization(authority(), authority(), 100, 1000, 0, 0, 0, 3);
    vault.add_balance_item().unwrap();
    let before = vault.clone();
    assert_eq!(vault.update_payout_round(10_000), Ok(()));
    assert_eq!(vault, before);
}

#[test]
fn eligible_slots_are_not_topped_up() {
    let mut vault = running(100, 1000, 10, 2, 1, 4);
    vault.update_payout_round(110).unwrap();
    assert_eq!(vault.total_balance_items[2].balance, 500);
    // the round moves on although no slot is left to be promoted
    vault.update_payout_round(1010).unwrap();
    assert_eq!(vault.payout_round, 11);
    assert_eq!(vault.total_balance_items[0].balance, 0);
    assert_eq!(vault.total_balance_items[1].balance, 0);
    assert_eq!(vault.total_balance_items[2].balance, 500);
}

#[test]
fn payout_adds_to_a_balance_left_in_the_slot() {
    let mut vault = running(100, 1000, 10, 1, 1, 2);
    vault.update_payout_round(110).unwrap();
    assert_eq!(vault.total_balance_items[1].balance, 1000);
    vault.remove_balance_item(1);
    assert_eq!(vault.add_balance_item(), Ok(1));
    assert_eq!(vault.total_balance_items[1], BalanceItem { balance: 1000, state: SlotState::Staked });
    vault.update_payout_round(310).unwrap();
    // two rounds at floor(1000 / 1)
    assert_eq!(vault.total_balance_items[1], BalanceItem { balance: 3000, state: SlotState::Eligible });
}

#[test]
fn payout_with_zero_interval_is_a_fault() {
    let mut vault = running(0, 1000, 10, 1, 1, 2);
    let before = vault.clone();
    assert_eq!(vault.update_payout_round(10), Err(CustomError::ArithmeticFault));
    assert_eq!(vault.update_payout_round(11), Err(CustomError::ArithmeticFault));
    assert_eq!(vault, before);
    // before the start of the schedule nothing is divided
    assert_eq!(vault.update_payout_round(9), Ok(()));
    assert_eq!(vault, before);
}

#[test]
fn payout_with_zero_interval_and_nothing_eligible_changes_nothing() {
    let mut vault = running(0, 1000, 10, 0, 1, 2);
    let before = vault.clone();
    assert_eq!(vault.update_payout_round(11), Ok(()));
    assert_eq!(vault, before);
}

#[test]
fn round_number_beyond_the_machine_range_is_a_fault() {
    let mut vault = running(1, 0, 1, 1, 1, 2);
    let before = vault.clone();
    // round (now - 1) / 1 + 1 = now
    assert_eq!(vault.update_payout_round(u32::MAX as u64 + 1), Err(CustomError::ArithmeticFault));
    assert_eq!(vault.update_payout_round(u64::MAX), Err(CustomError::ArithmeticFault));
    assert_eq!(vault, before);
    assert_eq!(vault.update_payout_round(u32::MAX as u64), Ok(()));
    assert_eq!(vault.payout_round, u32::MAX);
}

#[test]
fn earnings_beyond_the_machine_range_are_a_fault() {
    let mut vault = running(1, u64::MAX, 1, 1, 1, 2);
    let before = vault.clone();
    // two rounds passed: 2 * u64::MAX
    assert_eq!(vault.update_payout_round(3), Err(CustomError::ArithmeticFault));
    assert_eq!(vault, before);
    // one round passed: u64::MAX fits
    assert_eq!(vault.update_payout_round(2), Ok(()));
    assert_eq!(vault.total_balance_items[1].balance, u64::MAX);
}

#[test]
fn balance_beyond_the_machine_range_is_a_fault() {
    let mut vault = running(1, u64::MAX, 1, 1, 2, 3);
    vault.update_payout_round(2).unwrap();
    assert_eq!(vault.total_balance_items[1].balance, u64::MAX);
    // slot 1 is taken again with its balance left in it
    vault.remove_balance_item(1);
    vault.remove_balance_item(2);
    assert_eq!(vault.add_balance_item(), Ok(1));
    assert_eq!(vault.total_eligible_count, 1);
    let before = vault.clone();
    assert_eq!(vault.update_payout_round(3), Err(CustomError::ArithmeticFault));
    assert_eq!(vault, before);
}

#[test]
fn plan_tells_what_the_payout_will_be() {
    let vault = running(100, 1000, 10, 3, 2, 6);
    assert_eq!(vault.plan_payout(9), Ok(None));
    assert_eq!(vault.plan_payout(109), Ok(None));
    assert_eq!(vault.plan_payout(110), Ok(Some(Payout { round: 2, earned: 333 })));
    assert_eq!(vault.plan_payout(215), Ok(Some(Payout { round: 3, earned: 666 })));
}

#[test]
fn applied_payout_promotes_and_moves_the_round() {
    let mut vault = running(100, 1000, 10, 1, 1, 3);
    vault.apply_payout(Payout { round: 9, earned: 12 });
    assert_eq!(vault.payout_round, 9);
    assert_eq!(vault.total_balance_items[0], BalanceItem { balance: 0, state: SlotState::Eligible });
    assert_eq!(vault.total_balance_items[1], BalanceItem { balance: 12, state: SlotState::Eligible });
    assert_eq!(vault.total_balance_items[2], BalanceItem { balance: 0, state: SlotState::Empty });
    assert_eq!(vault.total_eligible_count, 2);
}
