use staking_vault::constants::MAX_NFT_PER_USER;
use staking_vault::errors::CustomError;
use staking_vault::model::SlotState;
use staking_vault::pubkey::Pubkey;
use staking_vault::state::{BalanceItem, Payout, StakedNft, User, Vault};
use staking_vault::user::handle_create_stake_account;
use staking_vault::vault::{handle_start_payout_schedule, handle_vault_initialization};

fn admin() -> Pubkey {
    Pubkey::new_from_array([1; 32])
}

fn mint(n: u16) -> Pubkey {
    let mut bytes = [0u8; 32];
    bytes[0] = (n & 0xff) as u8;
    bytes[1] = (n >> 8) as u8;
    bytes[31] = 0xaa;
    Pubkey::new_from_array(bytes)
}

fn owner(tag: u8) -> Pubkey {
    Pubkey::new_from_array([tag; 32])
}

fn vault_of(capacity: u32) -> Vault {
    handle_vault_initialization(admin(), admin(), 100, 1000, 0, 0, 0, capacity)
}

#[test]
fn created_record_is_empty() {
    let user = handle_create_stake_account(owner(5), 253);
    assert_eq!(user.key, owner(5));
    assert_eq!(user.bump, 253);
    assert_eq!(user.eligible_count, 0);
    assert_eq!(user.mint_staked_count, 0);
    assert!(user.staked_items.is_empty());
    assert!(user.is_well_formed());
    assert!(user.is_attached_to(&vault_of(0)));
    assert!(user.is_attached_to(&vault_of(3)));
}

#[test]
fn add_item_appends_a_reference_to_the_new_slot() {
    let mut vault = vault_of(4);
    let mut user = handle_create_stake_account(owner(5), 0);
    assert_eq!(user.add_item(&mut vault, mint(1)), Ok(()));
    assert_eq!(user.add_item(&mut vault, mint(2)), Ok(()));
    assert_eq!(
        user.staked_items,
        vec![StakedNft { index: 0, mint: mint(1) }, StakedNft { index: 1, mint: mint(2) }]
    );
    assert_eq!(user.mint_staked_count, 2);
    assert_eq!(user.eligible_count, 2);
    assert_eq!(vault.total_staked_count, 2);
    assert_eq!(vault.total_eligible_count, 2);
    assert!(user.is_well_formed());
    assert!(user.is_attached_to(&vault));
}

#[test]
fn add_item_while_schedule_runs_is_not_counted_eligible() {
    let mut vault = vault_of(4);
    handle_start_payout_schedule(&mut vault, admin(), 10).unwrap();
    let mut user = handle_create_stake_account(owner(5), 0);
    assert_eq!(user.add_item(&mut vault, mint(1)), Ok(()));
    assert_eq!(user.mint_staked_count, 1);
    assert_eq!(user.eligible_count, 0);
    assert_eq!(vault.total_balance_items[0].state, SlotState::Staked);
    assert!(user.is_attached_to(&vault));
}

#[test]
fn add_item_twice_is_already_staked() {
    let mut vault = vault_of(4);
    let mut user = handle_create_stake_account(owner(5), 0);
    user.add_item(&mut vault, mint(1)).unwrap();
    let (user_before, vault_before) = (user.clone(), vault.clone());
    assert_eq!(user.add_item(&mut vault, mint(1)), Err(CustomError::AlreadyStaked));
    assert_eq!(user, user_before);
    assert_eq!(vault, vault_before);
}

#[test]
fn add_item_into_a_full_vault_is_vault_full() {
    let mut vault = vault_of(1);
    let mut user = handle_create_stake_account(owner(5), 0);
    user.add_item(&mut vault, mint(1)).unwrap();
    let (user_before, vault_before) = (user.clone(), vault.clone());
    assert_eq!(user.add_item(&mut vault, mint(2)), Err(CustomError::VaultFull));
    assert_eq!(user, user_before);
    assert_eq!(vault, vault_before);
}

#[test]
fn add_item_into_a_full_record_is_max_staked() {
    let mut vault = vault_of(MAX_NFT_PER_USER as u32 + 10);
    let mut user = handle_create_stake_account(owner(5), 0);
    for n in 0..MAX_NFT_PER_USER {
        assert_eq!(user.add_item(&mut vault, mint(n as u16)), Ok(()));
    }
    assert_eq!(user.mint_staked_count as usize, MAX_NFT_PER_USER);
    assert_eq!(MAX_NFT_PER_USER, 200);
    let (user_before, vault_before) = (user.clone(), vault.clone());
    assert_eq!(user.add_item(&mut vault, mint(1000)), Err(CustomError::MaxStaked));
    // an item that is staked already is told so first
    assert_eq!(user.add_item(&mut vault, mint(3)), Err(CustomError::AlreadyStaked));
    assert_eq!(user, user_before);
    assert_eq!(vault, vault_before);
    assert!(user.is_well_formed());
    assert!(user.is_attached_to(&vault));
}

#[test]
fn remove_item_undoes_add_item() {
    let mut vault = vault_of(4);
    let mut user = handle_create_stake_account(owner(5), 0);
    user.add_item(&mut vault, mint(1)).unwrap();
    let (user_before, vault_before) = (user.clone(), vault.clone());
    user.add_item(&mut vault, mint(2)).unwrap();
    assert_eq!(user.remove_item(&mut vault, mint(2)), Ok(()));
    assert_eq!(user, user_before);
    assert_eq!(vault, vault_before);
}

#[test]
fn remove_item_undoes_add_item_while_schedule_runs() {
    let mut vault = vault_of(4);
    let mut user = handle_create_stake_account(owner(5), 0);
    user.add_item(&mut vault, mint(1)).unwrap();
    handle_start_payout_schedule(&mut vault, admin(), 10).unwrap();
    let (user_before, vault_before) = (user.clone(), vault.clone());
    user.add_item(&mut vault, mint(2)).unwrap();
    assert_eq!(vault.total_balance_items[1].state, SlotState::Staked);
    assert_eq!(user.remove_item(&mut vault, mint(2)), Ok(()));
    assert_eq!(user, user_before);
    assert_eq!(vault, vault_before);
}

#[test]
fn remove_item_releases_the_slot_it_refers_to() {
    let mut vault = vault_of(4);
    let mut first = handle_create_stake_account(owner(5), 0);
    let mut second = handle_create_stake_account(owner(6), 0);
    first.add_item(&mut vault, mint(1)).unwrap();
    second.add_item(&mut vault, mint(2)).unwrap();
    second.add_item(&mut vault, mint(3)).unwrap();
    // the item is the first of the record, and refers to slot 1
    assert_eq!(second.staked_items[0], StakedNft { index: 1, mint: mint(2) });
    assert_eq!(second.remove_item(&mut vault, mint(2)), Ok(()));
    assert_eq!(vault.total_balance_items[0].state, SlotState::Eligible);
    assert_eq!(vault.total_balance_items[1].state, SlotState::Empty);
    assert_eq!(vault.total_balance_items[2].state, SlotState::Eligible);
    assert_eq!(second.staked_items, vec![StakedNft { index: 2, mint: mint(3) }]);
    assert_eq!(second.mint_staked_count, 1);
    assert_eq!(second.eligible_count, 1);
    assert_eq!(vault.total_staked_count, 2);
    assert_eq!(vault.total_eligible_count, 2);
    assert!(first.is_attached_to(&vault));
    assert!(second.is_attached_to(&vault));
}

#[test]
fn remove_item_keeps_the_order_of_the_others() {
    let mut vault = vault_of(4);
    let mut user = handle_create_stake_account(owner(5), 0);
    for n in 0..4 {
        user.add_item(&mut vault, mint(n)).unwrap();
    }
    user.remove_item(&mut vault, mint(1)).unwrap();
    assert_eq!(
        user.staked_items,
        vec![
            StakedNft { index: 0, mint: mint(0) },
            StakedNft { index: 2, mint: mint(2) },
            StakedNft { index: 3, mint: mint(3) }
        ]
    );
    assert_eq!(user.position(mint(2)), 1);
    assert_eq!(user.position(mint(1)), 3);
}

#[test]
fn remove_item_that_is_not_staked_is_not_found() {
    let mut vault = vault_of(4);
    let mut user = handle_create_stake_account(owner(5), 0);
    assert_eq!(user.remove_item(&mut vault, mint(1)), Err(CustomError::NotFound));
    user.add_item(&mut vault, mint(1)).unwrap();
    let (user_before, vault_before) = (user.clone(), vault.clone());
    assert_eq!(user.remove_item(&mut vault, mint(2)), Err(CustomError::NotFound));
    assert_eq!(user, user_before);
    assert_eq!(vault, vault_before);
}

#[test]
fn remove_item_promoted_behind_the_record_is_a_fault() {
    let mut vault = vault_of(4);
    let mut early = handle_create_stake_account(owner(5), 0);
    let mut late = handle_create_stake_account(owner(6), 0);
    early.add_item(&mut vault, mint(1)).unwrap();
    handle_start_payout_schedule(&mut vault, admin(), 10).unwrap();
    late.add_item(&mut vault, mint(2)).unwrap();
    assert_eq!(late.eligible_count, 0);
    vault.update_payout_round(150).unwrap();
    assert_eq!(vault.total_balance_items[1], BalanceItem { balance: 1000, state: SlotState::Eligible });
    // the record was not told of the promotion and counts no eligible item
    assert!(late.is_attached_to(&vault));
    let (late_before, vault_before) = (late.clone(), vault.clone());
    assert_eq!(late.remove_item(&mut vault, mint(2)), Err(CustomError::ArithmeticFault));
    assert_eq!(late, late_before);
    assert_eq!(vault, vault_before);
}

#[test]
fn claim_sums_and_resets_the_balances_of_the_record() {
    let mut vault = vault_of(5);
    let mut early = handle_create_stake_account(owner(5), 0);
    let mut late = handle_create_stake_account(owner(6), 0);
    let mut other = handle_create_stake_account(owner(7), 0);
    early.add_item(&mut vault, mint(1)).unwrap();
    early.add_item(&mut vault, mint(2)).unwrap();
    handle_start_payout_schedule(&mut vault, admin(), 10).unwrap();
    late.add_item(&mut vault, mint(3)).unwrap();
    other.add_item(&mut vault, mint(4)).unwrap();
    late.add_item(&mut vault, mint(5)).unwrap();
    // three rounds passed at floor(1000 / 2)
    vault.update_payout_round(310).unwrap();
    let late_before = late.clone();
    let vault_before = vault.clone();
    assert_eq!(late.claimable_after(&vault, None), Ok(3000));
    assert_eq!(late.claim(&mut vault), Ok(3000));
    assert_eq!(late, late_before);
    assert_eq!(vault.total_balance_items[2], BalanceItem { balance: 0, state: SlotState::Eligible });
    assert_eq!(vault.total_balance_items[3], BalanceItem { balance: 1500, state: SlotState::Eligible });
    assert_eq!(vault.total_balance_items[4], BalanceItem { balance: 0, state: SlotState::Eligible });
    assert_eq!(vault.total_staked_count, vault_before.total_staked_count);
    assert_eq!(vault.total_eligible_count, vault_before.total_eligible_count);
    assert_eq!(vault.total_amount, vault_before.total_amount);
    assert_eq!(late.claim(&mut vault), Ok(0));
    assert_eq!(early.claim(&mut vault), Ok(0));
    assert_eq!(other.claim(&mut vault), Ok(1500));
}

#[test]
fn claim_of_an_empty_record_is_nothing() {
    let mut vault = vault_of(2);
    let mut user = handle_create_stake_account(owner(5), 0);
    let before = vault.clone();
    assert_eq!(user.claim(&mut vault), Ok(0));
    assert_eq!(vault, before);
}

#[test]
fn claim_beyond_the_machine_range_is_a_fault() {
    let mut vault = handle_vault_initialization(admin(), admin(), 1, u64::MAX, 0, 0, 0, 3);
    let mut early = handle_create_stake_account(owner(5), 0);
    let mut late = handle_create_stake_account(owner(6), 0);
    early.add_item(&mut vault, mint(1)).unwrap();
    handle_start_payout_schedule(&mut vault, admin(), 1).unwrap();
    late.add_item(&mut vault, mint(2)).unwrap();
    late.add_item(&mut vault, mint(3)).unwrap();
    vault.update_payout_round(2).unwrap();
    assert_eq!(vault.total_balance_items[1].balance, u64::MAX);
    assert_eq!(vault.total_balance_items[2].balance, u64::MAX);
    let before = vault.clone();
    assert_eq!(late.claim(&mut vault), Err(CustomError::ArithmeticFault));
    assert_eq!(vault, before);
}

#[test]
fn claimable_after_a_payout_counts_the_earnings_of_staked_slots() {
    let mut vault = vault_of(4);
    let mut early = handle_create_stake_account(owner(5), 0);
    let mut late = handle_create_stake_account(owner(6), 0);
    early.add_item(&mut vault, mint(1)).unwrap();
    handle_start_payout_schedule(&mut vault, admin(), 10).unwrap();
    late.add_item(&mut vault, mint(2)).unwrap();
    late.add_item(&mut vault, mint(3)).unwrap();
    let payout = Payout { round: 2, earned: 40 };
    assert_eq!(late.claimable_after(&vault, Some(payout)), Ok(80));
    assert_eq!(early.claimable_after(&vault, Some(payout)), Ok(0));
    assert_eq!(late.claimable_after(&vault, None), Ok(0));
}

#[test]
fn checks_see_a_record_that_is_not_well_formed() {
    let mut vault = vault_of(4);
    let mut user = handle_create_stake_account(owner(5), 0);
    user.add_item(&mut vault, mint(1)).unwrap();
    user.add_item(&mut vault, mint(2)).unwrap();
    assert!(user.is_well_formed());
    let mut wrong = user.clone();
    wrong.mint_staked_count = 3;
    assert!(!wrong.is_well_formed());
    let mut wrong = user.clone();
    wrong.eligible_count = 3;
    assert!(!wrong.is_well_formed());
    let mut wrong = user.clone();
    wrong.staked_items[1].mint = mint(1);
    assert!(!wrong.is_well_formed());
    let mut wrong = user.clone();
    for n in 10..(10 + MAX_NFT_PER_USER as u16) {
        wrong.staked_items.push(StakedNft { index: 0, mint: mint(n) });
    }
    wrong.mint_staked_count = wrong.staked_items.len() as u32;
    assert!(!wrong.is_well_formed());
}

#[test]
fn checks_see_a_record_that_does_not_belong_to_the_vault() {
    let mut vault = vault_of(4);
    let mut user = handle_create_stake_account(owner(5), 0);
    user.add_item(&mut vault, mint(1)).unwrap();
    user.add_item(&mut vault, mint(2)).unwrap();
    assert!(user.is_attached_to(&vault));
    // a vault in which the slots are empty
    assert!(!user.is_attached_to(&vault_of(4)));
    // a vault too small for the references
    assert!(!user.is_attached_to(&vault_of(1)));
    // two references to one slot
    let mut wrong = user.clone();
    wrong.staked_items[1].index = 0;
    assert!(!wrong.is_attached_to(&vault));
    // more eligible items counted than referred to
    let mut running = vault_of(4);
    handle_start_payout_schedule(&mut running, admin(), 10).unwrap();
    let mut late = handle_create_stake_account(owner(6), 0);
    late.add_item(&mut running, mint(1)).unwrap();
    assert!(late.is_attached_to(&running));
    late.eligible_count = 1;
    assert!(late.is_well_formed());
    assert!(!late.is_attached_to(&running));
}
