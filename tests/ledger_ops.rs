use bonded_token::error::TokenError;
use bonded_token::ledger::{BondedToken, Event};

const ADMIN: u64 = 99;

fn funded(who: u64, amount: u128) -> BondedToken {
    let mut t = BondedToken::new(ADMIN);
    t.create_tokens(who, amount).unwrap();
    t
}

#[test]
fn new_ledger_is_empty() {
    let t = BondedToken::new(ADMIN);
    assert_eq!(t.total_supply(), 0);
    assert_eq!(t.reserve(), 0);
    assert!(!t.is_init());
    assert_eq!(t.admin(), ADMIN);
    assert_eq!(t.balance_of(1), 0);
    assert!(!t.account_exists(1));
    assert!(t.events().is_empty());
}

#[test]
fn init_then_create_tokens() {
    let mut t = BondedToken::new(ADMIN);
    assert_eq!(t.init(1, 2, 1), Ok(()));
    assert_eq!(t.create_tokens(1, 10), Ok(()));
    assert_eq!(t.total_supply(), 10);
    assert_eq!(t.balance_of(1), 10);
    assert_eq!(t.events().last(), Some(&Event::Transfer(None, Some(1), 10)));
}

#[test]
fn second_init_is_refused() {
    let mut t = BondedToken::new(ADMIN);
    assert_eq!(t.init(1, 2, 1), Ok(()));
    assert_eq!(t.init(3, 4, 5), Err(TokenError::AlreadyInitialized));
    assert!(t.is_init());
    assert_eq!(t.exponent(), 1);
    assert_eq!(t.slope_n(), 2);
    assert_eq!(t.slope_d(), 1);
}

#[test]
fn transfer_moves_tokens() {
    let mut t = funded(1, 10);
    assert_eq!(t.transfer(1, 2, 4), Ok(()));
    assert_eq!(t.balance_of(1), 6);
    assert_eq!(t.balance_of(2), 4);
    assert_eq!(t.total_supply(), 10);
    assert_eq!(t.events().last(), Some(&Event::Transfer(Some(1), Some(2), 4)));
}

#[test]
fn transfer_without_entry_fails() {
    let mut t = funded(1, 10);
    let events_before = t.events().len();
    assert_eq!(t.transfer(5, 1, 3), Err(TokenError::NoSuchAccount));
    assert_eq!(t.transfer(5, 1, 0), Err(TokenError::NoSuchAccount));
    assert_eq!(t.events().len(), events_before);
    assert_eq!(t.balance_of(1), 10);
    assert!(!t.account_exists(5));
    assert_eq!(t.total_supply(), 10);
}

#[test]
fn transfer_more_than_balance_fails() {
    let mut t = funded(1, 10);
    assert_eq!(t.transfer(1, 2, 11), Err(TokenError::InsufficientBalance));
    assert_eq!(t.balance_of(1), 10);
    assert!(!t.account_exists(2));
}

#[test]
fn transfer_whole_balance_leaves_zero_entry() {
    let mut t = funded(1, 10);
    assert_eq!(t.transfer(1, 2, 10), Ok(()));
    assert_eq!(t.balance_of(1), 0);
    assert!(t.account_exists(1));
    assert_eq!(t.balance_of(2), 10);
}

#[test]
fn burn_whole_balance_leaves_zero_entry() {
    let mut t = funded(1, 10);
    assert_eq!(t.burn(1, 10), Ok(()));
    assert_eq!(t.balance_of(1), 0);
    assert!(t.account_exists(1));
    assert_eq!(t.total_supply(), 0);
    assert_eq!(t.events().last(), Some(&Event::Transfer(Some(1), None, 10)));
}

#[test]
fn burn_more_than_balance_fails() {
    let mut t = funded(1, 10);
    assert_eq!(t.burn(1, 11), Err(TokenError::InsufficientBalance));
    assert_eq!(t.burn(2, 1), Err(TokenError::InsufficientBalance));
    assert_eq!(t.total_supply(), 10);
}

#[test]
fn transfer_to_self_keeps_balance() {
    let mut t = funded(1, 10);
    assert_eq!(t.transfer(1, 1, 7), Ok(()));
    assert_eq!(t.balance_of(1), 10);
    assert_eq!(t.total_supply(), 10);
}

#[test]
fn mint_overflow_is_refused() {
    let mut t = funded(1, u128::MAX);
    assert_eq!(t.mint(2, 1), Err(TokenError::Overflow));
    assert_eq!(t.total_supply(), u128::MAX);
    assert!(!t.account_exists(2));
}

#[test]
fn approve_is_additive() {
    let mut t = funded(1, 10);
    assert_eq!(t.approve(1, 2, 5), Ok(()));
    assert_eq!(t.approve(1, 2, 3), Ok(()));
    assert_eq!(t.allowance(1, 2), 8);
    assert_eq!(t.events().last(), Some(&Event::Approval(1, 2, 8)));
}

#[test]
fn approve_without_entry_fails() {
    let mut t = BondedToken::new(ADMIN);
    assert_eq!(t.approve(1, 2, 5), Err(TokenError::NoSuchAccount));
    assert_eq!(t.allowance(1, 2), 0);
}

#[test]
fn approve_overflow_is_refused() {
    let mut t = funded(1, 10);
    assert_eq!(t.approve(1, 2, u128::MAX), Ok(()));
    assert_eq!(t.approve(1, 2, 1), Err(TokenError::Overflow));
    assert_eq!(t.allowance(1, 2), u128::MAX);
}

#[test]
fn allowances_are_kept_per_pair() {
    let mut t = funded(1, 10);
    t.create_tokens(2, 10).unwrap();
    assert_eq!(t.approve(1, 2, 5), Ok(()));
    assert_eq!(t.approve(2, 1, 7), Ok(()));
    assert_eq!(t.allowance(1, 2), 5);
    assert_eq!(t.allowance(2, 1), 7);
    assert_eq!(t.allowance(1, 3), 0);
}

#[test]
fn transfer_from_draws_on_allowance() {
    let mut t = funded(1, 10);
    assert_eq!(t.approve(1, 2, 6), Ok(()));
    assert_eq!(t.transfer_from(2, 1, 2, 4), Ok(()));
    assert_eq!(t.allowance(1, 2), 2);
    assert_eq!(t.balance_of(1), 6);
    assert_eq!(t.balance_of(2), 4);
    let n = t.events().len();
    assert_eq!(t.events()[n - 2], Event::Approval(1, 2, 2));
    assert_eq!(t.events()[n - 1], Event::Transfer(Some(1), Some(2), 4));
}

#[test]
fn transfer_from_by_other_caller_is_refused() {
    let mut t = funded(1, 10);
    assert_eq!(t.approve(1, 2, 6), Ok(()));
    assert_eq!(t.transfer_from(3, 1, 2, 4), Err(TokenError::Unauthorized));
    assert_eq!(t.allowance(1, 2), 6);
    assert_eq!(t.balance_of(1), 10);
}

#[test]
fn transfer_from_beyond_allowance_is_refused() {
    let mut t = funded(1, 10);
    assert_eq!(t.transfer_from(2, 1, 2, 1), Err(TokenError::InsufficientAllowance));
    assert_eq!(t.approve(1, 2, 3), Ok(()));
    assert_eq!(t.transfer_from(2, 1, 2, 4), Err(TokenError::InsufficientAllowance));
    assert_eq!(t.allowance(1, 2), 3);
}

#[test]
fn transfer_from_without_balance_keeps_allowance() {
    let mut t = funded(1, 2);
    assert_eq!(t.approve(1, 2, 6), Ok(()));
    let events_before = t.events().len();
    assert_eq!(t.transfer_from(2, 1, 2, 5), Err(TokenError::InsufficientBalance));
    assert_eq!(t.allowance(1, 2), 6);
    assert_eq!(t.events().len(), events_before);
}

#[test]
fn supply_equals_sum_of_balances() {
    let mut t = funded(1, 100);
    t.create_tokens(2, 50).unwrap();
    t.transfer(1, 3, 30).unwrap();
    t.approve(2, 3, 20).unwrap();
    t.transfer_from(3, 2, 3, 15).unwrap();
    t.burn(1, 10).unwrap();
    let _ = t.transfer(3, 4, 1000);
    let sum: u128 = [1u64, 2, 3, 4].iter().map(|a| t.balance_of(*a)).sum();
    assert_eq!(sum, t.total_supply());
    assert_eq!(t.total_supply(), 140);
}

#[test]
fn clear_storage_by_admin_empties_ledger() {
    let mut t = funded(1, 10);
    t.init(1, 2, 1).unwrap();
    t.approve(1, 2, 4).unwrap();
    assert_eq!(t.clear_storage(1), Err(TokenError::Unauthorized));
    assert_eq!(t.total_supply(), 10);
    assert_eq!(t.clear_storage(ADMIN), Ok(()));
    assert_eq!(t.total_supply(), 0);
    assert_eq!(t.reserve(), 0);
    assert!(!t.account_exists(1));
    assert_eq!(t.allowance(1, 2), 0);
    assert!(t.is_init());
    assert_eq!(t.exponent(), 1);
}
