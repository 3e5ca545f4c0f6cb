use token_ledger::ledger::{AccountId, Ledger, LedgerError};

fn acct(n: u64) -> AccountId {
    AccountId { id: n }
}

#[test]
fn mint_within_cap() {
    let mut l = Ledger::init(1000);
    assert_eq!(l.mint(acct(1), 400), Ok(()));
    assert_eq!(l.total_supply(), 400);
    assert_eq!(l.balance_of(acct(1)), 400);
}

#[test]
fn mint_beyond_cap_rejected() {
    let mut l = Ledger::init(1000);
    assert_eq!(l.mint(acct(1), 400), Ok(()));
    assert_eq!(l.mint(acct(1), 700), Err(LedgerError::SupplyExceeded));
    assert_eq!(l.total_supply(), 400);
    assert_eq!(l.balance_of(acct(1)), 400);
}

#[test]
fn delegated_transfer_consumes_allowance() {
    let mut l = Ledger::init(1000);
    let (a, b, c) = (acct(1), acct(2), acct(3));
    assert_eq!(l.mint(a, 400), Ok(()));
    assert_eq!(l.approve(a, b, 100), Ok(()));
    assert_eq!(l.transfer(b, a, c, 60), Ok(()));
    assert_eq!(l.balance_of(a), 340);
    assert_eq!(l.balance_of(c), 60);
    assert_eq!(l.allowance(a, b), 40);
}

#[test]
fn transfer_insufficient_allowance() {
    let mut l = Ledger::init(1000);
    let (a, b, c) = (acct(1), acct(2), acct(3));
    assert_eq!(l.mint(a, 400), Ok(()));
    assert_eq!(l.approve(a, b, 40), Ok(()));
    assert_eq!(l.transfer(b, a, c, 1000), Err(LedgerError::InsufficientAllowance));
    assert_eq!(l.balance_of(a), 400);
    assert_eq!(l.balance_of(c), 0);
    assert_eq!(l.allowance(a, b), 40);
}

#[test]
fn burn_insufficient_balance() {
    let mut l = Ledger::init(1000);
    let a = acct(1);
    assert_eq!(l.mint(a, 340), Ok(()));
    assert_eq!(l.burn(a, 500), Err(LedgerError::InsufficientBalance));
    assert_eq!(l.total_supply(), 340);
    assert_eq!(l.balance_of(a), 340);
}

#[test]
fn self_transfer_checks_balance() {
    let mut l = Ledger::init(1000);
    let a = acct(1);
    assert_eq!(l.mint(a, 340), Ok(()));
    assert_eq!(l.transfer(a, a, a, 50), Ok(()));
    assert_eq!(l.balance_of(a), 340);
    assert_eq!(l.transfer(a, a, a, 1000), Err(LedgerError::InsufficientBalance));
    assert_eq!(l.balance_of(a), 340);
}

#[test]
fn mint_zero_is_noop_success() {
    let mut l = Ledger::init(10);
    assert_eq!(l.mint(acct(1), 0), Ok(()));
    assert_eq!(l.total_supply(), 0);
    assert_eq!(l.balance_of(acct(1)), 0);
}

#[test]
fn mint_creates_account_lazily() {
    let mut l = Ledger::init(100);
    let (a, b) = (acct(1), acct(2));
    assert_eq!(l.approve(a, b, 5), Err(LedgerError::AccountNotFound));
    assert_eq!(l.mint(a, 0), Ok(()));
    assert_eq!(l.approve(a, b, 5), Ok(()));
}

#[test]
fn approve_overwrites_not_adds() {
    let mut l = Ledger::init(100);
    let (a, b) = (acct(1), acct(2));
    assert_eq!(l.mint(a, 10), Ok(()));
    assert_eq!(l.approve(a, b, 100), Ok(()));
    assert_eq!(l.approve(a, b, 100), Ok(()));
    assert_eq!(l.allowance(a, b), 100);
    assert_eq!(l.approve(a, b, 30), Ok(()));
    assert_eq!(l.allowance(a, b), 30);
}

#[test]
fn approve_zero_revokes() {
    let mut l = Ledger::init(100);
    let (a, b, c) = (acct(1), acct(2), acct(3));
    assert_eq!(l.mint(a, 10), Ok(()));
    assert_eq!(l.approve(a, b, 50), Ok(()));
    assert_eq!(l.approve(a, b, 0), Ok(()));
    assert_eq!(l.allowance(a, b), 0);
    assert_eq!(l.transfer(b, a, c, 1), Err(LedgerError::InsufficientAllowance));
}

#[test]
fn burn_missing_account() {
    let mut l = Ledger::init(100);
    assert_eq!(l.burn(acct(9), 1), Err(LedgerError::AccountNotFound));
    assert_eq!(l.total_supply(), 0);
}

#[test]
fn burn_to_zero_retains_account() {
    let mut l = Ledger::init(100);
    let (a, b) = (acct(1), acct(2));
    assert_eq!(l.mint(a, 100), Ok(()));
    assert_eq!(l.burn(a, 100), Ok(()));
    assert_eq!(l.balance_of(a), 0);
    assert_eq!(l.total_supply(), 0);
    assert_eq!(l.approve(a, b, 5), Ok(()));
}

#[test]
fn burn_reduces_supply() {
    let mut l = Ledger::init(100);
    let a = acct(1);
    assert_eq!(l.mint(a, 100), Ok(()));
    assert_eq!(l.burn(a, 30), Ok(()));
    assert_eq!(l.total_supply(), 70);
    assert_eq!(l.balance_of(a), 70);
}

#[test]
fn transfer_missing_sender() {
    let mut l = Ledger::init(100);
    assert_eq!(l.transfer(acct(1), acct(1), acct(2), 1), Err(LedgerError::AccountNotFound));
}

#[test]
fn transfer_not_authorized_without_entry() {
    let mut l = Ledger::init(100);
    let (a, b, c) = (acct(1), acct(2), acct(3));
    assert_eq!(l.mint(a, 100), Ok(()));
    assert_eq!(l.transfer(b, a, c, 10), Err(LedgerError::NotAuthorized));
    assert_eq!(l.balance_of(a), 100);
}

#[test]
fn transfer_direct_insufficient_balance() {
    let mut l = Ledger::init(1000);
    let (a, b) = (acct(1), acct(2));
    assert_eq!(l.mint(a, 100), Ok(()));
    assert_eq!(l.transfer(a, a, b, 200), Err(LedgerError::InsufficientBalance));
    assert_eq!(l.balance_of(a), 100);
    assert_eq!(l.balance_of(b), 0);
}

#[test]
fn transfer_creates_recipient() {
    let mut l = Ledger::init(1000);
    let (a, b) = (acct(1), acct(2));
    assert_eq!(l.mint(a, 100), Ok(()));
    assert_eq!(l.transfer(a, a, b, 40), Ok(()));
    assert_eq!(l.balance_of(a), 60);
    assert_eq!(l.balance_of(b), 40);
    assert_eq!(l.total_supply(), 100);
}

#[test]
fn allowance_zero_when_absent() {
    let l = Ledger::init(100);
    assert_eq!(l.allowance(acct(1), acct(2)), 0);
}

#[test]
fn delegated_self_transfer_consumes_allowance() {
    let mut l = Ledger::init(1000);
    let (a, b) = (acct(1), acct(2));
    assert_eq!(l.mint(a, 100), Ok(()));
    assert_eq!(l.approve(a, b, 50), Ok(()));
    assert_eq!(l.transfer(b, a, a, 20), Ok(()));
    assert_eq!(l.balance_of(a), 100);
    assert_eq!(l.allowance(a, b), 30);
}

#[test]
fn allowance_check_precedes_balance_check() {
    let mut l = Ledger::init(1000);
    let (a, b, c) = (acct(1), acct(2), acct(3));
    assert_eq!(l.mint(a, 10), Ok(()));
    assert_eq!(l.approve(a, b, 5), Ok(()));
    assert_eq!(l.transfer(b, a, c, 50), Err(LedgerError::InsufficientAllowance));
}

#[test]
fn supply_cap_boundary() {
    let mut l = Ledger::init(100);
    let (a, b) = (acct(1), acct(2));
    assert_eq!(l.mint(a, 100), Ok(()));
    assert_eq!(l.mint(b, 1), Err(LedgerError::SupplyExceeded));
    assert_eq!(l.mint(b, 0), Ok(()));
    assert_eq!(l.total_supply(), 100);
}

#[test]
fn max_supply_query() {
    let l = Ledger::init(777);
    assert_eq!(l.max_supply(), 777);
    assert_eq!(l.total_supply(), 0);
}

#[test]
fn transfer_conserves_total_supply() {
    let mut l = Ledger::init(1000);
    let (a, b, c) = (acct(1), acct(2), acct(3));
    assert_eq!(l.mint(a, 500), Ok(()));
    assert_eq!(l.transfer(a, a, b, 200), Ok(()));
    assert_eq!(l.transfer(b, b, c, 50), Ok(()));
    assert_eq!(l.total_supply(), 500);
    assert_eq!(l.balance_of(a), 300);
    assert_eq!(l.balance_of(b), 150);
    assert_eq!(l.balance_of(c), 50);
}
