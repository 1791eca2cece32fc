//! The mint, breed and transfer scenarios: success paths and every
//! rejection, each leaving the ledger observably unchanged.

use kitties::Config;
use kitties::Error;
use kitties::Event;
use kitties::Ledger;

const ACCOUNT_WITH_BALANCE_1: u64 = 1;
const ACCOUNT_WITH_BALANCE_2: u64 = 2;
const ACCOUNT_WITH_NO_BALANCE: u64 = 4;

const RESERVE: u64 = 100;

fn new_test_ledger() -> Ledger {
    let mut ledger = Ledger::new(Config {
        max_owned: 3,
        reserve_per_asset: RESERVE,
        max_id: u64::MAX,
    });
    ledger.deposit(ACCOUNT_WITH_BALANCE_1, 1_000);
    ledger.deposit(ACCOUNT_WITH_BALANCE_2, 1_000);
    ledger
}

fn seed() -> [u8; 32] {
    [7u8; 32]
}

#[test]
fn create_success() {
    let mut ledger = new_test_ledger();
    let account_id: u64 = ACCOUNT_WITH_BALANCE_1;
    assert!(ledger.create(account_id, &seed(), 0).is_ok());
}

#[test]
fn create_failed_not_enough_balance() {
    let mut ledger = new_test_ledger();
    let account_id: u64 = ACCOUNT_WITH_NO_BALANCE;
    assert_eq!(
        ledger.create(account_id, &seed(), 0),
        Err(Error::InsufficientFunds)
    );
}

#[test]
fn create_failed_invalid_kitty_id() {
    let mut ledger = new_test_ledger();
    let account_id: u64 = ACCOUNT_WITH_BALANCE_1;
    let max_index = u64::MAX;
    ledger.set_next_id(max_index);
    assert_eq!(
        ledger.create(account_id, &seed(), 0),
        Err(Error::IndexExhausted)
    );
    assert_eq!(ledger.next_kitty_id(), max_index);
}

#[test]
fn create_failed_own_too_many_kitties() {
    let mut ledger = new_test_ledger();
    let account_id: u64 = ACCOUNT_WITH_BALANCE_1;
    assert!(ledger.create(account_id, &seed(), 0).is_ok());
    assert!(ledger.create(account_id, &seed(), 1).is_ok());
    assert!(ledger.create(account_id, &seed(), 2).is_ok());

    let owned_before: Vec<u64> = ledger.owner_kitties(account_id).unwrap().clone();
    assert_eq!(
        ledger.create(account_id, &seed(), 3),
        Err(Error::TooManyOwned)
    );
    // the fourth mint left the account's list with exactly its three
    // entries, unchanged
    assert_eq!(ledger.owner_kitties(account_id).unwrap(), &owned_before);
    assert_eq!(owned_before.len(), 3);
}

#[test]
fn breed_success() {
    let mut ledger = new_test_ledger();
    let account_id: u64 = ACCOUNT_WITH_BALANCE_1;

    let kitty_id_1 = ledger.next_kitty_id();
    assert!(ledger.create(account_id, &seed(), 0).is_ok());

    let kitty_id_2 = ledger.next_kitty_id();
    assert!(ledger.create(account_id, &seed(), 1).is_ok());

    assert!(ledger
        .breed(account_id, kitty_id_1, kitty_id_2, &seed(), 2)
        .is_ok());
}

#[test]
fn breed_failed_same_kitty_id() {
    let mut ledger = new_test_ledger();
    let account_id: u64 = ACCOUNT_WITH_BALANCE_1;

    let kitty_id = ledger.next_kitty_id();
    assert!(ledger.create(account_id, &seed(), 0).is_ok());

    assert_eq!(
        ledger.breed(account_id, kitty_id, kitty_id, &seed(), 1),
        Err(Error::SameAsset)
    );
}

#[test]
fn breed_failed_invalid_kitty_id() {
    let mut ledger = new_test_ledger();
    let account_id: u64 = ACCOUNT_WITH_BALANCE_1;

    let kitty_id = ledger.next_kitty_id();
    assert!(ledger.create(account_id, &seed(), 0).is_ok());

    let invalid_kitty_id = ledger.next_kitty_id();

    assert_eq!(
        ledger.breed(account_id, kitty_id, invalid_kitty_id, &seed(), 1),
        Err(Error::UnknownAsset)
    );
}

#[test]
fn breed_failed_own_too_many_kitties() {
    let mut ledger = new_test_ledger();
    let account_id: u64 = ACCOUNT_WITH_BALANCE_1;

    let kitty_id_1 = ledger.next_kitty_id();
    assert!(ledger.create(account_id, &seed(), 0).is_ok());

    let kitty_id_2 = ledger.next_kitty_id();
    assert!(ledger.create(account_id, &seed(), 1).is_ok());

    assert!(ledger.create(account_id, &seed(), 2).is_ok());

    assert_eq!(
        ledger.breed(account_id, kitty_id_1, kitty_id_2, &seed(), 3),
        Err(Error::TooManyOwned)
    );
}

#[test]
fn transfor_success() {
    let mut ledger = new_test_ledger();
    let account_id_1: u64 = ACCOUNT_WITH_BALANCE_1;
    let account_id_2: u64 = ACCOUNT_WITH_BALANCE_2;

    let kitty_id = ledger.next_kitty_id();
    assert!(ledger.create(account_id_1, &seed(), 0).is_ok());

    assert!(ledger.transfer(account_id_1, kitty_id, account_id_2).is_ok());
    assert_eq!(ledger.kitty_owner(kitty_id), Some(account_id_2));
    assert_eq!(
        ledger.events().last(),
        Some(&Event::Transferred(account_id_1, account_id_2, kitty_id))
    );
}

#[test]
fn transfer_failed_not_enough_balance() {
    let mut ledger = new_test_ledger();
    let account_id_1: u64 = ACCOUNT_WITH_BALANCE_1;
    let account_id_2: u64 = ACCOUNT_WITH_NO_BALANCE;

    let kitty_id = ledger.next_kitty_id();
    assert!(ledger.create(account_id_1, &seed(), 0).is_ok());

    assert_eq!(
        ledger.transfer(account_id_1, kitty_id, account_id_2),
        Err(Error::InsufficientFunds)
    );
    // the failed transfer changed nothing: the sender still owns the
    // creature, its bond is still locked, its list still names the id
    assert_eq!(ledger.kitty_owner(kitty_id), Some(account_id_1));
    assert_eq!(ledger.reserved_balance(account_id_1), RESERVE);
    assert!(ledger
        .owner_kitties(account_id_1)
        .unwrap()
        .contains(&kitty_id));
}

#[test]
fn transfer_failed_not_owner() {
    let mut ledger = new_test_ledger();
    let account_id_1: u64 = ACCOUNT_WITH_BALANCE_1;
    let account_id_2: u64 = ACCOUNT_WITH_BALANCE_2;

    let kitty_id = ledger.next_kitty_id();
    assert!(ledger.create(account_id_2, &seed(), 0).is_ok());

    assert_eq!(
        ledger.transfer(account_id_1, kitty_id, account_id_2),
        Err(Error::NotOwner)
    );
}

#[test]
fn transfer_failed_own_too_many_kitties() {
    let mut ledger = new_test_ledger();
    let account_id_1: u64 = ACCOUNT_WITH_BALANCE_2;
    let account_id_2: u64 = ACCOUNT_WITH_BALANCE_1;

    let kitty_id = ledger.next_kitty_id();
    assert!(ledger.create(account_id_1, &seed(), 0).is_ok());

    assert!(ledger.create(account_id_2, &seed(), 1).is_ok());
    assert!(ledger.create(account_id_2, &seed(), 2).is_ok());
    assert!(ledger.create(account_id_2, &seed(), 3).is_ok());

    assert_eq!(
        ledger.transfer(account_id_1, kitty_id, account_id_2),
        Err(Error::TooManyOwned)
    );
}
