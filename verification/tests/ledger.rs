use erc20::Burn;
use erc20::Erc20;
use erc20::Error;
use erc20::Event;
use erc20::Mint;
use erc20::Transfer;

#[test]
fn new_credits_creator_with_whole_supply() {
    let ledger = Erc20::new(1000, 1);
    assert_eq!(ledger.total_supply(), 1000);
    assert_eq!(ledger.balance_of(1), 1000);
    assert!(ledger.events().is_empty());
}

#[test]
fn fresh_account_and_pair_read_zero() {
    let ledger = Erc20::new(1000, 1);
    assert_eq!(ledger.balance_of(2), 0);
    assert_eq!(ledger.balance_of(u64::MAX), 0);
    assert_eq!(ledger.allowance_of(1, 2), 0);
    assert_eq!(ledger.allowance_of(7, 7), 0);
}

#[test]
fn transfer_moves_value_and_emits_one_record() {
    let mut ledger = Erc20::new(1000, 1);
    assert_eq!(ledger.transfer(1, 2, 300), Ok(()));
    assert_eq!(ledger.balance_of(1), 700);
    assert_eq!(ledger.balance_of(2), 300);
    assert_eq!(ledger.total_supply(), 1000);
    assert_eq!(ledger.events().len(), 1);
    assert_eq!(
        ledger.events()[0],
        Event::Transfer(Transfer { from: 1, to: 2, value: 300 })
    );
}

#[test]
fn transfer_without_cover_fails_and_changes_nothing() {
    let mut ledger = Erc20::new(1000, 1);
    assert_eq!(ledger.transfer(1, 2, 300), Ok(()));
    assert_eq!(ledger.transfer(1, 2, 5000), Err(Error::InsufficientBalance));
    assert_eq!(ledger.balance_of(1), 700);
    assert_eq!(ledger.balance_of(2), 300);
    assert_eq!(ledger.total_supply(), 1000);
    assert_eq!(ledger.events().len(), 1);
}

#[test]
fn transfer_of_exact_balance_empties_the_account() {
    let mut ledger = Erc20::new(400, 5);
    assert_eq!(ledger.transfer(5, 6, 400), Ok(()));
    assert_eq!(ledger.balance_of(5), 0);
    assert_eq!(ledger.balance_of(6), 400);
}

#[test]
fn transfer_to_self_changes_no_balance() {
    let mut ledger = Erc20::new(100, 3);
    assert_eq!(ledger.transfer(3, 3, 40), Ok(()));
    assert_eq!(ledger.balance_of(3), 100);
    assert_eq!(ledger.total_supply(), 100);
    assert_eq!(ledger.events().len(), 1);
}

#[test]
fn transfer_of_zero_succeeds_from_any_account() {
    let mut ledger = Erc20::new(100, 3);
    assert_eq!(ledger.transfer(9, 3, 0), Ok(()));
    assert_eq!(ledger.balance_of(9), 0);
    assert_eq!(ledger.balance_of(3), 100);
}

#[test]
fn burn_reduces_balance_and_supply() {
    let mut ledger = Erc20::new(1000, 1);
    assert_eq!(ledger.transfer(1, 2, 300), Ok(()));
    assert_eq!(ledger.burn(1, 200), Ok(()));
    assert_eq!(ledger.balance_of(1), 500);
    assert_eq!(ledger.total_supply(), 800);
    assert_eq!(
        ledger.events()[1],
        Event::Burn(Burn { from: 1, value: 200 })
    );
}

#[test]
fn burn_without_cover_fails_and_changes_nothing() {
    let mut ledger = Erc20::new(100, 1);
    assert_eq!(ledger.burn(1, 101), Err(Error::InsufficientBalance));
    assert_eq!(ledger.balance_of(1), 100);
    assert_eq!(ledger.total_supply(), 100);
    assert!(ledger.events().is_empty());
}

#[test]
fn burn_of_whole_balance_reaches_zero() {
    let mut ledger = Erc20::new(100, 1);
    assert_eq!(ledger.burn(1, 100), Ok(()));
    assert_eq!(ledger.balance_of(1), 0);
    assert_eq!(ledger.total_supply(), 0);
}

#[test]
fn mint_raises_balance_and_supply() {
    let mut ledger = Erc20::new(1000, 1);
    assert_eq!(ledger.transfer(1, 2, 300), Ok(()));
    assert_eq!(ledger.burn(1, 200), Ok(()));
    assert_eq!(ledger.mint(1, 50), Ok(()));
    assert_eq!(ledger.balance_of(1), 550);
    assert_eq!(ledger.total_supply(), 850);
    assert_eq!(
        ledger.events()[2],
        Event::Mint(Mint { from: 1, value: 50 })
    );
}

#[test]
fn mint_by_a_fresh_account_credits_it() {
    let mut ledger = Erc20::new(10, 1);
    assert_eq!(ledger.mint(2, 5), Ok(()));
    assert_eq!(ledger.balance_of(2), 5);
    assert_eq!(ledger.total_supply(), 15);
}

#[test]
fn mint_that_would_overflow_the_supply_fails() {
    let mut ledger = Erc20::new(1000, 1);
    assert_eq!(ledger.mint(2, u128::MAX), Err(Error::Overflow));
    assert_eq!(ledger.balance_of(2), 0);
    assert_eq!(ledger.total_supply(), 1000);
    assert!(ledger.events().is_empty());
}

#[test]
fn mint_up_to_the_largest_supply_succeeds() {
    let mut ledger = Erc20::new(1000, 1);
    assert_eq!(ledger.mint(2, u128::MAX - 1000), Ok(()));
    assert_eq!(ledger.total_supply(), u128::MAX);
    assert_eq!(ledger.mint(3, 1), Err(Error::Overflow));
}

#[test]
fn delegated_transfer_without_approval_fails() {
    let mut ledger = Erc20::new(1000, 1);
    assert_eq!(ledger.transfer_from(9, 1, 3, 1), Err(Error::InsufficientBalance));
    assert_eq!(ledger.balance_of(1), 1000);
    assert_eq!(ledger.balance_of(3), 0);
    assert_eq!(ledger.allowance_of(1, 9), 0);
    assert!(ledger.events().is_empty());
}

#[test]
fn delegated_transfer_of_zero_succeeds_and_emits() {
    let mut ledger = Erc20::new(100, 1);
    assert_eq!(ledger.transfer_from(9, 1, 3, 0), Ok(()));
    assert_eq!(ledger.balance_of(1), 100);
    assert_eq!(ledger.balance_of(3), 0);
    assert_eq!(ledger.allowance_of(1, 9), 0);
    assert_eq!(
        ledger.events()[0],
        Event::Transfer(Transfer { from: 1, to: 3, value: 0 })
    );
}

#[test]
fn full_session_matches_the_expected_ledger() {
    let mut ledger = Erc20::new(1000, 1);
    assert_eq!(ledger.total_supply(), 1000);
    assert_eq!(ledger.balance_of(1), 1000);
    assert_eq!(ledger.transfer(1, 2, 300), Ok(()));
    assert_eq!(ledger.balance_of(1), 700);
    assert_eq!(ledger.balance_of(2), 300);
    assert_eq!(ledger.transfer(1, 2, 5000), Err(Error::InsufficientBalance));
    assert_eq!(ledger.balance_of(1), 700);
    assert_eq!(ledger.balance_of(2), 300);
    assert_eq!(ledger.burn(1, 200), Ok(()));
    assert_eq!(ledger.balance_of(1), 500);
    assert_eq!(ledger.total_supply(), 800);
    assert_eq!(ledger.mint(1, 50), Ok(()));
    assert_eq!(ledger.balance_of(1), 550);
    assert_eq!(ledger.total_supply(), 850);
    assert_eq!(ledger.transfer_from(9, 1, 3, 1), Err(Error::InsufficientBalance));
    assert_eq!(
        ledger.events().as_slice(),
        &[
            Event::Transfer(Transfer { from: 1, to: 2, value: 300 }),
            Event::Burn(Burn { from: 1, value: 200 }),
            Event::Mint(Mint { from: 1, value: 50 }),
        ]
    );
}
