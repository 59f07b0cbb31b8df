use etf_vault::account::AccountId;
use etf_vault::fungible_token::{Erc20, Error, FungibleToken, TRANSFER_FROM_SELECTOR};

fn alice() -> AccountId {
    AccountId([0x01; 32])
}

fn bob() -> AccountId {
    AccountId([0x02; 32])
}

fn charlie() -> AccountId {
    AccountId([0x03; 32])
}

fn my_token(total_supply: u128) -> FungibleToken {
    FungibleToken::new(alice(), "MyToken".to_string(), "MTK".to_string(), total_supply)
}

#[test]
fn total_supply_works() {
    let name = "MyToken".to_string();
    let symbol = "MTK".to_string();
    let total_supply = 100;
    let mytoken = FungibleToken::new(alice(), name, symbol, total_supply);
    assert_eq!(mytoken.total_supply(), 100);
}

#[test]
fn balance_of_works() {
    let name = "MyToken".to_string();
    let symbol = "MTK".to_string();
    let total_supply = 100;
    let mytoken = FungibleToken::new(alice(), name, symbol, total_supply);
    assert_eq!(mytoken.balance_of(alice()), 100);
    assert_eq!(mytoken.balance_of(bob()), 0);
}

#[test]
fn transfer_works() {
    let name = "MyToken".to_string();
    let symbol = "MTK".to_string();
    let total_supply = 100;
    let quantity_to_bob = 10;
    let mut mytoken = FungibleToken::new(alice(), name, symbol, total_supply);

    assert_eq!(mytoken.balance_of(bob()), 0);
    assert_eq!(
        mytoken.transfer(alice(), bob(), quantity_to_bob),
        Ok(total_supply - quantity_to_bob)
    );
    assert_eq!(mytoken.balance_of(bob()), quantity_to_bob);
}

#[test]
fn mint_to_works() {
    let total_supply = 100;
    let quantity_to_bob = 10;
    let name = "MyToken".to_string();
    let symbol = "MTK".to_string();

    let mut mytoken = FungibleToken::new(alice(), name, symbol, total_supply);

    assert_eq!(mytoken.balance_of(bob()), 0);
    mytoken.mint_to(alice(), bob(), quantity_to_bob);
    assert_eq!(mytoken.balance_of(bob()), quantity_to_bob);
    assert_eq!(mytoken.total_supply(), total_supply + quantity_to_bob);
}

#[test]
fn token_reports_name_symbol_and_owner() {
    let mytoken = my_token(100);
    assert_eq!(mytoken.get_name(), "MyToken");
    assert_eq!(mytoken.get_symbol(), "MTK");
    assert_eq!(mytoken.get_owner(), alice());
}

#[test]
fn token_transfer_beyond_balance_is_refused() {
    let mut mytoken = my_token(100);
    assert_eq!(mytoken.transfer(alice(), bob(), 101), Err(Error::InsufficientBalance));
    assert_eq!(mytoken.transfer(bob(), alice(), 1), Err(Error::InsufficientBalance));
    assert_eq!(mytoken.balance_of(alice()), 100);
    assert_eq!(mytoken.balance_of(bob()), 0);
    assert_eq!(mytoken.total_supply(), 100);
}

#[test]
fn token_transfer_of_whole_balance_leaves_zero() {
    let mut mytoken = my_token(100);
    assert_eq!(mytoken.transfer(alice(), bob(), 100), Ok(0));
    assert_eq!(mytoken.balance_of(alice()), 0);
    assert_eq!(mytoken.balance_of(bob()), 100);
}

#[test]
fn token_transfer_of_nothing_succeeds() {
    let mut mytoken = my_token(100);
    assert_eq!(mytoken.transfer(bob(), charlie(), 0), Ok(0));
    assert_eq!(mytoken.transfer(alice(), bob(), 0), Ok(100));
    assert_eq!(mytoken.balance_of(bob()), 0);
}

#[test]
fn token_transfer_to_oneself_changes_nothing() {
    let mut mytoken = my_token(100);
    assert_eq!(mytoken.transfer(alice(), alice(), 40), Ok(100));
    assert_eq!(mytoken.balance_of(alice()), 100);
    assert_eq!(mytoken.transfer_from(alice(), alice(), 100), Ok(100));
    assert_eq!(mytoken.balance_of(alice()), 100);
    assert_eq!(mytoken.transfer(alice(), alice(), 101), Err(Error::InsufficientBalance));
}

#[test]
fn token_transfer_from_moves_without_asking_who_calls() {
    let mut mytoken = my_token(100);
    assert_eq!(mytoken.transfer_from(alice(), bob(), 30), Ok(70));
    assert_eq!(mytoken.transfer_from(bob(), charlie(), 10), Ok(20));
    assert_eq!(mytoken.balance_of(alice()), 70);
    assert_eq!(mytoken.balance_of(bob()), 20);
    assert_eq!(mytoken.balance_of(charlie()), 10);
    assert_eq!(mytoken.transfer_from(charlie(), alice(), 11), Err(Error::InsufficientBalance));
    assert_eq!(mytoken.total_supply(), 100);
}

#[test]
fn token_balances_add_up_to_the_supply() {
    let mut mytoken = my_token(1_000);
    mytoken.mint_to(alice(), bob(), 250);
    mytoken.mint_to(alice(), charlie(), 50);
    assert_eq!(mytoken.transfer(bob(), charlie(), 125), Ok(125));
    assert_eq!(mytoken.transfer(alice(), bob(), 1_000), Ok(0));
    let sum =
        mytoken.balance_of(alice()) + mytoken.balance_of(bob()) + mytoken.balance_of(charlie());
    assert_eq!(sum, 1_300);
    assert_eq!(mytoken.total_supply(), 1_300);
}

#[test]
fn token_holding_the_largest_supply_still_transfers() {
    let mut mytoken = my_token(u128::MAX);
    assert_eq!(mytoken.transfer(alice(), bob(), u128::MAX), Ok(0));
    assert_eq!(mytoken.balance_of(bob()), u128::MAX);
    assert_eq!(mytoken.transfer(bob(), alice(), 1), Ok(u128::MAX - 1));
    assert_eq!(mytoken.balance_of(alice()), 1);
}

#[test]
fn token_mint_to_raises_one_balance_only() {
    let mut mytoken = my_token(0);
    mytoken.mint_to(alice(), alice(), 7);
    mytoken.mint_to(alice(), alice(), 0);
    assert_eq!(mytoken.balance_of(alice()), 7);
    assert_eq!(mytoken.balance_of(bob()), 0);
    assert_eq!(mytoken.total_supply(), 7);
}

#[test]
fn token_selector_is_six() {
    assert_eq!(TRANSFER_FROM_SELECTOR, [0, 0, 0, 6]);
}

#[test]
fn token_holdings_restore_the_token() {
    let mut mytoken = my_token(100);
    assert_eq!(mytoken.transfer(alice(), bob(), 10), Ok(90));
    assert_eq!(mytoken.holdings(), vec![(alice(), 90), (bob(), 10)]);
    let back = FungibleToken::restore(
        mytoken.get_name(),
        mytoken.get_symbol(),
        mytoken.get_owner(),
        mytoken.total_supply(),
        &mytoken.holdings(),
    )
    .unwrap();
    assert_eq!(back.get_name(), "MyToken");
    assert_eq!(back.get_symbol(), "MTK");
    assert_eq!(back.get_owner(), alice());
    assert_eq!(back.total_supply(), 100);
    assert_eq!(back.balance_of(alice()), 90);
    assert_eq!(back.balance_of(bob()), 10);
    assert_eq!(back.balance_of(charlie()), 0);
}

#[test]
fn token_restore_refuses_holdings_that_miss_the_supply() {
    let restored = |supply: u128, holdings: Vec<(AccountId, u128)>| {
        FungibleToken::restore("MyToken".to_string(), "MTK".to_string(), alice(), supply, &holdings)
    };
    assert!(restored(100, vec![(alice(), 99)]).is_none());
    assert!(restored(100, vec![(alice(), 90), (bob(), 11)]).is_none());
    assert!(restored(0, vec![(alice(), u128::MAX), (bob(), 1)]).is_none());
    assert!(restored(0, vec![(alice(), u128::MAX), (alice(), 1)]).is_none());
    assert!(restored(100, vec![(bob(), 60), (bob(), 40)]).is_some());
    assert!(restored(0, vec![]).is_some());
}
