use etf_vault::account::AccountId;
use etf_vault::etf::{confirm, ContractError, Erc20, Etf, Event, VaultClosed, VaultOpened, SHARES};
use etf_vault::gateway::{
    find_failure, GatewayError, Receipt, TransferRequest, TRANSFER_FROM_SELECTOR,
};

fn engine() -> AccountId {
    AccountId([0xE0; 32])
}

fn alice() -> AccountId {
    AccountId([0x01; 32])
}

fn bob() -> AccountId {
    AccountId([0x02; 32])
}

fn asset_a() -> AccountId {
    AccountId([0xA0; 32])
}

fn asset_b() -> AccountId {
    AccountId([0xB0; 32])
}

fn two_asset_etf() -> Etf {
    Etf::new(engine(), vec![asset_a(), asset_b()], vec![50, 20])
}

fn confirmed(n: usize) -> Vec<Receipt> {
    vec![Ok(()); n]
}

#[test]
fn new_engine_holds_nothing() {
    let etf = two_asset_etf();
    assert_eq!(etf.get_account(), engine());
    assert_eq!(etf.get_required_tokens(), vec![asset_a(), asset_b()]);
    assert_eq!(etf.get_required_balances(), vec![50, 20]);
    assert_eq!(etf.get_vaults_quantity(), 0);
    assert_eq!(etf.get_vaults_quantity_per_owner(alice()), 0);
    assert_eq!(etf.get_vault_owner(0), None);
    assert_eq!(etf.get_balance(alice()), 0);
    assert_eq!(etf.get_escrow(asset_a()), 0);
    assert_eq!(etf.total_supply(), 0);
    assert!(etf.can_open());
}

#[test]
fn shares_per_vault_are_one_hundred() {
    assert_eq!(SHARES, 100);
    assert_eq!(TRANSFER_FROM_SELECTOR, [0, 0, 0, 6]);
}

#[test]
fn open_requests_list_the_basket_from_caller_to_engine() {
    let etf = two_asset_etf();
    assert_eq!(
        etf.open_requests(alice(), 0),
        Ok(vec![
            TransferRequest {
                asset: asset_a(),
                selector: TRANSFER_FROM_SELECTOR,
                from: alice(),
                to: engine(),
                amount: 50,
            },
            TransferRequest {
                asset: asset_b(),
                selector: TRANSFER_FROM_SELECTOR,
                from: alice(),
                to: engine(),
                amount: 20,
            },
        ])
    );
}

#[test]
fn close_requests_list_the_basket_from_engine_to_caller() {
    let mut etf = two_asset_etf();
    assert_eq!(etf.open_vault(alice(), 0, &confirmed(2)), Ok(0));
    assert_eq!(
        etf.close_requests(alice(), 0),
        Ok(vec![
            TransferRequest {
                asset: asset_a(),
                selector: TRANSFER_FROM_SELECTOR,
                from: engine(),
                to: alice(),
                amount: 50,
            },
            TransferRequest {
                asset: asset_b(),
                selector: TRANSFER_FROM_SELECTOR,
                from: engine(),
                to: alice(),
                amount: 20,
            },
        ])
    );
    assert_eq!(etf.close_requests(alice(), 1), Err(ContractError::CloseVaultFailed));
    assert_eq!(etf.close_requests(bob(), 0), Err(ContractError::InsufficientBalance));
}

#[test]
fn open_then_close_scenario() {
    let mut etf = two_asset_etf();
    assert_eq!(etf.open_vault(alice(), 0, &confirmed(2)), Ok(0));
    assert_eq!(etf.get_balance(alice()), 100);
    assert_eq!(etf.get_escrow(asset_a()), 50);
    assert_eq!(etf.get_escrow(asset_b()), 20);
    assert_eq!(etf.get_vault_owner(0), Some(alice()));

    assert_eq!(etf.close_vault(alice(), 0, &confirmed(2)), Ok(()));
    assert_eq!(etf.get_balance(alice()), 0);
    assert_eq!(etf.get_escrow(asset_a()), 0);
    assert_eq!(etf.get_escrow(asset_b()), 0);
    assert_eq!(etf.get_vault_owner(0), None);
}

#[test]
fn two_opens_scenario() {
    let mut etf = two_asset_etf();
    assert_eq!(etf.open_vault(alice(), 0, &confirmed(2)), Ok(0));
    assert_eq!(etf.open_vault(alice(), 1, &confirmed(2)), Ok(1));
    assert_eq!(etf.get_vaults_quantity(), 2);
    assert_eq!(etf.get_vaults_quantity_per_owner(alice()), 2);
    assert_eq!(etf.get_vaults_quantity_per_owner(bob()), 0);
    assert_eq!(etf.get_balance(alice()), 200);
    assert_eq!(etf.get_escrow(asset_a()), 100);
    assert_eq!(etf.get_escrow(asset_b()), 40);
}

#[test]
fn two_opens_by_two_owners_count_apart() {
    let mut etf = two_asset_etf();
    assert_eq!(etf.open_vault(alice(), 0, &confirmed(2)), Ok(0));
    assert_eq!(etf.open_vault(bob(), 1, &confirmed(2)), Ok(1));
    assert_eq!(etf.get_vaults_quantity(), 2);
    assert_eq!(etf.get_vaults_quantity_per_owner(alice()), 1);
    assert_eq!(etf.get_vaults_quantity_per_owner(bob()), 1);
    assert_eq!(etf.get_vault_owner(1), Some(bob()));
}

#[test]
fn open_raises_shares_and_escrow_by_the_basket() {
    let mut etf = Etf::new(engine(), vec![asset_a(), asset_b(), alice()], vec![7, 0, 3]);
    assert_eq!(etf.transfer(alice(), bob(), 0), Ok(0));
    assert_eq!(etf.open_vault(bob(), 9, &confirmed(3)), Ok(0));
    assert_eq!(etf.open_vault(alice(), 9, &confirmed(3)), Ok(1));
    assert_eq!(etf.get_balance(alice()), 100);
    assert_eq!(etf.get_balance(bob()), 100);
    assert_eq!(etf.get_escrow(asset_a()), 14);
    assert_eq!(etf.get_escrow(asset_b()), 0);
    // An asset may carry the identifier of a user: escrow and shares are
    // kept apart.
    assert_eq!(etf.get_escrow(alice()), 6);
    assert_eq!(etf.get_escrow(bob()), 0);
}

#[test]
fn open_with_an_asset_named_twice_escrows_the_sum() {
    let mut etf = Etf::new(engine(), vec![asset_a(), asset_b(), asset_a()], vec![50, 20, 5]);
    assert_eq!(etf.open_vault(alice(), 0, &confirmed(3)), Ok(0));
    assert_eq!(etf.get_escrow(asset_a()), 55);
    assert_eq!(etf.get_escrow(asset_b()), 20);
    assert_eq!(etf.close_vault(alice(), 0, &confirmed(3)), Ok(()));
    assert_eq!(etf.get_escrow(asset_a()), 0);
    assert_eq!(etf.get_escrow(asset_b()), 0);
}

#[test]
fn open_with_an_empty_basket_mints_shares_all_the_same() {
    let mut etf = Etf::new(engine(), vec![], vec![]);
    assert_eq!(etf.open_requests(alice(), 0), Ok(vec![]));
    assert_eq!(etf.open_vault(alice(), 0, &confirmed(0)), Ok(0));
    assert_eq!(etf.get_balance(alice()), 100);
    assert_eq!(etf.close_vault(alice(), 0, &confirmed(0)), Ok(()));
    assert_eq!(etf.get_balance(alice()), 0);
}

#[test]
fn open_ignores_the_named_identity_but_for_the_collision_test() {
    let mut etf = two_asset_etf();
    assert_eq!(etf.open_vault(alice(), 7, &confirmed(2)), Ok(0));
    assert_eq!(etf.get_vault_owner(7), None);
    assert_eq!(etf.get_vault_owner(0), Some(alice()));
    assert_eq!(etf.open_vault(alice(), 200, &confirmed(2)), Ok(1));
}

#[test]
fn open_on_an_open_identity_is_refused() {
    let mut etf = two_asset_etf();
    assert_eq!(etf.open_vault(alice(), 0, &confirmed(2)), Ok(0));
    assert_eq!(etf.take_events().len(), 1);
    assert_eq!(etf.open_requests(bob(), 0), Err(ContractError::VaultAlreadyExists));
    assert_eq!(etf.open_vault(bob(), 0, &confirmed(2)), Err(ContractError::VaultAlreadyExists));
    // The collision is found before the receipts are looked at.
    assert_eq!(
        etf.open_vault(bob(), 0, &vec![Err(GatewayError::Rejected)]),
        Err(ContractError::VaultAlreadyExists)
    );
    assert_eq!(etf.get_vaults_quantity(), 1);
    assert_eq!(etf.get_vaults_quantity_per_owner(bob()), 0);
    assert_eq!(etf.get_balance(bob()), 0);
    assert_eq!(etf.get_escrow(asset_a()), 50);
    assert_eq!(etf.get_escrow(asset_b()), 20);
    assert_eq!(etf.take_events(), vec![]);
}

#[test]
fn open_with_a_failed_transfer_is_refused() {
    let mut etf = two_asset_etf();
    assert_eq!(
        etf.open_vault(alice(), 0, &vec![Ok(()), Err(GatewayError::Rejected)]),
        Err(ContractError::TransferFailed)
    );
    assert_eq!(
        etf.open_vault(alice(), 0, &vec![Err(GatewayError::InsufficientBalance)]),
        Err(ContractError::InsufficientBalance)
    );
    assert_eq!(
        etf.open_vault(
            alice(),
            0,
            &vec![Err(GatewayError::Rejected), Err(GatewayError::InsufficientBalance)]
        ),
        Err(ContractError::TransferFailed)
    );
    assert_eq!(etf.get_vaults_quantity(), 0);
    assert_eq!(etf.get_balance(alice()), 0);
    assert_eq!(etf.get_escrow(asset_a()), 0);
    assert_eq!(etf.get_vault_owner(0), None);
    assert_eq!(etf.take_events(), vec![]);
}

#[test]
fn open_with_receipts_that_do_not_answer_each_request_is_refused() {
    let mut etf = two_asset_etf();
    assert_eq!(etf.open_vault(alice(), 0, &confirmed(1)), Err(ContractError::TransferFailed));
    assert_eq!(etf.open_vault(alice(), 0, &confirmed(0)), Err(ContractError::TransferFailed));
    assert_eq!(etf.open_vault(alice(), 0, &confirmed(3)), Err(ContractError::TransferFailed));
    assert_eq!(etf.get_vaults_quantity(), 0);
    assert_eq!(etf.get_balance(alice()), 0);
}

#[test]
fn close_of_a_vault_that_is_not_open_is_refused() {
    let mut etf = two_asset_etf();
    assert_eq!(etf.close_vault(alice(), 0, &confirmed(2)), Err(ContractError::CloseVaultFailed));
    assert_eq!(etf.open_vault(alice(), 0, &confirmed(2)), Ok(0));
    assert_eq!(etf.close_vault(alice(), 1, &confirmed(2)), Err(ContractError::CloseVaultFailed));
    assert_eq!(etf.close_vault(alice(), 0, &confirmed(2)), Ok(()));
    assert_eq!(etf.take_events().len(), 2);
    // Closed already.
    assert_eq!(etf.close_vault(alice(), 0, &confirmed(2)), Err(ContractError::CloseVaultFailed));
    assert_eq!(etf.get_vaults_quantity(), 1);
    assert_eq!(etf.get_balance(alice()), 0);
    assert_eq!(etf.get_escrow(asset_a()), 0);
    assert_eq!(etf.take_events(), vec![]);
}

#[test]
fn close_without_the_shares_is_refused() {
    let mut etf = two_asset_etf();
    assert_eq!(etf.open_vault(alice(), 0, &confirmed(2)), Ok(0));
    // Not the owner, no shares.
    assert_eq!(etf.close_vault(bob(), 0, &confirmed(2)), Err(ContractError::InsufficientBalance));
    // The owner, one share short.
    assert_eq!(etf.transfer(alice(), bob(), 1), Ok(99));
    assert_eq!(etf.close_vault(alice(), 0, &confirmed(2)), Err(ContractError::InsufficientBalance));
    assert_eq!(etf.close_vault(bob(), 0, &confirmed(2)), Err(ContractError::InsufficientBalance));
    assert_eq!(etf.get_balance(alice()), 99);
    assert_eq!(etf.get_balance(bob()), 1);
    assert_eq!(etf.get_vault_owner(0), Some(alice()));
    assert_eq!(etf.get_vaults_quantity_per_owner(alice()), 1);
    assert_eq!(etf.get_escrow(asset_a()), 50);
    assert_eq!(etf.get_escrow(asset_b()), 20);
}

#[test]
fn close_with_a_failed_transfer_is_refused() {
    let mut etf = two_asset_etf();
    assert_eq!(etf.open_vault(alice(), 0, &confirmed(2)), Ok(0));
    assert_eq!(
        etf.close_vault(alice(), 0, &vec![Ok(()), Err(GatewayError::Rejected)]),
        Err(ContractError::TransferFailed)
    );
    assert_eq!(
        etf.close_vault(alice(), 0, &vec![Ok(()), Err(GatewayError::InsufficientBalance)]),
        Err(ContractError::InsufficientBalance)
    );
    assert_eq!(etf.close_vault(alice(), 0, &confirmed(1)), Err(ContractError::TransferFailed));
    assert_eq!(etf.get_balance(alice()), 100);
    assert_eq!(etf.get_escrow(asset_a()), 50);
    assert_eq!(etf.get_escrow(asset_b()), 20);
    assert_eq!(etf.get_vault_owner(0), Some(alice()));
}

#[test]
fn close_is_gated_by_shares_not_by_ownership() {
    let mut etf = two_asset_etf();
    assert_eq!(etf.open_vault(alice(), 0, &confirmed(2)), Ok(0));
    assert_eq!(etf.transfer(alice(), bob(), 100), Ok(0));
    assert_eq!(etf.close_vault(bob(), 0, &confirmed(2)), Ok(()));
    assert_eq!(etf.get_balance(bob()), 0);
    assert_eq!(etf.get_vault_owner(0), None);
    // The tally of the owner on record drops, not that of the closer.
    assert_eq!(etf.get_vaults_quantity_per_owner(alice()), 0);
    assert_eq!(etf.get_vaults_quantity_per_owner(bob()), 0);
    assert_eq!(
        etf.take_events(),
        vec![
            Event::Opened(VaultOpened { vault: 0, owner: alice() }),
            Event::Closed(VaultClosed { vault: 0, owner: alice() }),
        ]
    );
}

#[test]
fn round_trip_restores_escrow_between_other_vaults() {
    let mut etf = two_asset_etf();
    assert_eq!(etf.open_vault(bob(), 0, &confirmed(2)), Ok(0));
    let before = (etf.get_escrow(asset_a()), etf.get_escrow(asset_b()), etf.get_balance(alice()));
    assert_eq!(before, (50, 20, 0));
    assert_eq!(etf.open_vault(alice(), 1, &confirmed(2)), Ok(1));
    assert_eq!(etf.get_escrow(asset_a()), 100);
    assert_eq!(etf.close_vault(alice(), 1, &confirmed(2)), Ok(()));
    let after = (etf.get_escrow(asset_a()), etf.get_escrow(asset_b()), etf.get_balance(alice()));
    assert_eq!(after, before);
    assert_eq!(etf.get_vault_owner(1), None);
    assert_eq!(etf.get_vault_owner(0), Some(bob()));
    // The count of vaults ever opened does not drop.
    assert_eq!(etf.get_vaults_quantity(), 2);
}

#[test]
fn events_are_handed_out_once_and_in_order() {
    let mut etf = two_asset_etf();
    assert_eq!(etf.take_events(), vec![]);
    assert_eq!(etf.open_vault(alice(), 0, &confirmed(2)), Ok(0));
    assert_eq!(etf.open_vault(bob(), 1, &confirmed(2)), Ok(1));
    assert_eq!(
        etf.take_events(),
        vec![
            Event::Opened(VaultOpened { vault: 0, owner: alice() }),
            Event::Opened(VaultOpened { vault: 1, owner: bob() }),
        ]
    );
    assert_eq!(etf.take_events(), vec![]);
    assert_eq!(etf.close_vault(bob(), 0, &confirmed(2)), Ok(()));
    assert_eq!(etf.take_events(), vec![Event::Closed(VaultClosed { vault: 0, owner: alice() })]);
}

#[test]
fn share_transfer_moves_value_and_returns_the_new_balance() {
    let mut etf = two_asset_etf();
    assert_eq!(etf.open_vault(alice(), 0, &confirmed(2)), Ok(0));
    assert_eq!(etf.transfer(alice(), bob(), 30), Ok(70));
    assert_eq!(etf.balance_of(alice()), 70);
    assert_eq!(etf.balance_of(bob()), 30);
    assert_eq!(etf.transfer(bob(), alice(), 31), Err(ContractError::InsufficientBalance));
    assert_eq!(etf.transfer_from(bob(), alice(), 30), Ok(0));
    assert_eq!(etf.get_balance(alice()), 100);
    assert_eq!(etf.get_balance(bob()), 0);
    assert_eq!(etf.transfer(alice(), alice(), 100), Ok(100));
    assert_eq!(etf.get_balance(alice()), 100);
    // Shares move; escrow and registry do not.
    assert_eq!(etf.get_escrow(asset_a()), 50);
    assert_eq!(etf.get_vault_owner(0), Some(alice()));
}

#[test]
fn share_transfer_cannot_touch_escrow() {
    let mut etf = two_asset_etf();
    assert_eq!(etf.open_vault(alice(), 0, &confirmed(2)), Ok(0));
    assert_eq!(etf.transfer_from(asset_a(), bob(), 50), Err(ContractError::InsufficientBalance));
    assert_eq!(etf.get_escrow(asset_a()), 50);
    assert_eq!(etf.get_balance(bob()), 0);
    assert_eq!(etf.get_balance(asset_a()), 0);
}

#[test]
fn supply_counter_stays_where_it_was() {
    let mut etf = two_asset_etf();
    assert_eq!(etf.open_vault(alice(), 0, &confirmed(2)), Ok(0));
    assert_eq!(etf.total_supply(), 0);
    assert_eq!(etf.transfer(alice(), bob(), 10), Ok(90));
    assert_eq!(etf.total_supply(), 0);
}

#[test]
fn share_token_has_a_fixed_name_and_symbol() {
    let etf = two_asset_etf();
    assert_eq!(etf.get_name(), "X-ETF-INDEX-0");
    assert_eq!(etf.get_symbol(), "XTF");
    assert_eq!(etf.get_owner(bob()), bob());
}

#[test]
fn room_runs_out_with_the_identities() {
    let mut etf = Etf::new(engine(), vec![asset_a()], vec![1]);
    let mut opened: u32 = 0;
    while etf.can_open() {
        assert_eq!(etf.open_vault(alice(), 255, &confirmed(1)), Ok(opened as u8));
        opened += 1;
    }
    assert_eq!(opened, 255);
    assert_eq!(etf.get_vaults_quantity(), 255);
    assert_eq!(etf.get_vaults_quantity_per_owner(alice()), 255);
    assert_eq!(etf.get_balance(alice()), 25_500);
    assert_eq!(etf.get_escrow(asset_a()), 255);
    // Closing does not give an identity back.
    assert_eq!(etf.close_vault(alice(), 254, &confirmed(1)), Ok(()));
    assert!(!etf.can_open());
}

#[test]
fn room_runs_out_with_the_escrow() {
    let mut etf = Etf::new(engine(), vec![asset_a(), asset_b()], vec![u128::MAX / 2, 1]);
    assert!(etf.can_open());
    assert_eq!(etf.open_vault(alice(), 0, &confirmed(2)), Ok(0));
    assert!(etf.can_open());
    assert_eq!(etf.open_vault(alice(), 0, &confirmed(2)), Err(ContractError::VaultAlreadyExists));
    assert_eq!(etf.open_vault(alice(), 1, &confirmed(2)), Ok(1));
    assert_eq!(etf.get_escrow(asset_a()), u128::MAX - 1);
    assert!(!etf.can_open());
    assert_eq!(etf.close_vault(alice(), 1, &confirmed(2)), Ok(()));
    assert!(etf.can_open());
}

#[test]
fn room_is_wanting_where_one_basket_exceeds_the_amount_type() {
    let etf = Etf::new(engine(), vec![asset_a(), asset_a()], vec![u128::MAX, 1]);
    assert!(!etf.can_open());
    let fits = Etf::new(engine(), vec![asset_a(), asset_b()], vec![u128::MAX, u128::MAX]);
    assert!(fits.can_open());
}

#[test]
fn receipts_are_decided_by_the_earliest_failure() {
    assert_eq!(find_failure(&vec![]), None);
    assert_eq!(find_failure(&vec![Ok(()), Ok(())]), None);
    assert_eq!(
        find_failure(&vec![
            Ok(()),
            Err(GatewayError::InsufficientBalance),
            Err(GatewayError::Rejected),
        ]),
        Some(GatewayError::InsufficientBalance)
    );
    assert_eq!(confirm(2, &vec![Ok(()), Ok(())]), None);
    assert_eq!(confirm(0, &vec![]), None);
    assert_eq!(confirm(2, &vec![Ok(())]), Some(ContractError::TransferFailed));
    assert_eq!(confirm(1, &vec![Ok(()), Ok(())]), Some(ContractError::TransferFailed));
    assert_eq!(
        confirm(1, &vec![Err(GatewayError::InsufficientBalance)]),
        Some(ContractError::InsufficientBalance)
    );
    assert_eq!(confirm(1, &vec![Err(GatewayError::Rejected)]), Some(ContractError::TransferFailed));
    assert_eq!(
        confirm(
            3,
            &vec![Ok(()), Err(GatewayError::Rejected), Err(GatewayError::InsufficientBalance)],
        ),
        Some(ContractError::TransferFailed)
    );
}

#[test]
fn unsupported_token_is_a_kind_of_its_own() {
    assert_ne!(ContractError::UnsupportedToken, ContractError::TransferFailed);
    assert_ne!(ContractError::UnsupportedToken, ContractError::InsufficientBalance);
    assert_eq!(format!("{:?}", ContractError::UnsupportedToken), "UnsupportedToken");
}
