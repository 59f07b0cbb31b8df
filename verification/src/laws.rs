//! What holds of the engine whatever the state, stated over the model that
//! the contracts of `open_vault` and `close_vault` speak of.

use vstd::prelude::*;
use crate::account::AccountId;
use crate::basket::lemma_required_of_distinct;
use crate::etf::{rejection, ContractError, EtfView, SHARES};
use crate::gateway::{lemma_no_failure, Receipt};
use crate::registry::{lemma_tally_insert, lemma_tally_remove, open_count, owned_by, VaultId};

verus! {

/// Receipts that confirm each of `expected` transfers.
pub open spec fn all_confirmed(expected: nat, receipts: Seq<Receipt>) -> bool {
    &&& receipts.len() == expected
    &&& forall|i: int| 0 <= i < receipts.len() ==> receipts[i] is Ok
}

/// Receipts that confirm every transfer are never a reason to refuse.
pub proof fn law_confirmed_receipts_pass(expected: nat, receipts: Seq<Receipt>)
    ensures
        all_confirmed(expected, receipts) <==> rejection(expected, receipts) is None,
{
    lemma_no_failure(receipts);
}

/// Opening a vault when every required transfer succeeds adds exactly
/// `SHARES` to the caller's shares, leaves every other account's shares
/// alone, and adds to the escrow of every asset what the basket requires of
/// it. Where the basket names no asset twice, that is the amount at the
/// asset's position.
pub proof fn law_open_credits(
    state: EtfView,
    caller: AccountId,
    vault: VaultId,
    receipts: Seq<Receipt>,
)
    requires
        state.basket.aligned(),
        !state.vaults.contains_key(vault),
        all_confirmed(state.basket.assets.len(), receipts),
    ensures
        ({
            let (after, answer) = state.open_step(caller, vault, receipts);
            &&& answer == Ok::<VaultId, ContractError>(state.vaults_quantity as VaultId)
            &&& after.shares[caller] == state.shares[caller] + SHARES
            &&& forall|other: AccountId|
                other != caller ==> after.shares[other] == state.shares[other]
            &&& forall|asset: AccountId| #[trigger]
                after.escrow[asset] == state.escrow[asset] + state.basket.required_of(asset)
            &&& state.basket.assets.no_duplicates() ==> forall|i: int|
                #![trigger state.basket.assets[i]]
                0 <= i < state.basket.assets.len() ==> after.escrow[state.basket.assets[i]]
                    == state.escrow[state.basket.assets[i]] + state.basket.amounts[i]
        }),
{
    law_confirmed_receipts_pass(state.basket.assets.len(), receipts);
    let (after, answer) = state.open_step(caller, vault, receipts);
    if state.basket.assets.no_duplicates() {
        assert forall|i: int|
            #![trigger state.basket.assets[i]]
            0 <= i < state.basket.assets.len() implies after.escrow[state.basket.assets[i]]
                == state.escrow[state.basket.assets[i]] + state.basket.amounts[i] by {
            lemma_required_of_distinct(state.basket, i);
        }
    }
}

/// Opening a vault registers it for the caller under the number of vaults
/// opened before: the caller holds one vault more, every other owner as many
/// as before, and one more vault was opened in all.
pub proof fn law_open_registers(
    state: EtfView,
    caller: AccountId,
    vault: VaultId,
    receipts: Seq<Receipt>,
)
    requires
        state.inv(),
        !state.vaults.contains_key(vault),
        all_confirmed(state.basket.assets.len(), receipts),
    ensures
        ({
            let (after, answer) = state.open_step(caller, vault, receipts);
            let id = state.vaults_quantity as VaultId;
            &&& answer == Ok::<VaultId, ContractError>(id)
            &&& !state.vaults.contains_key(id)
            &&& after.vaults.contains_key(id) && after.vaults[id] == caller
            &&& after.vaults_quantity == state.vaults_quantity + 1
            &&& owned_by(after.vaults, caller) == owned_by(state.vaults, caller) + 1
            &&& forall|other: AccountId|
                other != caller ==> #[trigger] owned_by(after.vaults, other) == owned_by(
                    state.vaults,
                    other,
                )
            &&& open_count(after.vaults) == open_count(state.vaults) + 1
        }),
{
    law_confirmed_receipts_pass(state.basket.assets.len(), receipts);
    let id = state.vaults_quantity as VaultId;
    let after = state.opened(caller);
    lemma_tally_insert(state.vaults, None, id, caller, 256);
    lemma_tally_insert(state.vaults, Some(caller), id, caller, 256);
    assert forall|other: AccountId| other != caller implies #[trigger] owned_by(
        after.vaults,
        other,
    ) == owned_by(state.vaults, other) by {
        lemma_tally_insert(state.vaults, Some(other), id, caller, 256);
    }
}

/// Opening with a vault identity that is open fails with
/// `VaultAlreadyExists` and changes nothing, whatever the receipts.
pub proof fn law_open_collision(
    state: EtfView,
    caller: AccountId,
    vault: VaultId,
    receipts: Seq<Receipt>,
)
    requires
        state.vaults.contains_key(vault),
    ensures
        state.open_step(caller, vault, receipts) == (
            state,
            Err::<VaultId, ContractError>(ContractError::VaultAlreadyExists),
        ),
{
}

/// Closing a vault that is not open, because it was never opened or was
/// closed already, fails with `CloseVaultFailed` and changes nothing.
pub proof fn law_close_unowned(
    state: EtfView,
    caller: AccountId,
    vault: VaultId,
    receipts: Seq<Receipt>,
)
    requires
        !state.vaults.contains_key(vault),
    ensures
        state.close_step(caller, vault, receipts) == (
            state,
            Err::<(), ContractError>(ContractError::CloseVaultFailed),
        ),
{
}

/// Closing an open vault when the caller holds fewer than `SHARES` shares
/// fails with `InsufficientBalance` and changes nothing, whoever owns the
/// vault and whatever the receipts.
pub proof fn law_close_short_of_shares(
    state: EtfView,
    caller: AccountId,
    vault: VaultId,
    receipts: Seq<Receipt>,
)
    requires
        state.vaults.contains_key(vault),
        state.shares[caller] < SHARES,
    ensures
        state.close_step(caller, vault, receipts) == (
            state,
            Err::<(), ContractError>(ContractError::InsufficientBalance),
        ),
{
}

/// A refused operation leaves the state as it was, whatever the reason.
pub proof fn law_refusal_changes_nothing(
    state: EtfView,
    caller: AccountId,
    vault: VaultId,
    receipts: Seq<Receipt>,
)
    ensures
        state.open_step(caller, vault, receipts).1 is Err ==> state.open_step(
            caller,
            vault,
            receipts,
        ).0 == state,
        state.close_step(caller, vault, receipts).1 is Err ==> state.close_step(
            caller,
            vault,
            receipts,
        ).0 == state,
{
}

/// Closing an open vault for a caller who holds `SHARES` shares, when every
/// required transfer succeeds, burns exactly `SHARES` of the caller's
/// shares, takes from the escrow of every asset what the basket requires of
/// it, which the escrow always holds, and removes the vault, whose owner on
/// record holds one vault fewer.
pub proof fn law_close_redeems(
    state: EtfView,
    caller: AccountId,
    vault: VaultId,
    receipts: Seq<Receipt>,
)
    requires
        state.inv(),
        state.vaults.contains_key(vault),
        state.shares[caller] >= SHARES,
        all_confirmed(state.basket.assets.len(), receipts),
    ensures
        ({
            let (after, answer) = state.close_step(caller, vault, receipts);
            let owner = state.vaults[vault];
            &&& answer == Ok::<(), ContractError>(())
            &&& after.shares[caller] + SHARES == state.shares[caller]
            &&& forall|other: AccountId|
                other != caller ==> after.shares[other] == state.shares[other]
            &&& forall|asset: AccountId| #[trigger]
                state.escrow[asset] >= state.basket.required_of(asset)
            &&& forall|asset: AccountId| #[trigger]
                after.escrow[asset] + state.basket.required_of(asset) == state.escrow[asset]
            &&& !after.vaults.contains_key(vault)
            &&& after.vaults_quantity == state.vaults_quantity
            &&& owned_by(after.vaults, owner) + 1 == owned_by(state.vaults, owner)
            &&& open_count(after.vaults) + 1 == open_count(state.vaults)
        }),
{
    law_confirmed_receipts_pass(state.basket.assets.len(), receipts);
    let owner = state.vaults[vault];
    let open = open_count(state.vaults);
    lemma_tally_remove(state.vaults, None, vault, 256);
    lemma_tally_remove(state.vaults, Some(owner), vault, 256);
    assert forall|asset: AccountId| #[trigger]
        state.escrow[asset] >= state.basket.required_of(asset) by {
        let r = state.basket.required_of(asset);
        assert(state.escrow[asset] == r * open);
        assert(r * open >= r) by (nonlinear_arith)
            requires
                open >= 1,
                r >= 0,
        ;
    }
}

/// Round trip: a vault that is opened and then closed, each time with every
/// transfer confirmed, leaves the escrow of every asset as it was before
/// the opening and is no longer in the registry. The closing account may be
/// any that holds `SHARES` shares after the opening, as the opener does;
/// where the opener closes, every share balance is as before too.
pub proof fn law_round_trip(
    state: EtfView,
    opener: AccountId,
    closer: AccountId,
    vault: VaultId,
    deposited: Seq<Receipt>,
    redeemed: Seq<Receipt>,
)
    requires
        state.inv(),
        !state.vaults.contains_key(vault),
        all_confirmed(state.basket.assets.len(), deposited),
        all_confirmed(state.basket.assets.len(), redeemed),
        closer == opener || state.shares[closer] >= SHARES,
    ensures
        ({
            let id = state.vaults_quantity as VaultId;
            let (open, assigned) = state.open_step(opener, vault, deposited);
            let (after, answer) = open.close_step(closer, id, redeemed);
            &&& assigned == Ok::<VaultId, ContractError>(id)
            &&& answer == Ok::<(), ContractError>(())
            &&& after.escrow == state.escrow
            &&& !after.vaults.contains_key(id)
            &&& after.vaults == state.vaults
            &&& closer == opener ==> after.shares == state.shares
        }),
{
    law_confirmed_receipts_pass(state.basket.assets.len(), deposited);
    law_confirmed_receipts_pass(state.basket.assets.len(), redeemed);
    let id = state.vaults_quantity as VaultId;
    let open = state.opened(opener);
    let after = open.closed(closer, id);
    assert(after.escrow =~= state.escrow);
    assert(after.vaults =~= state.vaults);
    if closer == opener {
        assert(after.shares =~= state.shares);
    }
}

/// Opening, where there is room, and closing keep the invariant of the
/// state, and so does a refused operation.
pub proof fn law_steps_keep_invariant(
    state: EtfView,
    caller: AccountId,
    vault: VaultId,
    receipts: Seq<Receipt>,
)
    requires
        state.inv(),
    ensures
        state.has_room() ==> state.open_step(caller, vault, receipts).0.inv(),
        state.close_step(caller, vault, receipts).0.inv(),
{
    let open = open_count(state.vaults);
    if state.has_room() && state.open_refusal(vault, receipts) is None {
        let id = state.vaults_quantity as VaultId;
        let after = state.opened(caller);
        lemma_tally_insert(state.vaults, None, id, caller, 256);
        assert forall|a: AccountId| #[trigger]
            after.escrow[a] == after.basket.required_of(a) * open_count(after.vaults) by {
            let r = state.basket.required_of(a);
            assert(state.escrow[a] == r * open);
            assert(r * (open + 1) == r * open + r) by (nonlinear_arith);
        }
        assert(after.inv());
    }
    if state.close_refusal(caller, vault, receipts) is None {
        let after = state.closed(caller, vault);
        lemma_tally_remove(state.vaults, None, vault, 256);
        assert forall|a: AccountId| #[trigger]
            after.escrow[a] == after.basket.required_of(a) * open_count(after.vaults) by {
            let r = state.basket.required_of(a);
            assert(state.escrow[a] == r * open);
            assert(r * open == r * (open - 1) + r) by (nonlinear_arith);
        }
        assert(after.inv());
    }
}

} // verus!
