//! The vault lifecycle engine.
//!
//! Opening a vault collects the basket into escrow, mints a fixed number of
//! pooled shares to the caller and registers the vault. Closing a vault
//! burns that number of shares from the caller, releases the basket and
//! removes the vault. Either all of an operation takes effect or none of it.
//!
//! The asset moves themselves are made outside the engine. An operation is
//! therefore run in two halves: `open_requests` / `close_requests` say which
//! transfers are needed, and `open_vault` / `close_vault` take the receipts
//! and commit or refuse. The engine answers for its own state only: undoing
//! a transfer that the gateway made for an operation that was then refused
//! is up to the surroundings that made it.

use vstd::prelude::*;
use crate::account::{AccountId, Balance};
use crate::basket::{
    lemma_required_absent,
    lemma_required_grows,
    required_below,
    Basket,
    BasketView,
};
use crate::gateway::{
    find_failure,
    first_failure,
    GatewayError,
    Receipt,
    TransferRequest,
    TRANSFER_FROM_SELECTOR,
};
use crate::ledger::{credited, entries_total, lemma_credited_grows, moved, no_balances, Ledger};
use crate::registry::{
    lemma_tally_insert,
    lemma_tally_remove,
    lemma_tally_within,
    open_count,
    owned_by,
    vaults_of,
    VaultId,
    VaultRegistry,
    VAULT_LIMIT,
};

verus! {

/// The shares minted for each vault that is opened, and burned for each
/// vault that is closed.
pub const SHARES: Balance = 100;

/// Notice that a vault was opened.
#[derive(Clone, Copy, Debug, PartialEq, Eq)]
pub struct VaultOpened {
    pub vault: VaultId,
    pub owner: AccountId,
}

/// Notice that a vault was closed. `owner` is the owner on record, who need
/// not be the account that closed it.
#[derive(Clone, Copy, Debug, PartialEq, Eq)]
pub struct VaultClosed {
    pub vault: VaultId,
    pub owner: AccountId,
}

/// A notice that the engine has emitted.
#[derive(Clone, Copy, Debug, PartialEq, Eq)]
pub enum Event {
    Opened(VaultOpened),
    Closed(VaultClosed),
}

/// Why the engine refused an operation.
#[derive(Clone, Copy, Debug, PartialEq, Eq, Structural)]
pub enum ContractError {
    /// An account holds fewer shares, or less of an asset, than it must give.
    InsufficientBalance,
    /// Declared for callers; no operation of the engine returns it.
    UnsupportedToken,
    /// The gateway did not confirm every transfer of the basket.
    TransferFailed,
    /// The vault to close is not open.
    CloseVaultFailed,
    /// The vault named on opening is already open.
    VaultAlreadyExists,
}

/// What the receipts of an operation that needs `expected` transfers make
/// the engine refuse it with: the earliest failure decides, and receipts
/// that do not answer every request one for one count as a failed transfer.
pub open spec fn rejection(expected: nat, receipts: Seq<Receipt>) -> Option<ContractError> {
    match first_failure(receipts) {
        Some(GatewayError::InsufficientBalance) => Some(ContractError::InsufficientBalance),
        Some(GatewayError::Rejected) => Some(ContractError::TransferFailed),
        None => if receipts.len() == expected {
            None
        } else {
            Some(ContractError::TransferFailed)
        },
    }
}

/// Decides on the receipts of an operation that needs `expected` transfers.
pub fn confirm(expected: usize, receipts: &Vec<Receipt>) -> (refusal: Option<ContractError>)
    ensures
        refusal == rejection(expected as nat, receipts@),
{
    match find_failure(receipts) {
        Some(GatewayError::InsufficientBalance) => Some(ContractError::InsufficientBalance),
        Some(GatewayError::Rejected) => Some(ContractError::TransferFailed),
        None => if receipts.len() == expected {
            None
        } else {
            Some(ContractError::TransferFailed)
        },
    }
}

/// The model of the engine's state.
pub struct EtfView {
    /// The engine's own account, which holds the escrow on the asset ledgers.
    pub account: AccountId,
    /// The basket definition.
    pub basket: BasketView,
    /// The open vaults and their owners.
    pub vaults: Map<VaultId, AccountId>,
    /// The number of vaults ever opened, which is the next identity.
    pub vaults_quantity: nat,
    /// The pooled-share balance of every account.
    pub shares: Map<AccountId, nat>,
    /// The escrowed holding of every asset.
    pub escrow: Map<AccountId, nat>,
    /// The supply counter. No operation changes it.
    pub total_supply: Balance,
    /// The notices emitted and not yet taken, oldest first.
    pub events: Seq<Event>,
}

impl EtfView {
    /// What holds of every state that the engine can reach.
    pub open spec fn inv(self) -> bool {
        &&& self.basket.aligned()
        &&& self.vaults_quantity <= VAULT_LIMIT
        &&& forall|id: VaultId| #[trigger]
            self.vaults.contains_key(id) ==> id < self.vaults_quantity
        &&& forall|a: AccountId| #[trigger] self.shares.contains_key(a)
        &&& forall|a: AccountId| #[trigger] self.escrow.contains_key(a)
        &&& forall|a: AccountId| #[trigger]
            self.escrow[a] == self.basket.required_of(a) * open_count(self.vaults)
    }

    /// Whether one more vault can be opened: an identity is left, and the
    /// escrow of every asset can take the basket.
    pub open spec fn has_room(self) -> bool {
        &&& self.vaults_quantity < VAULT_LIMIT
        &&& forall|a: AccountId| #[trigger]
            self.escrow[a] + self.basket.required_of(a) <= Balance::MAX
    }

    /// The transfers that opening a vault for `caller` needs: each basket
    /// amount from the caller to the engine.
    pub open spec fn deposits(self, caller: AccountId) -> Seq<TransferRequest> {
        Seq::new(
            self.basket.assets.len(),
            |i: int|
                TransferRequest {
                    asset: self.basket.assets[i],
                    selector: TRANSFER_FROM_SELECTOR,
                    from: caller,
                    to: self.account,
                    amount: self.basket.amounts[i],
                },
        )
    }

    /// The transfers that closing a vault for `caller` needs: each basket
    /// amount from the engine to the caller.
    pub open spec fn redemptions(self, caller: AccountId) -> Seq<TransferRequest> {
        Seq::new(
            self.basket.assets.len(),
            |i: int|
                TransferRequest {
                    asset: self.basket.assets[i],
                    selector: TRANSFER_FROM_SELECTOR,
                    from: self.account,
                    to: caller,
                    amount: self.basket.amounts[i],
                },
        )
    }

    /// Why opening is refused before any transfer is asked for.
    pub open spec fn open_barrier(self, vault: VaultId) -> Option<ContractError> {
        if self.vaults.contains_key(vault) {
            Some(ContractError::VaultAlreadyExists)
        } else {
            None
        }
    }

    /// Why opening is refused, if it is.
    pub open spec fn open_refusal(self, vault: VaultId, receipts: Seq<Receipt>) -> Option<
        ContractError,
    > {
        match self.open_barrier(vault) {
            Some(e) => Some(e),
            None => rejection(self.basket.assets.len(), receipts),
        }
    }

    /// The state after a vault was opened for `caller`.
    pub open spec fn opened(self, caller: AccountId) -> EtfView {
        let id = self.vaults_quantity as VaultId;
        EtfView {
            vaults: self.vaults.insert(id, caller),
            vaults_quantity: self.vaults_quantity + 1,
            shares: self.shares.insert(caller, self.shares[caller] + SHARES as nat),
            escrow: Map::total(|a: AccountId| self.escrow[a] + self.basket.required_of(a)),
            events: self.events.push(Event::Opened(VaultOpened { vault: id, owner: caller })),
            ..self
        }
    }

    /// Opening as a step: the state that follows and the answer given.
    /// A refused opening leaves the state as it was.
    pub open spec fn open_step(self, caller: AccountId, vault: VaultId, receipts: Seq<Receipt>) -> (
        EtfView,
        Result<VaultId, ContractError>,
    ) {
        match self.open_refusal(vault, receipts) {
            Some(e) => (self, Err(e)),
            None => (self.opened(caller), Ok(self.vaults_quantity as VaultId)),
        }
    }

    /// Why closing is refused before any transfer is asked for.
    pub open spec fn close_barrier(self, caller: AccountId, vault: VaultId) -> Option<
        ContractError,
    > {
        if !self.vaults.contains_key(vault) {
            Some(ContractError::CloseVaultFailed)
        } else if self.shares[caller] < SHARES {
            Some(ContractError::InsufficientBalance)
        } else {
            None
        }
    }

    /// Why closing is refused, if it is.
    pub open spec fn close_refusal(
        self,
        caller: AccountId,
        vault: VaultId,
        receipts: Seq<Receipt>,
    ) -> Option<ContractError> {
        match self.close_barrier(caller, vault) {
            Some(e) => Some(e),
            None => rejection(self.basket.assets.len(), receipts),
        }
    }

    /// The state after `caller` closed the open vault `vault`.
    pub open spec fn closed(self, caller: AccountId, vault: VaultId) -> EtfView {
        EtfView {
            vaults: self.vaults.remove(vault),
            shares: self.shares.insert(caller, (self.shares[caller] - SHARES) as nat),
            escrow: Map::total(
                |a: AccountId| (self.escrow[a] - self.basket.required_of(a)) as nat,
            ),
            events: self.events.push(
                Event::Closed(VaultClosed { vault, owner: self.vaults[vault] }),
            ),
            ..self
        }
    }

    /// Closing as a step: the state that follows and the answer given.
    /// A refused closing leaves the state as it was.
    pub open spec fn close_step(
        self,
        caller: AccountId,
        vault: VaultId,
        receipts: Seq<Receipt>,
    ) -> (EtfView, Result<(), ContractError>) {
        match self.close_refusal(caller, vault, receipts) {
            Some(e) => (self, Err(e)),
            None => (self.closed(caller, vault), Ok(())),
        }
    }

    /// The state after `value` shares moved from `from` to `to`.
    pub open spec fn moved(self, from: AccountId, to: AccountId, value: Balance) -> EtfView {
        EtfView { shares: moved(self.shares, from, to, value as nat), ..self }
    }
}

/// The engine: basket, registry, the two ledgers and the notices emitted.
pub struct Etf {
    account: AccountId,
    basket: Basket,
    registry: VaultRegistry,
    shares: Ledger,
    escrow: Ledger,
    total_supply: Balance,
    events: Vec<Event>,
}

impl View for Etf {
    type V = EtfView;

    closed spec fn view(&self) -> EtfView {
        EtfView {
            account: self.account,
            basket: self.basket@,
            vaults: self.registry.vaults(),
            vaults_quantity: self.registry.quantity(),
            shares: self.shares@,
            escrow: self.escrow@,
            total_supply: self.total_supply,
            events: self.events@,
        }
    }
}

impl Etf {
    /// The parts are valid, the shares outstanding are `SHARES` for each
    /// open vault, and the escrow of each asset is what the open vaults
    /// require of it.
    pub closed spec fn wf(&self) -> bool {
        &&& self.basket.wf()
        &&& self.registry.wf()
        &&& self.shares.wf()
        &&& self.escrow.wf()
        &&& self.shares.total() == SHARES * open_count(self.registry.vaults())
        &&& forall|a: AccountId| #[trigger]
            self.escrow@[a] == self.basket@.required_of(a) * open_count(self.registry.vaults())
    }

    /// A valid engine is in a state that meets the invariant.
    pub proof fn lemma_inv(&self)
        requires
            self.wf(),
        ensures
            self@.inv(),
    {
        self.registry.lemma_open_vaults_assigned();
        self.shares.lemma_view();
        self.escrow.lemma_view();
    }

    /// The sum of all share balances.
    pub closed spec fn shares_outstanding(&self) -> nat {
        self.shares.total()
    }

    /// The shares outstanding are `SHARES` for each open vault, and no
    /// account holds more than are outstanding.
    pub proof fn lemma_shares_outstanding(&self, account: AccountId)
        requires
            self.wf(),
        ensures
            self.shares_outstanding() == SHARES * open_count(self@.vaults),
            self@.shares[account] <= self.shares_outstanding(),
            self.shares_outstanding() <= SHARES * VAULT_LIMIT,
    {
        self.registry.lemma_open_vaults_assigned();
        self.shares.lemma_balance_within_total(account);
        let open = open_count(self.registry.vaults());
        assert(SHARES * open <= SHARES * VAULT_LIMIT) by (nonlinear_arith)
            requires
                open <= VAULT_LIMIT,
        ;
    }

    /// An engine for the basket that requires `required_balances[i]` of
    /// `required_tokens[i]`, with no vault, no share and no escrow.
    /// `account` is the engine's own account on the asset ledgers.
    pub fn new(account: AccountId, required_tokens: Vec<AccountId>, required_balances: Vec<
        Balance,
    >) -> (etf: Etf)
        requires
            required_tokens@.len() == required_balances@.len(),
        ensures
            etf.wf(),
            etf@ == (EtfView {
                account,
                basket: BasketView { assets: required_tokens@, amounts: required_balances@ },
                vaults: Map::empty(),
                vaults_quantity: 0,
                shares: no_balances(),
                escrow: no_balances(),
                total_supply: 0,
                events: Seq::empty(),
            }),
    {
        let etf = Etf {
            account,
            basket: Basket::new(required_tokens, required_balances),
            registry: VaultRegistry::new(),
            shares: Ledger::new(),
            escrow: Ledger::new(),
            total_supply: 0,
            events: Vec::new(),
        };
        proof {
            lemma_tally_within(etf.registry.vaults(), None, 256, 0);
            assert(etf@.basket =~= BasketView {
                assets: required_tokens@,
                amounts: required_balances@,
            });
        }
        etf
    }

    /// The engine's own account.
    pub fn get_account(&self) -> (account: AccountId)
        ensures
            account == self@.account,
    {
        self.account
    }

    /// The assets of the basket, in order.
    pub fn get_required_tokens(&self) -> (tokens: Vec<AccountId>)
        ensures
            tokens@ == self@.basket.assets,
    {
        self.basket.assets()
    }

    /// The required amounts of the basket, in order.
    pub fn get_required_balances(&self) -> (balances: Vec<Balance>)
        ensures
            balances@ == self@.basket.amounts,
    {
        self.basket.amounts()
    }

    /// The owner of the open vault `vault`; `None` where no such vault is
    /// open.
    pub fn get_vault_owner(&self, vault: VaultId) -> (owner: Option<AccountId>)
        requires
            self.wf(),
        ensures
            owner == (if self@.vaults.contains_key(vault) {
                Some(self@.vaults[vault])
            } else {
                None
            }),
    {
        match self.registry.vault_owner(vault) {
            Ok(account) => Some(account),
            Err(_) => None,
        }
    }

    /// The number of open vaults that `owner` holds.
    pub fn get_vaults_quantity_per_owner(&self, owner: AccountId) -> (count: u8)
        requires
            self.wf(),
        ensures
            count == owned_by(self@.vaults, owner),
    {
        self.registry.vault_count_for(owner)
    }

    /// The number of vaults ever opened.
    pub fn get_vaults_quantity(&self) -> (count: u8)
        requires
            self.wf(),
        ensures
            count == self@.vaults_quantity,
    {
        self.registry.total_vault_count()
    }

    /// The pooled-share balance of `owner`.
    pub fn get_balance(&self, owner: AccountId) -> (balance: Balance)
        requires
            self.wf(),
        ensures
            balance == self@.shares[owner],
    {
        self.shares.balance_of(owner)
    }

    /// The escrowed holding of `asset`.
    pub fn get_escrow(&self, asset: AccountId) -> (balance: Balance)
        requires
            self.wf(),
        ensures
            balance == self@.escrow[asset],
    {
        self.escrow.balance_of(asset)
    }
}

/// Adds to the escrow of every asset what the basket requires of it.
fn deposit(escrow: &mut Ledger, basket: &Basket)
    requires
        old(escrow).wf(),
        basket.wf(),
        forall|a: AccountId| #[trigger]
            old(escrow)@[a] + basket@.required_of(a) <= Balance::MAX,
    ensures
        final(escrow).wf(),
        forall|a: AccountId| #[trigger]
            final(escrow)@[a] == old(escrow)@[a] + basket@.required_of(a),
{
    let n = basket.len();
    let mut i: usize = 0;
    while i < n
        invariant
            escrow.wf(),
            basket.wf(),
            n == basket@.assets.len(),
            i <= n,
            forall|a: AccountId| #[trigger]
                old(escrow)@[a] + basket@.required_of(a) <= Balance::MAX,
            forall|a: AccountId| #[trigger]
                escrow@[a] == old(escrow)@[a] + required_below(
                    basket@.assets,
                    basket@.amounts,
                    a,
                    i as nat,
                ),
        decreases n - i,
    {
        let asset = basket.asset(i);
        let amount = basket.amount(i);
        let ghost before = escrow@;
        proof {
            lemma_required_grows(basket@.assets, basket@.amounts, asset, (i + 1) as nat, n as nat);
            assert(old(escrow)@[asset] + basket@.required_of(asset) <= Balance::MAX);
            assert(before[asset] == old(escrow)@[asset] + required_below(
                basket@.assets,
                basket@.amounts,
                asset,
                i as nat,
            ));
        }
        let credited = escrow.credit(asset, amount);
        assert(credited is Ok);
        assert forall|a: AccountId| #[trigger]
            escrow@[a] == old(escrow)@[a] + required_below(
                basket@.assets,
                basket@.amounts,
                a,
                (i + 1) as nat,
            ) by {
            assert(before[a] == old(escrow)@[a] + required_below(
                basket@.assets,
                basket@.amounts,
                a,
                i as nat,
            ));
        }
        i += 1;
    }
}

/// Takes from the escrow of every asset what the basket requires of it.
fn withdraw(escrow: &mut Ledger, basket: &Basket)
    requires
        old(escrow).wf(),
        basket.wf(),
        forall|a: AccountId| #[trigger] old(escrow)@[a] >= basket@.required_of(a),
    ensures
        final(escrow).wf(),
        forall|a: AccountId| #[trigger]
            final(escrow)@[a] == old(escrow)@[a] - basket@.required_of(a),
{
    let n = basket.len();
    let mut i: usize = 0;
    while i < n
        invariant
            escrow.wf(),
            basket.wf(),
            n == basket@.assets.len(),
            i <= n,
            forall|a: AccountId| #[trigger] old(escrow)@[a] >= basket@.required_of(a),
            forall|a: AccountId| #[trigger]
                escrow@[a] == old(escrow)@[a] - required_below(
                    basket@.assets,
                    basket@.amounts,
                    a,
                    i as nat,
                ),
        decreases n - i,
    {
        let asset = basket.asset(i);
        let amount = basket.amount(i);
        let ghost before = escrow@;
        proof {
            lemma_required_grows(basket@.assets, basket@.amounts, asset, (i + 1) as nat, n as nat);
            assert(old(escrow)@[asset] >= basket@.required_of(asset));
            assert(before[asset] == old(escrow)@[asset] - required_below(
                basket@.assets,
                basket@.amounts,
                asset,
                i as nat,
            ));
        }
        let debited = escrow.debit(asset, amount);
        assert(debited is Ok);
        assert forall|a: AccountId| #[trigger]
            escrow@[a] == old(escrow)@[a] - required_below(
                basket@.assets,
                basket@.amounts,
                a,
                (i + 1) as nat,
            ) by {
            assert(before[a] == old(escrow)@[a] - required_below(
                basket@.assets,
                basket@.amounts,
                a,
                i as nat,
            ));
        }
        i += 1;
    }
}

/// Whether the escrow of every asset can take what the basket requires of
/// it.
fn takes(escrow: &Ledger, basket: &Basket) -> (fits: bool)
    requires
        escrow.wf(),
        basket.wf(),
    ensures
        fits == forall|a: AccountId| #[trigger]
            escrow@[a] + basket@.required_of(a) <= Balance::MAX,
{
    let n = basket.len();
    let mut i: usize = 0;
    while i < n
        invariant
            escrow.wf(),
            basket.wf(),
            n == basket@.assets.len(),
            i <= n,
            forall|k: int|
                0 <= k < i ==> escrow@[#[trigger] basket@.assets[k]] + basket@.required_of(
                    basket@.assets[k],
                ) <= Balance::MAX,
        decreases n - i,
    {
        let asset = basket.asset(i);
        let fits = match basket.required_total(asset) {
            Some(required) => escrow.balance_of(asset).checked_add(required).is_some(),
            None => false,
        };
        if !fits {
            assert(escrow@[asset] + basket@.required_of(asset) > Balance::MAX);
            return false;
        }
        i += 1;
    }
    proof {
        escrow.lemma_view();
        assert forall|a: AccountId| #[trigger]
            escrow@[a] + basket@.required_of(a) <= Balance::MAX by {
            if exists|k: int| 0 <= k < n && basket@.assets[k] == a {
                let k = choose|k: int| 0 <= k < n && basket@.assets[k] == a;
                assert(escrow@[basket@.assets[k]] + basket@.required_of(basket@.assets[k])
                    <= Balance::MAX);
            } else {
                lemma_required_absent(basket@.assets, basket@.amounts, a, n as nat);
            }
        }
    }
    true
}

impl Etf {
    /// Whether one more vault can be opened. `open_vault` must not be asked
    /// to commit where this is false.
    pub fn can_open(&self) -> (room: bool)
        requires
            self.wf(),
        ensures
            room == self@.has_room(),
    {
        if self.registry.total_vault_count() >= VAULT_LIMIT {
            return false;
        }
        let fits = takes(&self.escrow, &self.basket);
        proof {
            if fits {
                assert forall|a: AccountId| #[trigger]
                    self@.escrow[a] + self@.basket.required_of(a) <= Balance::MAX by {
                    assert(self.escrow@[a] + self.basket@.required_of(a) <= Balance::MAX);
                }
            } else {
                let a = choose|a: AccountId| #[trigger]
                    self.escrow@[a] + self.basket@.required_of(a) > Balance::MAX;
                assert(self@.escrow[a] + self@.basket.required_of(a) > Balance::MAX);
            }
        }
        fits
    }

    /// The transfers that move each basket amount from `from` to `to`.
    fn requests(&self, from: AccountId, to: AccountId) -> (requests: Vec<TransferRequest>)
        requires
            self.wf(),
        ensures
            requests@ == Seq::new(
                self@.basket.assets.len(),
                |i: int|
                    TransferRequest {
                        asset: self@.basket.assets[i],
                        selector: TRANSFER_FROM_SELECTOR,
                        from,
                        to,
                        amount: self@.basket.amounts[i],
                    },
            ),
    {
        let n = self.basket.len();
        let mut requests: Vec<TransferRequest> = Vec::new();
        let mut i: usize = 0;
        while i < n
            invariant
                self.wf(),
                n == self@.basket.assets.len(),
                i <= n,
                requests@.len() == i,
                forall|k: int|
                    0 <= k < i ==> requests@[k] == (TransferRequest {
                        asset: self@.basket.assets[k],
                        selector: TRANSFER_FROM_SELECTOR,
                        from,
                        to,
                        amount: self@.basket.amounts[k],
                    }),
            decreases n - i,
        {
            requests.push(
                TransferRequest {
                    asset: self.basket.asset(i),
                    selector: TRANSFER_FROM_SELECTOR,
                    from,
                    to,
                    amount: self.basket.amount(i),
                },
            );
            i += 1;
        }
        requests
    }

    /// The first half of opening a vault: refuses with `VaultAlreadyExists`
    /// where `vault` is open, and else lists the transfers that the gateway
    /// is to make, in basket order.
    pub fn open_requests(&self, caller: AccountId, vault: VaultId) -> (outcome: Result<
        Vec<TransferRequest>,
        ContractError,
    >)
        requires
            self.wf(),
        ensures
            match outcome {
                Ok(requests) => self@.open_barrier(vault) is None && requests@ == self@.deposits(
                    caller,
                ),
                Err(e) => self@.open_barrier(vault) == Some(e),
            },
    {
        if self.registry.is_open(vault) {
            return Err(ContractError::VaultAlreadyExists);
        }
        Ok(self.requests(caller, self.account))
    }

    /// The second half of opening a vault. `receipts[i]` is what the gateway
    /// reported of request `i` of `open_requests`.
    ///
    /// Refuses, and changes nothing, where `vault` is already open or the
    /// receipts do not confirm every transfer. Else the escrow of each asset
    /// grows by what the basket requires of it, the caller is registered as
    /// owner of a new vault, the caller receives `SHARES` shares and
    /// `VaultOpened` is emitted. The identity of the new vault is the number
    /// of vaults opened before, whatever `vault` is: `vault` only names the
    /// slot that must not be open.
    pub fn open_vault(
        &mut self,
        caller: AccountId,
        vault: VaultId,
        receipts: &Vec<Receipt>,
    ) -> (outcome: Result<VaultId, ContractError>)
        requires
            old(self).wf(),
            old(self)@.open_refusal(vault, receipts@) is None ==> old(self)@.has_room(),
        ensures
            final(self).wf(),
            (final(self)@, outcome) == old(self)@.open_step(caller, vault, receipts@),
            outcome is Err ==> *final(self) == *old(self),
    {
        if self.registry.is_open(vault) {
            return Err(ContractError::VaultAlreadyExists);
        }
        match confirm(self.basket.len(), receipts) {
            Some(e) => {
                return Err(e);
            },
            None => {},
        }
        let ghost before = self@;
        let ghost open_before = open_count(before.vaults);
        proof {
            self.lemma_inv();
            self.registry.lemma_open_vaults_assigned();
            self.shares.lemma_balance_within_total(caller);
            assert forall|a: AccountId| #[trigger]
                self.escrow@[a] + self.basket@.required_of(a) <= Balance::MAX by {
                assert(before.escrow[a] + before.basket.required_of(a) <= Balance::MAX);
            }
            assert(SHARES * open_before <= SHARES * VAULT_LIMIT) by (nonlinear_arith)
                requires
                    open_before <= VAULT_LIMIT,
            ;
        }
        deposit(&mut self.escrow, &self.basket);
        let id = self.registry.assign_new(caller);
        let minted = self.shares.credit(caller, SHARES);
        self.events.push(Event::Opened(VaultOpened { vault: id, owner: caller }));
        proof {
            assert(minted is Ok);
            self.escrow.lemma_view();
            lemma_tally_insert(before.vaults, None, id, caller, 256);
            assert(SHARES * (open_before + 1) == SHARES * open_before + SHARES)
                by (nonlinear_arith);
            assert forall|a: AccountId| #[trigger]
                self.escrow@[a] == self.basket@.required_of(a) * open_count(
                    self.registry.vaults(),
                ) by {
                let r = before.basket.required_of(a);
                assert(before.escrow[a] == r * open_before);
                assert(r * (open_before + 1) == r * open_before + r) by (nonlinear_arith);
            }
            assert(self@.escrow =~= before.opened(caller).escrow);
            assert(self@ == before.opened(caller));
        }
        Ok(id)
    }

    /// The first half of closing a vault: refuses with `CloseVaultFailed`
    /// where `vault` is not open and with `InsufficientBalance` where the
    /// caller holds fewer than `SHARES` shares, and else lists the transfers
    /// that the gateway is to make, in basket order.
    pub fn close_requests(&self, caller: AccountId, vault: VaultId) -> (outcome: Result<
        Vec<TransferRequest>,
        ContractError,
    >)
        requires
            self.wf(),
        ensures
            match outcome {
                Ok(requests) => self@.close_barrier(caller, vault) is None && requests@
                    == self@.redemptions(caller),
                Err(e) => self@.close_barrier(caller, vault) == Some(e),
            },
    {
        if !self.registry.is_open(vault) {
            return Err(ContractError::CloseVaultFailed);
        }
        if self.shares.balance_of(caller) < SHARES {
            return Err(ContractError::InsufficientBalance);
        }
        Ok(self.requests(self.account, caller))
    }

    /// The second half of closing a vault. `receipts[i]` is what the gateway
    /// reported of request `i` of `close_requests`.
    ///
    /// Refuses, and changes nothing, where `vault` is not open, the caller
    /// holds fewer than `SHARES` shares, or the receipts do not confirm
    /// every transfer. Else `SHARES` shares of the caller are burned, the
    /// escrow of each asset shrinks by what the basket requires of it, the
    /// vault leaves the registry and `VaultClosed` is emitted with the owner
    /// on record. Who holds the shares may close: the caller need not be
    /// that owner.
    pub fn close_vault(
        &mut self,
        caller: AccountId,
        vault: VaultId,
        receipts: &Vec<Receipt>,
    ) -> (outcome: Result<(), ContractError>)
        requires
            old(self).wf(),
        ensures
            final(self).wf(),
            (final(self)@, outcome) == old(self)@.close_step(caller, vault, receipts@),
            outcome is Err ==> *final(self) == *old(self),
    {
        let owner = match self.registry.vault_owner(vault) {
            Ok(account) => account,
            Err(_) => {
                return Err(ContractError::CloseVaultFailed);
            },
        };
        if self.shares.balance_of(caller) < SHARES {
            return Err(ContractError::InsufficientBalance);
        }
        match confirm(self.basket.len(), receipts) {
            Some(e) => {
                return Err(e);
            },
            None => {},
        }
        let ghost before = self@;
        let ghost open_before = open_count(before.vaults);
        proof {
            self.lemma_inv();
            lemma_tally_remove(before.vaults, None, vault, 256);
            assert forall|a: AccountId| #[trigger]
                self.escrow@[a] >= self.basket@.required_of(a) by {
                let r = before.basket.required_of(a);
                assert(before.escrow[a] == r * open_before);
                assert(r * open_before >= r) by (nonlinear_arith)
                    requires
                        open_before >= 1,
                        r >= 0,
                ;
            }
        }
        let burned = self.shares.debit(caller, SHARES);
        withdraw(&mut self.escrow, &self.basket);
        let released = self.registry.release(vault);
        self.events.push(Event::Closed(VaultClosed { vault, owner }));
        proof {
            assert(burned is Ok);
            assert(released is Ok);
            self.escrow.lemma_view();
            assert(SHARES * open_before == SHARES * (open_before - 1) + SHARES)
                by (nonlinear_arith);
            assert forall|a: AccountId| #[trigger]
                self.escrow@[a] == self.basket@.required_of(a) * open_count(
                    self.registry.vaults(),
                ) by {
                let r = before.basket.required_of(a);
                assert(before.escrow[a] == r * open_before);
                assert(r * open_before == r * (open_before - 1) + r) by (nonlinear_arith);
            }
            assert(self@.escrow =~= before.closed(caller, vault).escrow);
            assert(self@ == before.closed(caller, vault));
        }
        Ok(())
    }

    /// Hands out the notices emitted since the last call, oldest first, and
    /// leaves none behind.
    pub fn take_events(&mut self) -> (events: Vec<Event>)
        requires
            old(self).wf(),
        ensures
            final(self).wf(),
            events@ == old(self)@.events,
            final(self)@ == (EtfView { events: Seq::empty(), ..old(self)@ }),
    {
        let mut events: Vec<Event> = Vec::new();
        std::mem::swap(&mut self.events, &mut events);
        events
    }
}

/// The engine's state as plain values, to be stored and brought back.
/// Notices that were emitted and not yet taken are not part of it.
#[derive(Debug, PartialEq, Eq)]
pub struct EtfSnapshot {
    /// The engine's own account.
    pub account: AccountId,
    /// The assets of the basket, in order.
    pub required_tokens: Vec<AccountId>,
    /// The required amounts of the basket, in order.
    pub required_balances: Vec<Balance>,
    /// One slot for each vault ever opened: its owner while it is open.
    pub vaults: Vec<Option<AccountId>>,
    /// Share balances; an account named twice holds the sum.
    pub shares: Vec<(AccountId, Balance)>,
    /// The supply counter.
    pub total_supply: Balance,
}

impl EtfSnapshot {
    /// The basket recorded.
    pub open spec fn basket(&self) -> BasketView {
        BasketView { assets: self.required_tokens@, amounts: self.required_balances@ }
    }

    /// The number of open vaults recorded.
    pub open spec fn open(&self) -> nat {
        open_count(vaults_of(self.vaults@))
    }

    /// Whether the values are a state that the engine can be in: the basket
    /// is aligned, the vaults fit the identity type, the shares add up to
    /// `SHARES` for each open vault, and the escrow that the open vaults
    /// call for fits the amount type.
    pub open spec fn valid(&self) -> bool {
        &&& self.basket().aligned()
        &&& self.vaults@.len() <= VAULT_LIMIT
        &&& entries_total(self.shares@) == SHARES * self.open()
        &&& forall|a: AccountId| #[trigger]
            self.basket().required_of(a) * self.open() <= Balance::MAX
    }

    /// The state recorded. The escrow is not stored: it is what the open
    /// vaults call for.
    pub open spec fn state(&self) -> EtfView {
        EtfView {
            account: self.account,
            basket: self.basket(),
            vaults: vaults_of(self.vaults@),
            vaults_quantity: self.vaults@.len(),
            shares: credited(self.shares@),
            escrow: Map::total(|a: AccountId| self.basket().required_of(a) * self.open()),
            total_supply: self.total_supply,
            events: Seq::empty(),
        }
    }
}

impl Etf {
    /// The state as plain values.
    pub fn snapshot(&self) -> (snapshot: EtfSnapshot)
        requires
            self.wf(),
        ensures
            snapshot.valid(),
            snapshot.state() == (EtfView { events: Seq::empty(), ..self@ }),
    {
        let snapshot = EtfSnapshot {
            account: self.account,
            required_tokens: self.basket.assets(),
            required_balances: self.basket.amounts(),
            vaults: self.registry.slots(),
            shares: self.shares.entries(),
            total_supply: self.total_supply,
        };
        proof {
            self.lemma_inv();
            self.escrow.lemma_view();
            assert(snapshot.basket() == self@.basket);
            assert forall|a: AccountId| #[trigger]
                snapshot.basket().required_of(a) * snapshot.open() <= Balance::MAX by {
                assert(self.escrow@[a] == self.basket@.required_of(a) * open_count(
                    self.registry.vaults(),
                ));
            }
            assert(snapshot.state().escrow =~= self@.escrow) by {
                assert forall|a: AccountId|
                    snapshot.state().escrow[a] == #[trigger] self@.escrow[a] by {
                    assert(self.escrow@[a] == self.basket@.required_of(a) * open_count(
                        self.registry.vaults(),
                    ));
                }
            }
        }
        snapshot
    }

    /// The engine in the state that `snapshot` records, with no notice
    /// pending; `None` where the values are not a state that the engine can
    /// be in.
    pub fn restore(snapshot: EtfSnapshot) -> (etf: Option<Etf>)
        ensures
            match etf {
                Some(e) => snapshot.valid() && e.wf() && e@ == snapshot.state(),
                None => !snapshot.valid(),
            },
    {
        if snapshot.required_tokens.len() != snapshot.required_balances.len() {
            return None;
        }
        let registry = match VaultRegistry::from_slots(&snapshot.vaults) {
            Some(registry) => registry,
            None => {
                return None;
            },
        };
        let open = registry.open_vaults();
        proof {
            registry.lemma_open_vaults_assigned();
        }
        let shares = match Ledger::from_entries(&snapshot.shares) {
            Some(shares) => shares,
            None => {
                proof {
                    let k = choose|k: AccountId| credited(snapshot.shares@)[k] > Balance::MAX;
                    lemma_credited_grows(snapshot.shares@, 0, k);
                    assert(SHARES * open <= SHARES * VAULT_LIMIT) by (nonlinear_arith)
                        requires
                            open <= VAULT_LIMIT,
                    ;
                }
                return None;
            },
        };
        let outstanding: Balance = SHARES * (open as Balance);
        match shares.total_held() {
            Some(held) => {
                if held != outstanding {
                    return None;
                }
            },
            None => {
                return None;
            },
        }
        let basket = Basket::new(snapshot.required_tokens, snapshot.required_balances);
        let mut escrow = Ledger::new();
        let mut k: u8 = 0;
        while k < open
            invariant
                basket.wf(),
                escrow.wf(),
                k <= open,
                basket@ == snapshot.basket(),
                open == snapshot.open(),
                forall|a: AccountId| #[trigger] escrow@[a] == basket@.required_of(a) * k,
            decreases open - k,
        {
            if !takes(&escrow, &basket) {
                proof {
                    let a = choose|a: AccountId| #[trigger]
                        escrow@[a] + basket@.required_of(a) > Balance::MAX;
                    let r = basket@.required_of(a);
                    assert(escrow@[a] == r * k);
                    assert(r * open >= r * k + r) by (nonlinear_arith)
                        requires
                            k < open,
                            r >= 0,
                    ;
                    assert(snapshot.basket().required_of(a) * snapshot.open() > Balance::MAX);
                }
                return None;
            }
            let ghost before = escrow@;
            deposit(&mut escrow, &basket);
            k += 1;
            assert forall|a: AccountId| #[trigger] escrow@[a] == basket@.required_of(a) * k by {
                let r = basket@.required_of(a);
                assert(before[a] == r * (k - 1));
                assert(r * (k - 1) + r == r * k) by (nonlinear_arith);
            }
        }
        let etf = Etf {
            account: snapshot.account,
            basket,
            registry,
            shares,
            escrow,
            total_supply: snapshot.total_supply,
            events: Vec::new(),
        };
        proof {
            etf.escrow.lemma_view();
            assert(etf@.basket == snapshot.basket());
            assert(etf@.escrow =~= snapshot.state().escrow);
            assert forall|a: AccountId| #[trigger]
                snapshot.basket().required_of(a) * snapshot.open() <= Balance::MAX by {
                assert(etf.escrow@[a] == etf.basket@.required_of(a) * open);
            }
        }
        Some(etf)
    }
}

/// The token interface of the pooled shares.
pub trait Erc20 {
    /// Whether the token is valid.
    spec fn token_wf(&self) -> bool;

    /// The balance of every account.
    spec fn balances(&self) -> Map<AccountId, nat>;

    /// The supply counter.
    spec fn supply(&self) -> Balance;

    /// The name of the token.
    fn get_name(&self) -> (name: String);

    /// The symbol of the token.
    fn get_symbol(&self) -> (symbol: String);

    /// The balance of `owner`; zero for an account that never held any.
    fn balance_of(&self, owner: AccountId) -> (balance: Balance)
        requires
            self.token_wf(),
        ensures
            balance == self.balances()[owner],
    ;

    /// The supply counter.
    fn total_supply(&self) -> (supply: Balance)
        requires
            self.token_wf(),
        ensures
            supply == self.supply(),
    ;

    /// Moves `value` from `caller` to `to` and returns what the caller then
    /// holds; refuses with `InsufficientBalance`, and changes nothing, where
    /// the caller holds less.
    fn transfer(&mut self, caller: AccountId, to: AccountId, value: Balance) -> (outcome: Result<
        Balance,
        ContractError,
    >)
        requires
            old(self).token_wf(),
        ensures
            final(self).token_wf(),
            final(self).supply() == old(self).supply(),
            old(self).balances()[caller] < value ==> outcome == Err::<Balance, ContractError>(
                ContractError::InsufficientBalance,
            ) && final(self).balances() == old(self).balances(),
            old(self).balances()[caller] >= value ==> final(self).balances() == moved(
                old(self).balances(),
                caller,
                to,
                value as nat,
            ) && outcome == Ok::<Balance, ContractError>(
                final(self).balances()[caller] as Balance,
            ),
    ;

    /// The owner of the token, as far as `caller` is told.
    fn get_owner(&self, caller: AccountId) -> (owner: AccountId);

    /// Moves `value` from `from` to `to` and returns what `from` then holds;
    /// refuses with `InsufficientBalance`, and changes nothing, where `from`
    /// holds less. Whether the caller may spend what `from` holds is not
    /// checked.
    fn transfer_from(&mut self, from: AccountId, to: AccountId, value: Balance) -> (outcome: Result<
        Balance,
        ContractError,
    >)
        requires
            old(self).token_wf(),
        ensures
            final(self).token_wf(),
            final(self).supply() == old(self).supply(),
            old(self).balances()[from] < value ==> outcome == Err::<Balance, ContractError>(
                ContractError::InsufficientBalance,
            ) && final(self).balances() == old(self).balances(),
            old(self).balances()[from] >= value ==> final(self).balances() == moved(
                old(self).balances(),
                from,
                to,
                value as nat,
            ) && outcome == Ok::<Balance, ContractError>(final(self).balances()[from] as Balance),
    ;
}

impl Erc20 for Etf {
    open spec fn token_wf(&self) -> bool {
        self.wf()
    }

    open spec fn balances(&self) -> Map<AccountId, nat> {
        self@.shares
    }

    open spec fn supply(&self) -> Balance {
        self@.total_supply
    }

    fn get_name(&self) -> (name: String)
        ensures
            name@ == "X-ETF-INDEX-0"@,
    {
        "X-ETF-INDEX-0".to_owned()
    }

    fn get_symbol(&self) -> (symbol: String)
        ensures
            symbol@ == "XTF"@,
    {
        "XTF".to_owned()
    }

    fn balance_of(&self, owner: AccountId) -> (balance: Balance) {
        self.shares.balance_of(owner)
    }

    /// The supply counter. Opening a vault mints shares without raising it,
    /// so it stays at zero and is not the sum of the balances.
    fn total_supply(&self) -> (supply: Balance) {
        self.total_supply
    }

    fn transfer(&mut self, caller: AccountId, to: AccountId, value: Balance) -> (outcome: Result<
        Balance,
        ContractError,
    >)
        ensures
            outcome is Ok ==> final(self)@ == old(self)@.moved(caller, to, value),
            outcome is Err ==> *final(self) == *old(self),
    {
        self.transfer_from(caller, to, value)
    }

    /// The shares have no owner on record: the caller is handed back.
    fn get_owner(&self, caller: AccountId) -> (owner: AccountId)
        ensures
            owner == caller,
    {
        caller
    }

    fn transfer_from(&mut self, from: AccountId, to: AccountId, value: Balance) -> (outcome: Result<
        Balance,
        ContractError,
    >)
        ensures
            outcome is Ok ==> final(self)@ == old(self)@.moved(from, to, value),
            outcome is Err ==> *final(self) == *old(self),
    {
        proof {
            // The shares outstanding are bounded by the number of vaults, so
            // the ledger never refuses for want of room.
            self.registry.lemma_open_vaults_assigned();
            let open = open_count(self.registry.vaults());
            assert(SHARES * open <= SHARES * VAULT_LIMIT) by (nonlinear_arith)
                requires
                    open <= VAULT_LIMIT,
            ;
            if from != to {
                self.shares.lemma_pair_within_total(from, to);
            }
        }
        match self.shares.transfer(from, to, value) {
            Ok(left) => Ok(left),
            Err(_) => Err(ContractError::InsufficientBalance),
        }
    }
}

} // verus!
