//! A plain single-asset ledger: the kind of token that a basket is made of.
//!
//! Its `transfer_from` is the operation that the engine asks the gateway
//! for, once for each basket asset.

use vstd::prelude::*;
use crate::account::{AccountId, Balance};
use crate::ledger::{credited, entries_total, lemma_credited_grows, moved, no_balances, Ledger};

verus! {

/// The operation selector under which `transfer_from` is reached.
pub const TRANSFER_FROM_SELECTOR: [u8; 4] = crate::gateway::TRANSFER_FROM_SELECTOR;

/// Why the token refused an operation.
#[derive(Clone, Copy, Debug, PartialEq, Eq, Structural)]
pub enum Error {
    /// The paying account holds less than the amount.
    InsufficientBalance,
}

/// The model of a token.
pub struct FungibleTokenView {
    pub name: Seq<char>,
    pub symbol: Seq<char>,
    /// The account that made the token and may mint.
    pub owner: AccountId,
    /// The sum of all balances.
    pub total_supply: Balance,
    /// The balance of every account.
    pub balances: Map<AccountId, nat>,
}

/// A token with a name, a symbol, an owner and a balance for each account.
pub struct FungibleToken {
    name: String,
    symbol: String,
    owner: AccountId,
    total_supply: Balance,
    balances: Ledger,
}

impl View for FungibleToken {
    type V = FungibleTokenView;

    closed spec fn view(&self) -> FungibleTokenView {
        FungibleTokenView {
            name: self.name@,
            symbol: self.symbol@,
            owner: self.owner,
            total_supply: self.total_supply,
            balances: self.balances@,
        }
    }
}

impl FungibleToken {
    /// The balances add up to the supply.
    pub closed spec fn wf(&self) -> bool {
        &&& self.balances.wf()
        &&& self.balances.total() == self.total_supply
    }

    /// No balance exceeds the supply.
    pub proof fn lemma_balance_within_supply(&self, account: AccountId)
        requires
            self.wf(),
        ensures
            self@.balances[account] <= self@.total_supply,
    {
        self.balances.lemma_balance_within_total(account);
    }

    /// A token whose whole supply is held by `caller`, who becomes its
    /// owner.
    pub fn new(caller: AccountId, name: String, symbol: String, total_supply: Balance) -> (token:
        FungibleToken)
        ensures
            token.wf(),
            token@ == (FungibleTokenView {
                name: name@,
                symbol: symbol@,
                owner: caller,
                total_supply,
                balances: no_balances().insert(caller, total_supply as nat),
            }),
    {
        let mut balances = Ledger::new();
        let issued = balances.credit(caller, total_supply);
        assert(issued is Ok);
        FungibleToken { name, symbol, owner: caller, total_supply, balances }
    }

    /// The accounts that were ever credited, each once, with what it holds.
    pub fn holdings(&self) -> (holdings: Vec<(AccountId, Balance)>)
        requires
            self.wf(),
        ensures
            credited(holdings@) == self@.balances,
            entries_total(holdings@) == self@.total_supply,
    {
        self.balances.entries()
    }

    /// The token with the given name, symbol, owner and supply in which the
    /// accounts hold what `holdings` credits them with; `None` where the
    /// holdings do not add up to the supply.
    pub fn restore(
        name: String,
        symbol: String,
        owner: AccountId,
        total_supply: Balance,
        holdings: &Vec<(AccountId, Balance)>,
    ) -> (token: Option<FungibleToken>)
        ensures
            match token {
                Some(t) => {
                    &&& entries_total(holdings@) == total_supply
                    &&& t.wf()
                    &&& t@ == (FungibleTokenView {
                        name: name@,
                        symbol: symbol@,
                        owner,
                        total_supply,
                        balances: credited(holdings@),
                    })
                },
                None => entries_total(holdings@) != total_supply,
            },
    {
        let balances = match Ledger::from_entries(holdings) {
            Some(balances) => balances,
            None => {
                proof {
                    let k = choose|k: AccountId| credited(holdings@)[k] > Balance::MAX;
                    lemma_credited_grows(holdings@, 0, k);
                }
                return None;
            },
        };
        match balances.total_held() {
            Some(held) => {
                if held != total_supply {
                    return None;
                }
            },
            None => {
                return None;
            },
        }
        Some(FungibleToken { name, symbol, owner, total_supply, balances })
    }

    /// Creates `value` new units for `to` and raises the supply by as much.
    /// Only the owner may mint, and the supply must fit the amount type.
    pub fn mint_to(&mut self, caller: AccountId, to: AccountId, value: Balance)
        requires
            old(self).wf(),
            caller == old(self)@.owner,
            old(self)@.total_supply + value <= Balance::MAX,
        ensures
            final(self).wf(),
            final(self)@ == (FungibleTokenView {
                total_supply: (old(self)@.total_supply + value) as Balance,
                balances: old(self)@.balances.insert(
                    to,
                    old(self)@.balances[to] + value as nat,
                ),
                ..old(self)@
            }),
    {
        proof {
            self.balances.lemma_balance_within_total(to);
        }
        let minted = self.balances.credit(to, value);
        assert(minted is Ok);
        self.total_supply = self.total_supply + value;
    }
}

/// The token interface.
pub trait Erc20 {
    /// Whether the token is valid.
    spec fn token_wf(&self) -> bool;

    /// The balance of every account.
    spec fn balances(&self) -> Map<AccountId, nat>;

    /// The sum of all balances.
    spec fn supply(&self) -> Balance;

    /// The name of the token.
    fn get_name(&self) -> (name: String);

    /// The symbol of the token.
    fn get_symbol(&self) -> (symbol: String);

    /// The sum of all balances.
    fn total_supply(&self) -> (supply: Balance)
        requires
            self.token_wf(),
        ensures
            supply == self.supply(),
    ;

    /// The balance of `account`; zero for an account that never held any.
    fn balance_of(&self, account: AccountId) -> (balance: Balance)
        requires
            self.token_wf(),
        ensures
            balance == self.balances()[account],
    ;

    /// The account that made the token.
    fn get_owner(&self) -> (owner: AccountId);

    /// Moves `value` from `caller` to `to` and returns what the caller then
    /// holds; refuses with `InsufficientBalance`, and changes nothing, where
    /// the caller holds less.
    fn transfer(&mut self, caller: AccountId, to: AccountId, value: Balance) -> (outcome: Result<
        Balance,
        Error,
    >)
        requires
            old(self).token_wf(),
        ensures
            final(self).token_wf(),
            final(self).supply() == old(self).supply(),
            old(self).balances()[caller] < value ==> outcome == Err::<Balance, Error>(
                Error::InsufficientBalance,
            ) && final(self).balances() == old(self).balances(),
            old(self).balances()[caller] >= value ==> final(self).balances() == moved(
                old(self).balances(),
                caller,
                to,
                value as nat,
            ) && outcome == Ok::<Balance, Error>(final(self).balances()[caller] as Balance),
    ;

    /// Moves `value` from `from` to `to` and returns what `from` then holds;
    /// refuses with `InsufficientBalance`, and changes nothing, where `from`
    /// holds less. Whether the caller may spend what `from` holds is not
    /// checked.
    fn transfer_from(&mut self, from: AccountId, to: AccountId, value: Balance) -> (outcome: Result<
        Balance,
        Error,
    >)
        requires
            old(self).token_wf(),
        ensures
            final(self).token_wf(),
            final(self).supply() == old(self).supply(),
            old(self).balances()[from] < value ==> outcome == Err::<Balance, Error>(
                Error::InsufficientBalance,
            ) && final(self).balances() == old(self).balances(),
            old(self).balances()[from] >= value ==> final(self).balances() == moved(
                old(self).balances(),
                from,
                to,
                value as nat,
            ) && outcome == Ok::<Balance, Error>(final(self).balances()[from] as Balance),
    ;
}

impl Erc20 for FungibleToken {
    open spec fn token_wf(&self) -> bool {
        self.wf()
    }

    open spec fn balances(&self) -> Map<AccountId, nat> {
        self@.balances
    }

    open spec fn supply(&self) -> Balance {
        self@.total_supply
    }

    fn get_name(&self) -> (name: String)
        ensures
            name@ == self@.name,
    {
        self.name.clone()
    }

    fn get_symbol(&self) -> (symbol: String)
        ensures
            symbol@ == self@.symbol,
    {
        self.symbol.clone()
    }

    fn total_supply(&self) -> (supply: Balance) {
        self.total_supply
    }

    fn balance_of(&self, account: AccountId) -> (balance: Balance) {
        self.balances.balance_of(account)
    }

    fn get_owner(&self) -> (owner: AccountId)
        ensures
            owner == self@.owner,
    {
        self.owner
    }

    fn transfer(&mut self, caller: AccountId, to: AccountId, value: Balance) -> (outcome: Result<
        Balance,
        Error,
    >)
        ensures
            final(self)@ == (FungibleTokenView { balances: final(self)@.balances, ..old(self)@ }),
            outcome is Err ==> *final(self) == *old(self),
    {
        self.transfer_from(caller, to, value)
    }

    fn transfer_from(&mut self, from: AccountId, to: AccountId, value: Balance) -> (outcome: Result<
        Balance,
        Error,
    >)
        ensures
            final(self)@ == (FungibleTokenView { balances: final(self)@.balances, ..old(self)@ }),
            outcome is Err ==> *final(self) == *old(self),
    {
        proof {
            // The balances add up to the supply, so the ledger never refuses
            // for want of room.
            if from != to {
                self.balances.lemma_pair_within_total(from, to);
            }
        }
        match self.balances.transfer(from, to, value) {
            Ok(left) => Ok(left),
            Err(_) => Err(Error::InsufficientBalance),
        }
    }
}

} // verus!
