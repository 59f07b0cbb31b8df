//! A balance ledger: one amount per account, zero for an account that was
//! never credited.
//!
//! The engine keeps two of them, one for the escrowed holding of each basket
//! asset and one for the pooled-share balance of each user, so that an asset
//! identifier and a user account can never collide in one key space.

use vstd::prelude::*;
use crate::account::{AccountId, Balance};

verus! {

/// Why a ledger operation was refused.
#[derive(Clone, Copy, Debug, PartialEq, Eq, Structural)]
pub enum LedgerError {
    /// A debit asked for more than the account holds.
    InsufficientBalance,
    /// A credit would carry the balance past the largest amount.
    Overflow,
}

/// Balances by account.
///
/// The model is a total map from accounts to amounts (`self@`), together
/// with the sum of all amounts held (`self.total()`).
pub struct Ledger {
    keys: Vec<AccountId>,
    amounts: Vec<Balance>,
}

/// The sum of a sequence of amounts.
pub open spec fn sum_of(amounts: Seq<Balance>) -> nat
    decreases amounts.len(),
{
    if amounts.len() == 0 {
        0
    } else {
        sum_of(amounts.drop_last()) + amounts.last() as nat
    }
}

/// The ledger in which every account holds nothing.
pub open spec fn no_balances() -> Map<AccountId, nat> {
    Map::total(|k: AccountId| 0nat)
}

/// The balances after `value` moved from `from` to `to`. Moving from an
/// account to itself changes nothing.
pub open spec fn moved(
    balances: Map<AccountId, nat>,
    from: AccountId,
    to: AccountId,
    value: nat,
) -> Map<AccountId, nat> {
    let debited = balances.insert(from, (balances[from] - value) as nat);
    debited.insert(to, debited[to] + value)
}

/// What `key` holds in the association `keys[i] -> amounts[i]`.
spec fn held(keys: Seq<AccountId>, amounts: Seq<Balance>, key: AccountId) -> nat {
    if keys.contains(key) {
        amounts[keys.index_of(key)] as nat
    } else {
        0
    }
}

proof fn lemma_held_at(keys: Seq<AccountId>, amounts: Seq<Balance>, i: int)
    requires
        keys.no_duplicates(),
        keys.len() == amounts.len(),
        0 <= i < keys.len(),
    ensures
        held(keys, amounts, keys[i]) == amounts[i],
{
    assert(keys.contains(keys[i]));
}

proof fn lemma_sum_update(amounts: Seq<Balance>, i: int, v: Balance)
    requires
        0 <= i < amounts.len(),
    ensures
        sum_of(amounts.update(i, v)) + amounts[i] == sum_of(amounts) + v,
        amounts[i] <= sum_of(amounts),
    decreases amounts.len(),
{
    let updated = amounts.update(i, v);
    if i == amounts.len() - 1 {
        assert(updated.drop_last() =~= amounts.drop_last());
    } else {
        lemma_sum_update(amounts.drop_last(), i, v);
        assert(updated.drop_last() =~= amounts.drop_last().update(i, v));
    }
}

proof fn lemma_sum_pair(amounts: Seq<Balance>, i: int, j: int)
    requires
        0 <= i < j < amounts.len(),
    ensures
        amounts[i] + amounts[j] <= sum_of(amounts),
    decreases amounts.len(),
{
    if j == amounts.len() - 1 {
        lemma_sum_update(amounts.drop_last(), i, 0);
    } else {
        lemma_sum_pair(amounts.drop_last(), i, j);
    }
}

/// The balances that crediting `entries`, one after another, gives to a
/// ledger in which every account held nothing.
pub open spec fn credited(entries: Seq<(AccountId, Balance)>) -> Map<AccountId, nat>
    decreases entries.len(),
{
    if entries.len() == 0 {
        no_balances()
    } else {
        let before = credited(entries.drop_last());
        before.insert(entries.last().0, before[entries.last().0] + entries.last().1 as nat)
    }
}

/// The sum of the amounts of `entries`.
pub open spec fn entries_total(entries: Seq<(AccountId, Balance)>) -> nat
    decreases entries.len(),
{
    if entries.len() == 0 {
        0
    } else {
        entries_total(entries.drop_last()) + entries.last().1 as nat
    }
}

/// Every account is credited with something, and entries that follow never
/// lower what an account was credited with.
pub proof fn lemma_credited_grows(entries: Seq<(AccountId, Balance)>, n: int, key: AccountId)
    requires
        0 <= n <= entries.len(),
    ensures
        credited(entries).contains_key(key),
        credited(entries.take(n))[key] <= credited(entries)[key],
        entries_total(entries.take(n)) <= entries_total(entries),
        credited(entries)[key] <= entries_total(entries),
    decreases entries.len(),
{
    if entries.len() == 0 {
        assert(entries.take(n) =~= entries);
    } else if n == entries.len() {
        assert(entries.take(n) =~= entries);
        lemma_credited_grows(entries.drop_last(), n - 1, key);
    } else {
        assert(entries.drop_last().take(n) =~= entries.take(n));
        lemma_credited_grows(entries.drop_last(), n, key);
        lemma_credited_grows(entries.drop_last(), n, entries.last().0);
    }
}

proof fn lemma_sum_prefix(amounts: Seq<Balance>, n: int)
    requires
        0 <= n <= amounts.len(),
    ensures
        sum_of(amounts.take(n)) <= sum_of(amounts),
    decreases amounts.len(),
{
    if n == amounts.len() {
        assert(amounts.take(n) =~= amounts);
    } else {
        assert(amounts.drop_last().take(n) =~= amounts.take(n));
        lemma_sum_prefix(amounts.drop_last(), n);
    }
}

proof fn lemma_entries_of_association(
    keys: Seq<AccountId>,
    amounts: Seq<Balance>,
    entries: Seq<(AccountId, Balance)>,
)
    requires
        keys.no_duplicates(),
        keys.len() == amounts.len(),
        entries.len() == keys.len(),
        forall|j: int| 0 <= j < entries.len() ==> entries[j] == (keys[j], amounts[j]),
    ensures
        forall|k: AccountId| #[trigger] credited(entries)[k] == held(keys, amounts, k),
        entries_total(entries) == sum_of(amounts),
    decreases entries.len(),
{
    if entries.len() > 0 {
        let n = entries.len() - 1;
        lemma_entries_of_association(keys.drop_last(), amounts.drop_last(), entries.drop_last());
        assert forall|k: AccountId| #[trigger] credited(entries)[k] == held(keys, amounts, k) by {
            assert(credited(entries.drop_last())[k] == held(
                keys.drop_last(),
                amounts.drop_last(),
                k,
            ));
            if k == keys[n] {
                lemma_held_at(keys, amounts, n);
                if keys.drop_last().contains(k) {
                    let j = keys.drop_last().index_of(k);
                    assert(keys[j] == keys[n]);
                }
            } else if keys.contains(k) {
                let j = keys.index_of(k);
                assert(keys.drop_last()[j] == k);
                lemma_held_at(keys, amounts, j);
                lemma_held_at(keys.drop_last(), amounts.drop_last(), j);
            } else {
                if keys.drop_last().contains(k) {
                    let j = keys.drop_last().index_of(k);
                    assert(keys[j] == k);
                }
            }
        }
    }
}

impl View for Ledger {
    type V = Map<AccountId, nat>;

    closed spec fn view(&self) -> Map<AccountId, nat> {
        Map::total(|k: AccountId| held(self.keys@, self.amounts@, k))
    }
}

impl Ledger {
    /// Every account appears at most once.
    pub closed spec fn wf(&self) -> bool {
        &&& self.keys@.len() == self.amounts@.len()
        &&& self.keys@.no_duplicates()
    }

    /// The sum of all balances.
    pub closed spec fn total(&self) -> nat {
        sum_of(self.amounts@)
    }

    /// The model is total, and every balance fits the amount type.
    pub proof fn lemma_view(&self)
        requires
            self.wf(),
        ensures
            forall|k: AccountId| #[trigger] self@.contains_key(k),
            forall|k: AccountId| #[trigger] self@[k] <= Balance::MAX,
    {
    }

    /// No single balance exceeds the sum of all balances.
    pub proof fn lemma_balance_within_total(&self, key: AccountId)
        requires
            self.wf(),
        ensures
            self@[key] <= self.total(),
    {
        if self.keys@.contains(key) {
            let i = self.keys@.index_of(key);
            lemma_sum_update(self.amounts@, i, 0);
        }
    }

    /// No two balances together exceed the sum of all balances.
    pub proof fn lemma_pair_within_total(&self, one: AccountId, other: AccountId)
        requires
            self.wf(),
            one != other,
        ensures
            self@[one] + self@[other] <= self.total(),
    {
        if self.keys@.contains(one) && self.keys@.contains(other) {
            let i = self.keys@.index_of(one);
            let j = self.keys@.index_of(other);
            if i < j {
                lemma_sum_pair(self.amounts@, i, j);
            } else {
                lemma_sum_pair(self.amounts@, j, i);
            }
        } else {
            self.lemma_balance_within_total(one);
            self.lemma_balance_within_total(other);
        }
    }

    /// A ledger in which every account holds nothing.
    pub fn new() -> (ledger: Ledger)
        ensures
            ledger.wf(),
            ledger@ == no_balances(),
            ledger.total() == 0,
    {
        let ledger = Ledger { keys: Vec::new(), amounts: Vec::new() };
        assert(ledger@ =~= no_balances());
        ledger
    }

    fn position(&self, key: AccountId) -> (at: Option<usize>)
        requires
            self.wf(),
        ensures
            match at {
                Some(i) => i < self.keys@.len() && self.keys@[i as int] == key,
                None => !self.keys@.contains(key),
            },
    {
        let mut i: usize = 0;
        while i < self.keys.len()
            invariant
                i <= self.keys@.len(),
                forall|j: int| 0 <= j < i ==> self.keys@[j] != key,
            decreases self.keys@.len() - i,
        {
            if self.keys[i] == key {
                return Some(i);
            }
            i += 1;
        }
        None
    }

    /// The balance of `key`; zero for an account the ledger has never seen.
    pub fn balance_of(&self, key: AccountId) -> (balance: Balance)
        requires
            self.wf(),
        ensures
            balance == self@[key],
    {
        match self.position(key) {
            Some(i) => {
                proof {
                    lemma_held_at(self.keys@, self.amounts@, i as int);
                }
                self.amounts[i]
            },
            None => 0,
        }
    }

    /// Stores `amount` as the balance of `key`.
    fn put(&mut self, key: AccountId, amount: Balance)
        requires
            old(self).wf(),
        ensures
            final(self).wf(),
            final(self)@ == old(self)@.insert(key, amount as nat),
            final(self).total() + old(self)@[key] == old(self).total() + amount,
    {
        let ghost keys0 = self.keys@;
        let ghost amounts0 = self.amounts@;
        match self.position(key) {
            Some(i) => {
                self.amounts[i] = amount;
                proof {
                    lemma_held_at(keys0, amounts0, i as int);
                    lemma_sum_update(amounts0, i as int, amount);
                    assert forall|k: AccountId|
                        held(self.keys@, self.amounts@, k) == (if k == key {
                            amount as nat
                        } else {
                            held(keys0, amounts0, k)
                        }) by {
                        if keys0.contains(k) {
                            let j = keys0.index_of(k);
                            lemma_held_at(self.keys@, self.amounts@, j);
                            lemma_held_at(keys0, amounts0, j);
                        }
                    }
                }
            },
            None => {
                self.keys.push(key);
                self.amounts.push(amount);
                proof {
                    let n = keys0.len() as int;
                    assert(self.amounts@.drop_last() =~= amounts0);
                    assert forall|k: AccountId|
                        held(self.keys@, self.amounts@, k) == (if k == key {
                            amount as nat
                        } else {
                            held(keys0, amounts0, k)
                        }) by {
                        if k == key {
                            assert(self.keys@[n] == key);
                            lemma_held_at(self.keys@, self.amounts@, n);
                        } else if keys0.contains(k) {
                            let j = keys0.index_of(k);
                            assert(self.keys@[j] == k);
                            lemma_held_at(self.keys@, self.amounts@, j);
                        } else {
                            if self.keys@.contains(k) {
                                let j = self.keys@.index_of(k);
                                assert(keys0[j] == k);
                            }
                        }
                    }
                }
            },
        }
        assert(self@ =~= old(self)@.insert(key, amount as nat));
    }

    /// Adds `amount` to the balance of `key`, or refuses with `Overflow` and
    /// leaves the ledger as it was when the sum does not fit.
    pub fn credit(&mut self, key: AccountId, amount: Balance) -> (outcome: Result<(), LedgerError>)
        requires
            old(self).wf(),
        ensures
            final(self).wf(),
            outcome is Ok <==> old(self)@[key] + amount <= Balance::MAX,
            outcome is Ok ==> final(self)@ == old(self)@.insert(
                key,
                (old(self)@[key] + amount) as nat,
            ) && final(self).total() == old(self).total() + amount,
            outcome is Err ==> outcome == Err::<(), LedgerError>(LedgerError::Overflow)
                && *final(self) == *old(self),
    {
        let held = self.balance_of(key);
        match held.checked_add(amount) {
            Some(raised) => {
                self.put(key, raised);
                Ok(())
            },
            None => Err(LedgerError::Overflow),
        }
    }

    /// Takes `amount` from the balance of `key`, or refuses with
    /// `InsufficientBalance` and leaves the ledger as it was when the account
    /// holds less.
    pub fn debit(&mut self, key: AccountId, amount: Balance) -> (outcome: Result<(), LedgerError>)
        requires
            old(self).wf(),
        ensures
            final(self).wf(),
            outcome is Ok <==> old(self)@[key] >= amount,
            outcome is Ok ==> final(self)@ == old(self)@.insert(
                key,
                (old(self)@[key] - amount) as nat,
            ) && final(self).total() == old(self).total() - amount,
            outcome is Err ==> outcome == Err::<(), LedgerError>(LedgerError::InsufficientBalance)
                && *final(self) == *old(self),
    {
        let held = self.balance_of(key);
        if held < amount {
            return Err(LedgerError::InsufficientBalance);
        }
        self.put(key, held - amount);
        Ok(())
    }

    /// The accounts that were ever credited, each once, with what it holds.
    /// Crediting the entries to a new ledger gives these balances again.
    pub fn entries(&self) -> (entries: Vec<(AccountId, Balance)>)
        requires
            self.wf(),
        ensures
            credited(entries@) == self@,
            entries_total(entries@) == self.total(),
    {
        let mut entries: Vec<(AccountId, Balance)> = Vec::new();
        let mut i: usize = 0;
        while i < self.keys.len()
            invariant
                self.wf(),
                i <= self.keys@.len(),
                entries@.len() == i,
                forall|j: int|
                    0 <= j < i ==> entries@[j] == (self.keys@[j], self.amounts@[j]),
            decreases self.keys@.len() - i,
        {
            entries.push((self.keys[i], self.amounts[i]));
            i += 1;
        }
        proof {
            lemma_entries_of_association(self.keys@, self.amounts@, entries@);
            assert forall|k: AccountId| #[trigger] credited(entries@).contains_key(k) by {
                lemma_credited_grows(entries@, 0, k);
            }
            assert(credited(entries@) =~= self@);
        }
        entries
    }

    /// The ledger that crediting `entries`, one after another, gives; `None`
    /// where some balance would not fit the amount type.
    pub fn from_entries(entries: &Vec<(AccountId, Balance)>) -> (ledger: Option<Ledger>)
        ensures
            match ledger {
                Some(l) => l.wf() && l@ == credited(entries@) && l.total() == entries_total(
                    entries@,
                ),
                None => exists|k: AccountId| credited(entries@)[k] > Balance::MAX,
            },
    {
        let mut ledger = Ledger::new();
        let mut i: usize = 0;
        while i < entries.len()
            invariant
                ledger.wf(),
                i <= entries@.len(),
                ledger@ == credited(entries@.take(i as int)),
                ledger.total() == entries_total(entries@.take(i as int)),
            decreases entries@.len() - i,
        {
            let (key, amount) = entries[i];
            assert(entries@.take(i + 1).drop_last() =~= entries@.take(i as int));
            match ledger.credit(key, amount) {
                Ok(()) => {},
                Err(_) => {
                    proof {
                        lemma_credited_grows(entries@, i + 1, key);
                        assert(credited(entries@)[key] > Balance::MAX);
                    }
                    return None;
                },
            }
            i += 1;
        }
        assert(entries@.take(i as int) =~= entries@);
        Some(ledger)
    }

    /// The sum of all balances, or `None` where it does not fit the amount
    /// type.
    pub fn total_held(&self) -> (sum: Option<Balance>)
        requires
            self.wf(),
        ensures
            match sum {
                Some(t) => t == self.total(),
                None => self.total() > Balance::MAX,
            },
    {
        let mut sum: Balance = 0;
        let mut i: usize = 0;
        while i < self.amounts.len()
            invariant
                i <= self.amounts@.len(),
                sum == sum_of(self.amounts@.take(i as int)),
            decreases self.amounts@.len() - i,
        {
            assert(self.amounts@.take(i + 1).drop_last() =~= self.amounts@.take(i as int));
            match sum.checked_add(self.amounts[i]) {
                Some(raised) => {
                    sum = raised;
                },
                None => {
                    proof {
                        lemma_sum_prefix(self.amounts@, i + 1);
                    }
                    return None;
                },
            }
            i += 1;
        }
        assert(self.amounts@.take(i as int) =~= self.amounts@);
        Some(sum)
    }

    /// Moves `value` from `from` to `to` and returns what `from` then
    /// holds. Refuses, and leaves the ledger as it was, with
    /// `InsufficientBalance` when `from` holds less than `value`, and with
    /// `Overflow` when the balance of another account `to` cannot take it.
    pub fn transfer(&mut self, from: AccountId, to: AccountId, value: Balance) -> (outcome: Result<
        Balance,
        LedgerError,
    >)
        requires
            old(self).wf(),
        ensures
            final(self).wf(),
            final(self).total() == old(self).total(),
            outcome == transfer_outcome(old(self)@, from, to, value),
            outcome is Ok ==> final(self)@ == moved(old(self)@, from, to, value as nat),
            outcome is Err ==> *final(self) == *old(self),
    {
        let held = self.balance_of(from);
        if held < value {
            return Err(LedgerError::InsufficientBalance);
        }
        let left = held - value;
        if from == to {
            assert(self@ =~= moved(self@, from, to, value as nat));
            return Ok(held);
        }
        match self.balance_of(to).checked_add(value) {
            Some(raised) => {
                self.put(from, left);
                self.put(to, raised);
                Ok(left)
            },
            None => Err(LedgerError::Overflow),
        }
    }
}

/// What `Ledger::transfer` answers on given balances.
pub open spec fn transfer_outcome(
    balances: Map<AccountId, nat>,
    from: AccountId,
    to: AccountId,
    value: Balance,
) -> Result<Balance, LedgerError> {
    if balances[from] < value {
        Err(LedgerError::InsufficientBalance)
    } else if from != to && balances[to] + value > Balance::MAX {
        Err(LedgerError::Overflow)
    } else {
        Ok(moved(balances, from, to, value as nat)[from] as Balance)
    }
}

} // verus!
