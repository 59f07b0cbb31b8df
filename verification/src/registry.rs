//! The vault registry: which vaults are open, who owns each, how many were
//! ever opened and how many each owner holds now.

use vstd::prelude::*;
use crate::account::AccountId;
use crate::ledger::Ledger;

verus! {

/// The identity of a vault.
pub type VaultId = u8;

/// The largest number of vaults a registry can ever assign.
pub const VAULT_LIMIT: u8 = 255;

/// Why a registry operation was refused.
#[derive(Clone, Copy, Debug, PartialEq, Eq, Structural)]
pub enum RegistryError {
    /// No open vault has the identity that was looked up.
    NotFound,
    /// The vault to release is not registered.
    VaultNotOpen,
}

/// Whether `id` is an open vault, owned by `owner` where one is given.
pub open spec fn counted(
    vaults: Map<VaultId, AccountId>,
    owner: Option<AccountId>,
    id: int,
) -> bool {
    &&& 0 <= id < 256
    &&& vaults.contains_key(id as VaultId)
    &&& (owner is None || owner == Some(vaults[id as VaultId]))
}

/// The number of open vaults with an identity below `bound`, owned by
/// `owner` where one is given.
pub open spec fn tally_below(
    vaults: Map<VaultId, AccountId>,
    owner: Option<AccountId>,
    bound: nat,
) -> nat
    decreases bound,
{
    if bound == 0 {
        0
    } else {
        tally_below(vaults, owner, (bound - 1) as nat) + if counted(vaults, owner, bound - 1) {
            1nat
        } else {
            0nat
        }
    }
}

/// The number of open vaults that `owner` holds.
pub open spec fn owned_by(vaults: Map<VaultId, AccountId>, owner: AccountId) -> nat {
    tally_below(vaults, Some(owner), 256)
}

/// The number of open vaults.
pub open spec fn open_count(vaults: Map<VaultId, AccountId>) -> nat {
    tally_below(vaults, None, 256)
}

/// Opening a vault that was closed adds one to every tally that counts it.
pub proof fn lemma_tally_insert(
    vaults: Map<VaultId, AccountId>,
    filter: Option<AccountId>,
    id: VaultId,
    owner: AccountId,
    bound: nat,
)
    requires
        !vaults.contains_key(id),
    ensures
        tally_below(vaults.insert(id, owner), filter, bound) == tally_below(vaults, filter, bound)
            + if id < bound && (filter is None || filter == Some(owner)) {
            1nat
        } else {
            0nat
        },
    decreases bound,
{
    if bound > 0 {
        lemma_tally_insert(vaults, filter, id, owner, (bound - 1) as nat);
    }
}

/// Closing an open vault takes one from every tally that counted it.
pub proof fn lemma_tally_remove(
    vaults: Map<VaultId, AccountId>,
    filter: Option<AccountId>,
    id: VaultId,
    bound: nat,
)
    requires
        vaults.contains_key(id),
    ensures
        tally_below(vaults, filter, bound) == tally_below(vaults.remove(id), filter, bound)
            + if id < bound && (filter is None || filter == Some(vaults[id])) {
            1nat
        } else {
            0nat
        },
    decreases bound,
{
    if bound > 0 {
        lemma_tally_remove(vaults, filter, id, (bound - 1) as nat);
    }
}

/// A tally never exceeds a bound under which all open vaults lie.
pub proof fn lemma_tally_within(
    vaults: Map<VaultId, AccountId>,
    filter: Option<AccountId>,
    bound: nat,
    limit: nat,
)
    requires
        forall|id: VaultId| vaults.contains_key(id) ==> id < limit,
    ensures
        tally_below(vaults, filter, bound) <= limit,
        tally_below(vaults, filter, bound) <= bound,
    decreases bound,
{
    if bound > 0 {
        lemma_tally_within(vaults, filter, (bound - 1) as nat, limit);
        if bound > limit {
            lemma_tally_within(vaults, filter, (bound - 1) as nat, (bound - 1) as nat);
        }
    }
}

/// The open vaults of one owner are among all open vaults.
pub proof fn lemma_owned_within_open(vaults: Map<VaultId, AccountId>, owner: AccountId, bound: nat)
    ensures
        tally_below(vaults, Some(owner), bound) <= tally_below(vaults, None, bound),
    decreases bound,
{
    if bound > 0 {
        lemma_owned_within_open(vaults, owner, (bound - 1) as nat);
    }
}

/// A tally counts nothing at or above a bound under which all open vaults
/// lie.
pub proof fn lemma_tally_beyond(
    vaults: Map<VaultId, AccountId>,
    filter: Option<AccountId>,
    limit: nat,
    bound: nat,
)
    requires
        forall|id: VaultId| vaults.contains_key(id) ==> id < limit,
        limit <= bound,
    ensures
        tally_below(vaults, filter, bound) == tally_below(vaults, filter, limit),
    decreases bound,
{
    if limit < bound {
        lemma_tally_beyond(vaults, filter, limit, (bound - 1) as nat);
    }
}

/// The open vaults that a sequence of slots records: slot `i` holds the
/// owner of vault `i` where that vault is open.
pub open spec fn vaults_of(slots: Seq<Option<AccountId>>) -> Map<VaultId, AccountId> {
    Map::new(
        |id: VaultId| (id as int) < slots.len() && slots[id as int] is Some,
        |id: VaultId| slots[id as int]->0,
    )
}

/// Vault identities and ownership.
///
/// The model is the map from the open vaults to their owners
/// (`self.vaults()`) and the number of vaults ever assigned
/// (`self.quantity()`), which is also the next identity to assign.
pub struct VaultRegistry {
    slots: Vec<Option<AccountId>>,
    tallies: Ledger,
}

impl VaultRegistry {
    /// The open vaults and their owners.
    pub closed spec fn vaults(&self) -> Map<VaultId, AccountId> {
        vaults_of(self.slots@)
    }

    /// The number of vaults ever assigned.
    pub closed spec fn quantity(&self) -> nat {
        self.slots@.len()
    }

    /// The stored tallies agree with the open vaults, and the identities
    /// ever assigned fit the identity type.
    pub closed spec fn wf(&self) -> bool {
        &&& self.slots@.len() <= VAULT_LIMIT
        &&& self.tallies.wf()
        &&& forall|owner: AccountId|
            self.tallies@[owner] == #[trigger] owned_by(self.vaults(), owner)
    }

    /// Every open vault was assigned, and no more vaults were assigned than
    /// the identity type can name.
    pub proof fn lemma_open_vaults_assigned(&self)
        requires
            self.wf(),
        ensures
            self.quantity() <= VAULT_LIMIT,
            forall|id: VaultId| #[trigger] self.vaults().contains_key(id) ==> id < self.quantity(),
            open_count(self.vaults()) <= self.quantity(),
            forall|owner: AccountId| #[trigger]
                owned_by(self.vaults(), owner) <= open_count(self.vaults()),
    {
        lemma_tally_within(self.vaults(), None, 256, self.quantity());
        assert forall|owner: AccountId| #[trigger]
            owned_by(self.vaults(), owner) <= open_count(self.vaults()) by {
            lemma_owned_within_open(self.vaults(), owner, 256);
        }
    }

    /// A registry with no vault.
    pub fn new() -> (registry: VaultRegistry)
        ensures
            registry.wf(),
            registry.vaults() == Map::<VaultId, AccountId>::empty(),
            registry.quantity() == 0,
    {
        let registry = VaultRegistry { slots: Vec::new(), tallies: Ledger::new() };
        proof {
            assert(registry.vaults() =~= Map::<VaultId, AccountId>::empty());
            assert forall|owner: AccountId|
                registry.tallies@[owner] == #[trigger] owned_by(registry.vaults(), owner) by {
                lemma_tally_within(registry.vaults(), Some(owner), 256, 0);
            }
        }
        registry
    }

    /// Whether `id` is an open vault.
    pub fn is_open(&self, id: VaultId) -> (open: bool)
        requires
            self.wf(),
        ensures
            open == self.vaults().contains_key(id),
    {
        let at: usize = id as usize;
        at < self.slots.len() && self.slots[at].is_some()
    }

    /// The owner of the open vault `id`, or `NotFound`.
    pub fn vault_owner(&self, id: VaultId) -> (owner: Result<AccountId, RegistryError>)
        requires
            self.wf(),
        ensures
            match owner {
                Ok(account) => self.vaults().contains_key(id) && account == self.vaults()[id],
                Err(e) => !self.vaults().contains_key(id) && e == RegistryError::NotFound,
            },
    {
        let at: usize = id as usize;
        if at < self.slots.len() {
            match self.slots[at] {
                Some(account) => Ok(account),
                None => Err(RegistryError::NotFound),
            }
        } else {
            Err(RegistryError::NotFound)
        }
    }

    /// The number of open vaults that `owner` holds; zero for an owner who
    /// never opened one.
    pub fn vault_count_for(&self, owner: AccountId) -> (count: u8)
        requires
            self.wf(),
        ensures
            count == owned_by(self.vaults(), owner),
    {
        proof {
            lemma_tally_within(self.vaults(), Some(owner), 256, self.quantity());
        }
        let tally = self.tallies.balance_of(owner);
        tally as u8
    }

    /// The number of vaults ever assigned; closing a vault does not lower it.
    pub fn total_vault_count(&self) -> (count: u8)
        requires
            self.wf(),
        ensures
            count == self.quantity(),
    {
        self.slots.len() as u8
    }

    /// Registers a new vault for `owner` under the next unused identity,
    /// which is the number of vaults assigned so far.
    pub fn assign_new(&mut self, owner: AccountId) -> (id: VaultId)
        requires
            old(self).wf(),
            old(self).quantity() < VAULT_LIMIT,
        ensures
            final(self).wf(),
            id == old(self).quantity(),
            final(self).vaults() == old(self).vaults().insert(id, owner),
            final(self).quantity() == old(self).quantity() + 1,
    {
        let ghost before = self.vaults();
        let id: u8 = self.slots.len() as u8;
        proof {
            lemma_tally_within(before, Some(owner), 256, self.quantity());
            assert(self.tallies@[owner] == owned_by(before, owner));
        }
        self.slots.push(Some(owner));
        let raised = self.tallies.credit(owner, 1);
        proof {
            assert(raised is Ok);
            assert(self.vaults() =~= before.insert(id, owner));
            assert forall|o: AccountId|
                self.tallies@[o] == #[trigger] owned_by(self.vaults(), o) by {
                assert(old(self).tallies@[o] == owned_by(before, o));
                lemma_tally_insert(before, Some(o), id, owner, 256);
            }
        }
        id
    }

    /// Removes the open vault `id` and hands back its owner, whose tally
    /// drops by one; refuses with `VaultNotOpen` and changes nothing when no
    /// such vault is open.
    pub fn release(&mut self, id: VaultId) -> (owner: Result<AccountId, RegistryError>)
        requires
            old(self).wf(),
        ensures
            final(self).wf(),
            final(self).quantity() == old(self).quantity(),
            match owner {
                Ok(account) => {
                    &&& old(self).vaults().contains_key(id)
                    &&& account == old(self).vaults()[id]
                    &&& final(self).vaults() == old(self).vaults().remove(id)
                },
                Err(e) => {
                    &&& !old(self).vaults().contains_key(id)
                    &&& e == RegistryError::VaultNotOpen
                    &&& *final(self) == *old(self)
                },
            },
    {
        let ghost before = self.vaults();
        let at: usize = id as usize;
        if at >= self.slots.len() {
            return Err(RegistryError::VaultNotOpen);
        }
        match self.slots[at] {
            None => Err(RegistryError::VaultNotOpen),
            Some(account) => {
                proof {
                    assert(self.tallies@[account] == owned_by(before, account));
                    lemma_tally_remove(before, Some(account), id, 256);
                }
                self.slots[at] = None;
                let lowered = self.tallies.debit(account, 1);
                proof {
                    assert(lowered is Ok);
                    assert(self.vaults() =~= before.remove(id));
                    assert forall|o: AccountId|
                        self.tallies@[o] == #[trigger] owned_by(self.vaults(), o) by {
                        assert(old(self).tallies@[o] == owned_by(before, o));
                        lemma_tally_remove(before, Some(o), id, 256);
                    }
                }
                Ok(account)
            },
        }
    }

    /// The number of open vaults.
    pub fn open_vaults(&self) -> (count: u8)
        requires
            self.wf(),
        ensures
            count == open_count(self.vaults()),
    {
        let mut count: u8 = 0;
        let mut i: usize = 0;
        while i < self.slots.len()
            invariant
                self.slots@.len() <= VAULT_LIMIT,
                i <= self.slots@.len(),
                count <= i,
                count == tally_below(self.vaults(), None, i as nat),
            decreases self.slots@.len() - i,
        {
            if self.slots[i].is_some() {
                count += 1;
            }
            i += 1;
        }
        proof {
            lemma_tally_beyond(self.vaults(), None, self.slots@.len(), 256);
        }
        count
    }

    /// One slot for each vault ever assigned, in the order of the
    /// identities: the owner where the vault is open, `None` where it was
    /// closed.
    pub fn slots(&self) -> (slots: Vec<Option<AccountId>>)
        requires
            self.wf(),
        ensures
            slots@.len() == self.quantity(),
            vaults_of(slots@) == self.vaults(),
    {
        let mut slots: Vec<Option<AccountId>> = Vec::new();
        let mut i: usize = 0;
        while i < self.slots.len()
            invariant
                i <= self.slots@.len(),
                slots@ == self.slots@.take(i as int),
            decreases self.slots@.len() - i,
        {
            slots.push(self.slots[i]);
            i += 1;
        }
        assert(self.slots@.take(i as int) =~= self.slots@);
        slots
    }

    /// Records that one more vault was assigned and is closed by now.
    fn skip(&mut self)
        requires
            old(self).wf(),
            old(self).quantity() < VAULT_LIMIT,
        ensures
            final(self).wf(),
            final(self).slots@ == old(self).slots@.push(None),
            final(self).vaults() == old(self).vaults(),
            final(self).quantity() == old(self).quantity() + 1,
    {
        self.slots.push(None);
        assert(self.vaults() =~= old(self).vaults());
    }

    /// The registry that `slots` records, or `None` where there are more
    /// slots than identities.
    pub fn from_slots(slots: &Vec<Option<AccountId>>) -> (registry: Option<VaultRegistry>)
        ensures
            match registry {
                Some(r) => {
                    &&& slots@.len() <= VAULT_LIMIT
                    &&& r.wf()
                    &&& r.vaults() == vaults_of(slots@)
                    &&& r.quantity() == slots@.len()
                },
                None => slots@.len() > VAULT_LIMIT,
            },
    {
        if slots.len() > 255 {
            return None;
        }
        let mut registry = VaultRegistry::new();
        let mut i: usize = 0;
        while i < slots.len()
            invariant
                slots@.len() <= VAULT_LIMIT,
                i <= slots@.len(),
                registry.wf(),
                registry.quantity() == i,
                registry.vaults() == vaults_of(slots@.take(i as int)),
            decreases slots@.len() - i,
        {
            match slots[i] {
                Some(owner) => {
                    registry.assign_new(owner);
                },
                None => {
                    registry.skip();
                },
            }
            assert(registry.vaults() =~= vaults_of(slots@.take(i + 1)));
            i += 1;
        }
        assert(slots@.take(i as int) =~= slots@);
        Some(registry)
    }
}

} // verus!
