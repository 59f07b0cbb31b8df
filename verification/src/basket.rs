//! The basket definition: which assets a vault escrows, and how much of each.

use vstd::prelude::*;
use crate::account::{AccountId, Balance};

verus! {

/// The sum of the amounts that the first `n` positions of a basket require
/// of `asset`.
pub open spec fn required_below(
    assets: Seq<AccountId>,
    amounts: Seq<Balance>,
    asset: AccountId,
    n: nat,
) -> nat
    decreases n,
{
    if n == 0 {
        0
    } else {
        required_below(assets, amounts, asset, (n - 1) as nat) + if assets[n - 1] == asset {
            amounts[n - 1] as nat
        } else {
            0nat
        }
    }
}

/// The model of a basket: two index-aligned sequences.
pub struct BasketView {
    pub assets: Seq<AccountId>,
    pub amounts: Seq<Balance>,
}

impl BasketView {
    /// Position `i` of one sequence belongs to position `i` of the other.
    pub open spec fn aligned(self) -> bool {
        self.assets.len() == self.amounts.len()
    }

    /// What one vault escrows of `asset`: the sum over every position that
    /// names it, zero for an asset outside the basket.
    pub open spec fn required_of(self, asset: AccountId) -> nat {
        required_below(self.assets, self.amounts, asset, self.assets.len())
    }
}

/// A longer prefix of a basket requires no less of an asset.
pub proof fn lemma_required_grows(
    assets: Seq<AccountId>,
    amounts: Seq<Balance>,
    asset: AccountId,
    i: nat,
    j: nat,
)
    requires
        i <= j,
    ensures
        required_below(assets, amounts, asset, i) <= required_below(assets, amounts, asset, j),
    decreases j,
{
    if i < j {
        lemma_required_grows(assets, amounts, asset, i, (j - 1) as nat);
    }
}

/// A prefix that never names an asset requires nothing of it.
pub proof fn lemma_required_absent(
    assets: Seq<AccountId>,
    amounts: Seq<Balance>,
    asset: AccountId,
    n: nat,
)
    requires
        forall|k: int| 0 <= k < n ==> assets[k] != asset,
    ensures
        required_below(assets, amounts, asset, n) == 0,
    decreases n,
{
    if n > 0 {
        lemma_required_absent(assets, amounts, asset, (n - 1) as nat);
    }
}

/// Where no asset is named twice, a basket requires of each asset exactly
/// the amount at its position.
pub proof fn lemma_required_of_distinct(basket: BasketView, i: int)
    requires
        basket.aligned(),
        basket.assets.no_duplicates(),
        0 <= i < basket.assets.len(),
    ensures
        basket.required_of(basket.assets[i]) == basket.amounts[i],
{
    let asset = basket.assets[i];
    lemma_required_absent(basket.assets, basket.amounts, asset, i as nat);
    lemma_required_after(basket, i, basket.assets.len());
}

proof fn lemma_required_after(basket: BasketView, i: int, n: nat)
    requires
        basket.assets.no_duplicates(),
        0 <= i < n <= basket.assets.len(),
    ensures
        required_below(basket.assets, basket.amounts, basket.assets[i], n) == required_below(
            basket.assets,
            basket.amounts,
            basket.assets[i],
            (i + 1) as nat,
        ),
    decreases n,
{
    if n > i + 1 {
        lemma_required_after(basket, i, (n - 1) as nat);
    }
}

/// The basket definition, fixed when the engine is made.
pub struct Basket {
    assets: Vec<AccountId>,
    amounts: Vec<Balance>,
}

impl View for Basket {
    type V = BasketView;

    closed spec fn view(&self) -> BasketView {
        BasketView { assets: self.assets@, amounts: self.amounts@ }
    }
}

impl Basket {
    /// The two sequences have one length.
    pub open spec fn wf(&self) -> bool {
        self@.aligned()
    }

    /// A basket that requires `amounts[i]` of `assets[i]`.
    pub fn new(assets: Vec<AccountId>, amounts: Vec<Balance>) -> (basket: Basket)
        requires
            assets@.len() == amounts@.len(),
        ensures
            basket.wf(),
            basket@.assets == assets@,
            basket@.amounts == amounts@,
    {
        Basket { assets, amounts }
    }

    /// The number of positions.
    pub fn len(&self) -> (n: usize)
        requires
            self.wf(),
        ensures
            n == self@.assets.len(),
    {
        self.assets.len()
    }

    /// The asset at position `i`.
    pub fn asset(&self, i: usize) -> (asset: AccountId)
        requires
            self.wf(),
            i < self@.assets.len(),
        ensures
            asset == self@.assets[i as int],
    {
        self.assets[i]
    }

    /// The amount required at position `i`.
    pub fn amount(&self, i: usize) -> (amount: Balance)
        requires
            self.wf(),
            i < self@.assets.len(),
        ensures
            amount == self@.amounts[i as int],
    {
        self.amounts[i]
    }

    /// The assets, in basket order.
    pub fn assets(&self) -> (assets: Vec<AccountId>)
        ensures
            assets@ == self@.assets,
    {
        let mut assets: Vec<AccountId> = Vec::new();
        let mut i: usize = 0;
        while i < self.assets.len()
            invariant
                i <= self.assets@.len(),
                assets@ == self.assets@.take(i as int),
            decreases self.assets@.len() - i,
        {
            assets.push(self.assets[i]);
            i += 1;
        }
        assets
    }

    /// The required amounts, in basket order.
    pub fn amounts(&self) -> (amounts: Vec<Balance>)
        ensures
            amounts@ == self@.amounts,
    {
        let mut amounts: Vec<Balance> = Vec::new();
        let mut i: usize = 0;
        while i < self.amounts.len()
            invariant
                i <= self.amounts@.len(),
                amounts@ == self.amounts@.take(i as int),
            decreases self.amounts@.len() - i,
        {
            amounts.push(self.amounts[i]);
            i += 1;
        }
        amounts
    }

    /// What one vault escrows of `asset`, or `None` when the sum does not
    /// fit the amount type.
    pub fn required_total(&self, asset: AccountId) -> (total: Option<Balance>)
        requires
            self.wf(),
        ensures
            match total {
                Some(t) => t == self@.required_of(asset),
                None => self@.required_of(asset) > Balance::MAX,
            },
    {
        let mut sum: Balance = 0;
        let mut i: usize = 0;
        while i < self.assets.len()
            invariant
                self.wf(),
                i <= self@.assets.len(),
                sum == required_below(self@.assets, self@.amounts, asset, i as nat),
            decreases self@.assets.len() - i,
        {
            if self.assets[i] == asset {
                match sum.checked_add(self.amounts[i]) {
                    Some(raised) => {
                        sum = raised;
                    },
                    None => {
                        proof {
                            lemma_required_grows(
                                self@.assets,
                                self@.amounts,
                                asset,
                                (i + 1) as nat,
                                self@.assets.len(),
                            );
                        }
                        return None;
                    },
                }
            }
            i += 1;
        }
        Some(sum)
    }
}

} // verus!
