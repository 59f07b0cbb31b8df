//! The asset transfer gateway, as the engine sees it.
//!
//! The engine never moves an asset itself. It says which transfers an
//! operation needs, the caller has the asset ledgers carry them out in
//! order, and the engine then decides on the receipts. A receipt stands for
//! what the gateway reported of the request at the same position.

use vstd::prelude::*;
use crate::account::{AccountId, Balance};

verus! {

/// The operation selector that every basket asset must answer to.
pub const TRANSFER_FROM_SELECTOR: [u8; 4] = [0, 0, 0, 6];

/// One balance move that the gateway is asked to make: `amount` of `asset`
/// from `from` to `to`, by the operation of the asset's ledger that answers
/// to `selector`.
#[derive(Clone, Copy, Debug, PartialEq, Eq)]
pub struct TransferRequest {
    pub asset: AccountId,
    pub selector: [u8; 4],
    pub from: AccountId,
    pub to: AccountId,
    pub amount: Balance,
}

/// Why the gateway did not make a transfer.
#[derive(Clone, Copy, Debug, PartialEq, Eq, Structural)]
pub enum GatewayError {
    /// The paying account holds less than the amount.
    InsufficientBalance,
    /// The asset ledger refused or could not be reached.
    Rejected,
}

/// What the gateway reported of one request.
pub type Receipt = Result<(), GatewayError>;

/// The failure reported by the earliest failed receipt, if any failed.
pub open spec fn first_failure(receipts: Seq<Receipt>) -> Option<GatewayError>
    decreases receipts.len(),
{
    if receipts.len() == 0 {
        None
    } else {
        match first_failure(receipts.drop_last()) {
            Some(e) => Some(e),
            None => match receipts.last() {
                Err(e) => Some(e),
                Ok(_) => None,
            },
        }
    }
}

/// `first_failure` is `None` exactly when every receipt reports success.
pub proof fn lemma_no_failure(receipts: Seq<Receipt>)
    ensures
        first_failure(receipts) is None <==> forall|i: int|
            0 <= i < receipts.len() ==> receipts[i] is Ok,
    decreases receipts.len(),
{
    if receipts.len() > 0 {
        lemma_no_failure(receipts.drop_last());
        if first_failure(receipts) is None {
            assert forall|i: int| 0 <= i < receipts.len() implies receipts[i] is Ok by {
                if i < receipts.len() - 1 {
                    assert(receipts.drop_last()[i] is Ok);
                }
            }
        } else if first_failure(receipts.drop_last()) is Some {
            let i = choose|i: int|
                0 <= i < receipts.drop_last().len() && !(receipts.drop_last()[i] is Ok);
            assert(!(receipts[i] is Ok));
        }
    }
}

/// Finds the earliest failed receipt.
pub fn find_failure(receipts: &Vec<Receipt>) -> (failure: Option<GatewayError>)
    ensures
        failure == first_failure(receipts@),
{
    let mut i: usize = 0;
    while i < receipts.len()
        invariant
            i <= receipts@.len(),
            first_failure(receipts@.take(i as int)) is None,
        decreases receipts@.len() - i,
    {
        assert(receipts@.take(i + 1).drop_last() =~= receipts@.take(i as int));
        match receipts[i] {
            Err(e) => {
                proof {
                    lemma_failure_stays(receipts@, (i + 1) as nat);
                }
                return Some(e);
            },
            Ok(_) => {},
        }
        i += 1;
    }
    assert(receipts@.take(i as int) =~= receipts@);
    None
}

/// Once a prefix holds a failure, that failure is the first of the whole.
proof fn lemma_failure_stays(receipts: Seq<Receipt>, n: nat)
    requires
        n <= receipts.len(),
        first_failure(receipts.take(n as int)) is Some,
    ensures
        first_failure(receipts) == first_failure(receipts.take(n as int)),
    decreases receipts.len() - n,
{
    if n < receipts.len() {
        assert(receipts.take(n as int + 1).drop_last() =~= receipts.take(n as int));
        lemma_failure_stays(receipts, n + 1);
    } else {
        assert(receipts.take(n as int) =~= receipts);
    }
}

} // verus!
