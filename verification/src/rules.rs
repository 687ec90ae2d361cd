//! The tests that a call has to pass before it changes anything.

use crate::model::{create_verdict, owner_verdict};
use crate::pallet::Error;
use vstd::prelude::*;

verus! {

/// Decides whether a proof of `len` bytes may be claimed while proofs of up
/// to `limit` bytes are accepted. `claimed` says whether it is claimed
/// already.
pub fn ensure_can_create(len: usize, limit: u32, claimed: bool) -> (r: Result<(), Error>)
    ensures
        r == create_verdict(len as nat, limit, claimed),
{
    if len > limit as usize {
        Err(Error::ProofSizeExceededError)
    } else if claimed {
        Err(Error::ProofAlreadyClaimedError)
    } else {
        Ok(())
    }
}

/// Decides whether the caller may revoke a claim or hand it over. `claimed`
/// says whether the proof is claimed, `is_owner` whether the caller is the
/// owner on record.
pub fn ensure_owner(claimed: bool, is_owner: bool) -> (r: Result<(), Error>)
    ensures
        r == owner_verdict(claimed, is_owner),
{
    if !claimed {
        Err(Error::ProofNotFoundError)
    } else if !is_owner {
        Err(Error::ProofOwnershipError)
    } else {
        Ok(())
    }
}

} // verus!
