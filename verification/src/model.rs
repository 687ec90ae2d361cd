//! The registry as a mathematical value, and what each call makes of it.

use crate::pallet::Error;
use vstd::prelude::*;

verus! {

/// The identity of an account. The host has authenticated it before it
/// reaches the registry.
pub type AccountId = u64;

/// The height of the ledger: the number of the block in which a call runs.
pub type BlockNumber = u64;

/// What the registry tells the host after a call that succeeded.
pub enum Notice {
    /// `who` claimed `proof`.
    ClaimCreated { proof: Seq<u8>, who: AccountId },
    /// `who` gave up the claim on `proof`.
    ClaimRevoked { proof: Seq<u8>, who: AccountId },
    /// `from` handed the claim on `proof` to `to`.
    ClaimTransfered { proof: Seq<u8>, from: AccountId, to: AccountId },
}

/// The state of a registry.
pub struct Registry {
    /// Each claimed proof, with its owner and the block number at which the
    /// claim was created or last handed over.
    pub proofs: Map<Seq<u8>, (AccountId, BlockNumber)>,
    /// The notices of the calls that succeeded, oldest first, since the host
    /// last took them.
    pub events: Seq<Notice>,
    /// The block number that the host has set.
    pub block_number: BlockNumber,
}

/// Whether a proof of `len` bytes may be claimed: it must be no longer than
/// `limit`, and not be claimed already. The length is tested first.
pub open spec fn create_verdict(len: nat, limit: u32, claimed: bool) -> Result<(), Error> {
    if len > limit {
        Err(Error::ProofSizeExceededError)
    } else if claimed {
        Err(Error::ProofAlreadyClaimedError)
    } else {
        Ok(())
    }
}

/// Whether the caller may dispose of a claim: the proof must be claimed, and
/// the caller must be its owner.
pub open spec fn owner_verdict(claimed: bool, is_owner: bool) -> Result<(), Error> {
    if !claimed {
        Err(Error::ProofNotFoundError)
    } else if !is_owner {
        Err(Error::ProofOwnershipError)
    } else {
        Ok(())
    }
}

/// A call on the registry, by an account or by the host.
pub enum Call {
    /// `who` claims `proof`, while proofs of up to `limit` bytes are accepted.
    Create { who: AccountId, proof: Seq<u8>, limit: u32 },
    /// `who` revokes the claim on `proof`.
    Revoke { who: AccountId, proof: Seq<u8> },
    /// `who` hands the claim on `proof` to `to`.
    Transfer { who: AccountId, proof: Seq<u8>, to: AccountId },
    /// The host moves on to block `number`.
    SetBlockNumber { number: BlockNumber },
    /// The host takes the notices.
    TakeEvents,
}

impl Call {
    /// The proof that the call is about, where it is an account's call.
    pub open spec fn subject(self) -> Option<Seq<u8>> {
        match self {
            Call::Create { proof, .. } => Some(proof),
            Call::Revoke { proof, .. } => Some(proof),
            Call::Transfer { proof, .. } => Some(proof),
            Call::SetBlockNumber { .. } => None,
            Call::TakeEvents => None,
        }
    }

    /// The account that makes the call, where it is an account's call.
    pub open spec fn caller(self) -> Option<AccountId> {
        match self {
            Call::Create { who, .. } => Some(who),
            Call::Revoke { who, .. } => Some(who),
            Call::Transfer { who, .. } => Some(who),
            Call::SetBlockNumber { .. } => None,
            Call::TakeEvents => None,
        }
    }

    /// The account that holds the claim once the call has succeeded: who
    /// claims, or to whom the claim is handed.
    pub open spec fn grantee(self) -> Option<AccountId> {
        match self {
            Call::Create { who, .. } => Some(who),
            Call::Transfer { to, .. } => Some(to),
            _ => None,
        }
    }
}

impl Registry {
    /// The registry in which nothing is claimed, at block 0.
    pub open spec fn empty() -> Registry {
        Registry { proofs: Map::empty(), events: Seq::empty(), block_number: 0 }
    }

    /// Whether `proof` is claimed.
    pub open spec fn claimed(self, proof: Seq<u8>) -> bool {
        self.proofs.contains_key(proof)
    }

    /// Whether `proof` is claimed and `who` owns the claim.
    pub open spec fn owns(self, who: AccountId, proof: Seq<u8>) -> bool {
        self.claimed(proof) && self.proofs[proof].0 == who
    }

    /// The owner and block number on record for `proof`, or `(0, 0)` where
    /// it is not claimed.
    pub open spec fn record(self, proof: Seq<u8>) -> (AccountId, BlockNumber) {
        if self.claimed(proof) {
            self.proofs[proof]
        } else {
            (0, 0)
        }
    }

    /// No claim is dated later than the current block.
    pub open spec fn dated(self) -> bool {
        forall|proof: Seq<u8>| #[trigger]
            self.proofs.contains_key(proof) ==> self.proofs[proof].1 <= self.block_number
    }

    /// `who` claims `proof`.
    pub open spec fn create_claim(self, who: AccountId, proof: Seq<u8>, limit: u32) -> (
        Registry,
        Result<(), Error>,
    ) {
        match create_verdict(proof.len(), limit, self.claimed(proof)) {
            Ok(()) => (
                Registry {
                    proofs: self.proofs.insert(proof, (who, self.block_number)),
                    events: self.events.push(Notice::ClaimCreated { proof, who }),
                    block_number: self.block_number,
                },
                Ok(()),
            ),
            Err(e) => (self, Err(e)),
        }
    }

    /// `who` revokes the claim on `proof`.
    pub open spec fn revoke_claim(self, who: AccountId, proof: Seq<u8>) -> (
        Registry,
        Result<(), Error>,
    ) {
        match owner_verdict(self.claimed(proof), self.owns(who, proof)) {
            Ok(()) => (
                Registry {
                    proofs: self.proofs.remove(proof),
                    events: self.events.push(Notice::ClaimRevoked { proof, who }),
                    block_number: self.block_number,
                },
                Ok(()),
            ),
            Err(e) => (self, Err(e)),
        }
    }

    /// `who` hands the claim on `proof` to `to`. The claim is dated anew.
    pub open spec fn transfer_claim(self, who: AccountId, proof: Seq<u8>, to: AccountId) -> (
        Registry,
        Result<(), Error>,
    ) {
        match owner_verdict(self.claimed(proof), self.owns(who, proof)) {
            Ok(()) => (
                Registry {
                    proofs: self.proofs.insert(proof, (to, self.block_number)),
                    events: self.events.push(Notice::ClaimTransfered { proof, from: who, to }),
                    block_number: self.block_number,
                },
                Ok(()),
            ),
            Err(e) => (self, Err(e)),
        }
    }

    /// The host moves on to block `number`.
    pub open spec fn set_block_number(self, number: BlockNumber) -> Registry {
        Registry { proofs: self.proofs, events: self.events, block_number: number }
    }

    /// The host takes the notices.
    pub open spec fn take_events(self) -> Registry {
        Registry { proofs: self.proofs, events: Seq::empty(), block_number: self.block_number }
    }

    /// What one call makes of the registry, and how it ends. The host's own
    /// calls always succeed.
    pub open spec fn step(self, call: Call) -> (Registry, Result<(), Error>) {
        match call {
            Call::Create { who, proof, limit } => self.create_claim(who, proof, limit),
            Call::Revoke { who, proof } => self.revoke_claim(who, proof),
            Call::Transfer { who, proof, to } => self.transfer_claim(who, proof, to),
            Call::SetBlockNumber { number } => (self.set_block_number(number), Ok(())),
            Call::TakeEvents => (self.take_events(), Ok(())),
        }
    }

    /// The registry after `calls`, made one after the other.
    pub open spec fn run(self, calls: Seq<Call>) -> Registry
        decreases calls.len(),
    {
        if calls.len() == 0 {
            self
        } else {
            self.run(calls.drop_last()).step(calls.last()).0
        }
    }

    /// How the call at place `i` of `calls` ends.
    pub open spec fn outcome(self, calls: Seq<Call>, i: int) -> Result<(), Error> {
        self.run(calls.take(i)).step(calls[i]).1
    }

    /// Whether the call at place `i` of `calls` succeeds.
    pub open spec fn succeeds(self, calls: Seq<Call>, i: int) -> bool {
        self.outcome(calls, i) is Ok
    }

    /// Whether the call at place `i` of `calls` claims `proof` and succeeds.
    pub open spec fn creates(self, calls: Seq<Call>, i: int, proof: Seq<u8>) -> bool {
        calls[i] is Create && calls[i].subject() == Some(proof) && self.succeeds(calls, i)
    }

    /// Whether the call at place `i` of `calls` revokes the claim on `proof`
    /// and succeeds.
    pub open spec fn revokes(self, calls: Seq<Call>, i: int, proof: Seq<u8>) -> bool {
        calls[i] is Revoke && calls[i].subject() == Some(proof) && self.succeeds(calls, i)
    }

    /// Whether the call at place `i` of `calls` hands the claim on `proof`
    /// over and succeeds.
    pub open spec fn transfers(self, calls: Seq<Call>, i: int, proof: Seq<u8>) -> bool {
        calls[i] is Transfer && calls[i].subject() == Some(proof) && self.succeeds(calls, i)
    }
}

} // verus!
