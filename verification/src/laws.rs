//! What holds of every registry and every sequence of calls.

use crate::model::{AccountId, BlockNumber, Call, Registry};
use crate::pallet::Error;
use vstd::prelude::*;

verus! {

/// The registry before the call at place `i + 1` is what the call at place
/// `i` made of the registry before it.
proof fn lemma_run_next(s: Registry, calls: Seq<Call>, i: int)
    requires
        0 <= i < calls.len(),
    ensures
        s.run(calls.take(i + 1)) == s.run(calls.take(i)).step(calls[i]).0,
{
    let upto = calls.take(i + 1);
    assert(upto.drop_last() =~= calls.take(i));
    assert(upto.last() == calls[i]);
}

/// A claim stays until it is revoked: where `proof` is claimed before the
/// call at place `i`, and no call from there up to place `j` revokes it,
/// it is claimed before the call at place `j`.
proof fn lemma_claim_stays(s: Registry, calls: Seq<Call>, i: int, j: int, proof: Seq<u8>)
    requires
        0 <= i <= j <= calls.len(),
        s.run(calls.take(i)).claimed(proof),
        forall|k: int| i <= k < j ==> !#[trigger] s.revokes(calls, k, proof),
    ensures
        s.run(calls.take(j)).claimed(proof),
    decreases j - i,
{
    if i < j {
        lemma_claim_stays(s, calls, i, j - 1, proof);
        lemma_run_next(s, calls, j - 1);
        assert(!s.revokes(calls, j - 1, proof));
    }
}

/// An owner stays until the claim is handed over or claimed anew by another:
/// where, before the call at place `i`, `proof` is unclaimed or `owner` owns
/// it, and no call from there up to place `j` hands it over, or claims it
/// for another account, the same holds before the call at place `j`.
proof fn lemma_owner_stays(
    s: Registry,
    calls: Seq<Call>,
    i: int,
    j: int,
    proof: Seq<u8>,
    owner: AccountId,
)
    requires
        0 <= i <= j <= calls.len(),
        s.run(calls.take(i)).claimed(proof) ==> s.run(calls.take(i)).owns(owner, proof),
        forall|k: int| i <= k < j ==> !#[trigger] s.transfers(calls, k, proof),
        forall|k: int|
            i <= k < j && #[trigger] s.creates(calls, k, proof) ==> calls[k].caller() == Some(
                owner,
            ),
    ensures
        s.run(calls.take(j)).claimed(proof) ==> s.run(calls.take(j)).owns(owner, proof),
    decreases j - i,
{
    if i < j {
        lemma_owner_stays(s, calls, i, j - 1, proof, owner);
        lemma_run_next(s, calls, j - 1);
        assert(!s.transfers(calls, j - 1, proof));
        assert(s.creates(calls, j - 1, proof) ==> calls[j - 1].caller() == Some(owner));
    }
}

/// Whether a call in a longer sequence succeeds depends on the calls before
/// it alone.
proof fn lemma_outcome_of_prefix(s: Registry, calls: Seq<Call>, n: int, i: int)
    requires
        0 <= i < n <= calls.len(),
    ensures
        s.outcome(calls.take(n), i) == s.outcome(calls, i),
        calls.take(n)[i] == calls[i],
{
    assert(calls.take(n).take(i) =~= calls.take(i));
}

/// The call at place `i` of `calls` claims `proof` and succeeds, and no later
/// call of `calls` revokes that claim.
pub open spec fn stands(s: Registry, calls: Seq<Call>, i: int, proof: Seq<u8>) -> bool {
    &&& 0 <= i < calls.len()
    &&& s.creates(calls, i, proof)
    &&& forall|k: int| i < k < calls.len() ==> !#[trigger] s.revokes(calls, k, proof)
}

/// The claim on `proof` that `s` holds is not revoked by any call of `calls`.
pub open spec fn kept(s: Registry, calls: Seq<Call>, proof: Seq<u8>) -> bool {
    &&& s.claimed(proof)
    &&& forall|k: int| 0 <= k < calls.len() ==> !#[trigger] s.revokes(calls, k, proof)
}

/// A call that fails changes nothing: the claims, the notices and the block
/// number are what they were.
pub proof fn law_failure_changes_nothing(s: Registry, call: Call)
    requires
        s.step(call).1 is Err,
    ensures
        s.step(call).0 == s,
{
}

/// A call that succeeds leaves one notice, a call that fails none.
pub proof fn law_one_notice_per_success(s: Registry, call: Call)
    requires
        call.subject() is Some,
    ensures
        s.step(call).1 is Ok ==> s.step(call).0.events.len() == s.events.len() + 1
            && s.step(call).0.events.drop_last() == s.events,
        s.step(call).1 is Err ==> s.step(call).0.events == s.events,
{
    if s.step(call).1 is Ok {
        assert(s.step(call).0.events.drop_last() =~= s.events);
    }
}

/// A proof is claimed once: of two calls that claim the same proof and both
/// succeed, in any sequence of calls, the later one comes after a call that
/// revokes the claim and succeeds.
pub proof fn law_uniqueness(s: Registry, calls: Seq<Call>, i: int, j: int, proof: Seq<u8>)
    requires
        0 <= i < j < calls.len(),
        s.creates(calls, i, proof),
        s.creates(calls, j, proof),
    ensures
        exists|k: int| i < k < j && #[trigger] s.revokes(calls, k, proof),
{
    if !(exists|k: int| i < k < j && #[trigger] s.revokes(calls, k, proof)) {
        lemma_run_next(s, calls, i);
        lemma_claim_stays(s, calls, i + 1, j, proof);
    }
}

/// A proof is claimed if and only if it has been claimed and the claim has not
/// been revoked since: after any sequence of calls, `proof` is claimed
/// exactly where the registry held the claim at the start and no call
/// revoked it, or some call claimed it and no later call revoked it.
pub proof fn law_claimed_iff_created(s: Registry, calls: Seq<Call>, proof: Seq<u8>)
    ensures
        s.run(calls).claimed(proof) <==> kept(s, calls, proof) || exists|i: int|
            #[trigger] stands(s, calls, i, proof),
    decreases calls.len(),
{
    let n = calls.len() as int;
    if n > 0 {
        let before = calls.drop_last();
        law_claimed_iff_created(s, before, proof);
        assert(calls.take(n - 1) =~= before);
        assert forall|k: int| 0 <= k < n - 1 implies s.revokes(before, k, proof) == s.revokes(
            calls,
            k,
            proof,
        ) && s.creates(before, k, proof) == s.creates(calls, k, proof) by {
            lemma_outcome_of_prefix(s, calls, n - 1, k);
        }
        if s.run(calls).claimed(proof) {
            if s.creates(calls, n - 1, proof) {
                assert(stands(s, calls, n - 1, proof));
            } else {
                assert(s.run(before).claimed(proof));
                assert(!s.revokes(calls, n - 1, proof));
                if kept(s, before, proof) {
                    assert(kept(s, calls, proof));
                } else {
                    let i = choose|i: int| #[trigger] stands(s, before, i, proof);
                    assert(stands(s, calls, i, proof));
                }
            }
        }
        if kept(s, calls, proof) {
            assert(kept(s, before, proof));
            assert(!s.revokes(calls, n - 1, proof));
        }
        if exists|i: int| #[trigger] stands(s, calls, i, proof) {
            let i = choose|i: int| #[trigger] stands(s, calls, i, proof);
            if i < n - 1 {
                assert(stands(s, before, i, proof));
                assert(!s.revokes(calls, n - 1, proof));
            }
        }
    }
}

/// While a proof is claimed, claiming it fails, whoever calls and whatever
/// the limit on the length.
pub proof fn law_claimed_is_taken(s: Registry, who: AccountId, proof: Seq<u8>, limit: u32)
    requires
        s.claimed(proof),
    ensures
        s.create_claim(who, proof, limit).1 is Err,
        proof.len() <= limit ==> s.create_claim(who, proof, limit).1 == Err::<(), Error>(
            Error::ProofAlreadyClaimedError,
        ),
{
}

/// After a claim has been handed to `to`, only `to` revokes it or hands it on:
/// in any sequence of calls, where the call at place `i` hands `proof` to
/// `to` and succeeds, and the call at place `j`, later, revokes the claim on
/// `proof` or hands it over and succeeds, the caller at `j` is `to`. This
/// holds until another call hands the claim over, and as long as no other
/// account has claimed `proof` anew.
pub proof fn law_ownership(
    s: Registry,
    calls: Seq<Call>,
    i: int,
    j: int,
    from: AccountId,
    proof: Seq<u8>,
    to: AccountId,
)
    requires
        0 <= i < j < calls.len(),
        calls[i] == (Call::Transfer { who: from, proof, to }),
        s.succeeds(calls, i),
        forall|k: int| i < k < j ==> !#[trigger] s.transfers(calls, k, proof),
        forall|k: int|
            i < k < j && #[trigger] s.creates(calls, k, proof) ==> calls[k].caller() == Some(to),
        s.revokes(calls, j, proof) || s.transfers(calls, j, proof),
    ensures
        calls[j].caller() == Some(to),
{
    lemma_run_next(s, calls, i);
    lemma_owner_stays(s, calls, i + 1, j, proof, to);
}

/// After `who` has claimed `proof`, only `who` revokes the claim or hands it
/// over, until a call revokes it or hands it over.
pub proof fn law_creator_owns(s: Registry, calls: Seq<Call>, i: int, j: int, proof: Seq<u8>)
    requires
        0 <= i < j < calls.len(),
        s.creates(calls, i, proof),
        forall|k: int| i < k < j ==> !#[trigger] s.transfers(calls, k, proof),
        forall|k: int| i < k < j ==> !#[trigger] s.revokes(calls, k, proof),
        s.revokes(calls, j, proof) || s.transfers(calls, j, proof),
    ensures
        calls[j].caller() == calls[i].caller(),
{
    let who = calls[i].caller().unwrap();
    lemma_run_next(s, calls, i);
    assert forall|k: int| i < k < j && #[trigger] s.creates(calls, k, proof) implies calls[k]
        .caller() == Some(who) by {
        lemma_claim_stays(s, calls, i + 1, k, proof);
    }
    lemma_owner_stays(s, calls, i + 1, j, proof, who);
}

/// A record stays until the claim is made anew, handed over or revoked:
/// where `proof` is on record before the call at place `i`, and no call from
/// there up to place `j` claims it, hands it over or revokes the claim, the
/// record before the call at place `j` is the same.
proof fn lemma_record_stays(s: Registry, calls: Seq<Call>, i: int, j: int, proof: Seq<u8>)
    requires
        0 <= i <= j <= calls.len(),
        s.run(calls.take(i)).claimed(proof),
        forall|k: int| i <= k < j ==> !#[trigger] s.creates(calls, k, proof),
        forall|k: int| i <= k < j ==> !#[trigger] s.transfers(calls, k, proof),
        forall|k: int| i <= k < j ==> !#[trigger] s.revokes(calls, k, proof),
    ensures
        s.run(calls.take(j)).claimed(proof),
        s.run(calls.take(j)).proofs[proof] == s.run(calls.take(i)).proofs[proof],
    decreases j - i,
{
    if i < j {
        lemma_record_stays(s, calls, i, j - 1, proof);
        lemma_run_next(s, calls, j - 1);
        assert(!s.creates(calls, j - 1, proof));
        assert(!s.transfers(calls, j - 1, proof));
        assert(!s.revokes(calls, j - 1, proof));
    }
}

/// The record of a claim names whoever claimed the proof or received the
/// claim last, and the block at which that happened: where the call at place
/// `i` claims `proof` or hands it over and succeeds, and no later call claims
/// it, hands it over or revokes the claim, then after all the calls `proof`
/// is on record for the account that the call at place `i` gave it to, at
/// the block at which that call was made.
pub proof fn law_record_is_latest(s: Registry, calls: Seq<Call>, i: int, proof: Seq<u8>)
    requires
        0 <= i < calls.len(),
        s.creates(calls, i, proof) || s.transfers(calls, i, proof),
        forall|k: int| i < k < calls.len() ==> !#[trigger] s.creates(calls, k, proof),
        forall|k: int| i < k < calls.len() ==> !#[trigger] s.transfers(calls, k, proof),
        forall|k: int| i < k < calls.len() ==> !#[trigger] s.revokes(calls, k, proof),
    ensures
        s.run(calls).claimed(proof),
        calls[i].grantee() is Some,
        s.run(calls).proofs[proof] == (
            calls[i].grantee().unwrap(),
            s.run(calls.take(i)).block_number,
        ),
{
    lemma_run_next(s, calls, i);
    lemma_record_stays(s, calls, i + 1, calls.len() as int, proof);
    assert(calls.take(calls.len() as int) =~= calls);
}

/// Whether `call` leaves the block number where it is or moves it on.
pub open spec fn forward(s: Registry, call: Call) -> bool {
    match call {
        Call::SetBlockNumber { number } => s.block_number <= number,
        _ => true,
    }
}

/// A date is never turned back: while the host does not turn the block
/// number back, no claim is dated later than the current block, and a claim
/// that a call leaves standing or hands over is dated no earlier than before.
pub proof fn law_dates_never_decrease(s: Registry, call: Call, proof: Seq<u8>)
    requires
        s.dated(),
        forward(s, call),
    ensures
        s.step(call).0.dated(),
        s.claimed(proof) && s.step(call).0.claimed(proof) ==> s.proofs[proof].1 <= s.step(
            call,
        ).0.proofs[proof].1,
{
}

/// A claim that its owner revokes is gone, and the proof can be claimed
/// again: where nobody but `who` holds `proof`, and `who` claims it and then
/// revokes the claim, `proof` is unclaimed and every other claim is as it
/// was; the revocation succeeds where the claim did; and where `who` then
/// claims `proof` again, at whatever block, that succeeds, as long as the
/// proof is no longer than the limit then in force, as it is where the first
/// claim succeeded and the limit has not gone down.
pub proof fn law_round_trip(
    s: Registry,
    who: AccountId,
    proof: Seq<u8>,
    limit: u32,
    later: BlockNumber,
    later_limit: u32,
)
    requires
        s.claimed(proof) ==> s.owns(who, proof),
    ensures
        ({
            let created = s.create_claim(who, proof, limit);
            let revoked = created.0.revoke_claim(who, proof);
            let again = revoked.0.set_block_number(later).create_claim(who, proof, later_limit);
            &&& created.1 is Ok ==> revoked.1 is Ok
            &&& !revoked.0.claimed(proof)
            &&& revoked.0.proofs == s.proofs.remove(proof)
            &&& created.1 is Ok && limit <= later_limit ==> again.1 is Ok
            &&& again.1 is Ok <==> proof.len() <= later_limit
            &&& again.1 is Ok ==> again.0.proofs == s.proofs.insert(proof, (who, later))
        }),
{
    let created = s.create_claim(who, proof, limit);
    let revoked = created.0.revoke_claim(who, proof);
    let again = revoked.0.set_block_number(later).create_claim(who, proof, later_limit);
    assert(revoked.0.proofs =~= s.proofs.remove(proof));
    if again.1 is Ok {
        assert(again.0.proofs =~= s.proofs.insert(proof, (who, later)));
    }
}

} // verus!
