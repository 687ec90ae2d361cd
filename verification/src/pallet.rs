//! The registry itself: the claims it holds, and the calls that change them.

use crate::model::{AccountId, BlockNumber, Notice, Registry};
use crate::rules::{ensure_can_create, ensure_owner};
use core::marker::PhantomData;
use vstd::prelude::*;

verus! {

/// What the host configures.
pub trait Config {
    /// The greatest length, in bytes, of a proof that may be claimed. It is
    /// asked for at every call, and need not stay the same.
    fn max_claim_length_limitation() -> u32;
}

/// Why a call was turned down.
#[derive(Clone, Copy, Debug, PartialEq, Eq, Structural)]
pub enum Error {
    /// The proof is claimed already.
    ProofAlreadyClaimedError,
    /// The proof is not claimed.
    ProofNotFoundError,
    /// The caller does not own the claim.
    ProofOwnershipError,
    /// The proof is longer than the host accepts.
    ProofSizeExceededError,
}

/// What the registry tells the host after a call that succeeded.
#[derive(Debug, PartialEq, Eq)]
pub enum Event {
    /// A claim was created: the proof, and who claimed it.
    ClaimCreated(Vec<u8>, AccountId),
    /// A claim was revoked: the proof, and who revoked it.
    ClaimRevoked(Vec<u8>, AccountId),
    /// A claim was handed over: the proof, from whom, and to whom.
    ClaimTransfered(Vec<u8>, AccountId, AccountId),
}

impl View for Event {
    type V = Notice;

    open spec fn view(&self) -> Notice {
        match *self {
            Event::ClaimCreated(proof, who) => Notice::ClaimCreated { proof: proof@, who },
            Event::ClaimRevoked(proof, who) => Notice::ClaimRevoked { proof: proof@, who },
            Event::ClaimTransfered(proof, from, to) => Notice::ClaimTransfered {
                proof: proof@,
                from,
                to,
            },
        }
    }
}

impl Clone for Event {
    fn clone(&self) -> (r: Self)
        ensures
            r@ == self@,
    {
        match self {
            Event::ClaimCreated(proof, who) => Event::ClaimCreated(copy_bytes(proof), *who),
            Event::ClaimRevoked(proof, who) => Event::ClaimRevoked(copy_bytes(proof), *who),
            Event::ClaimTransfered(proof, from, to) => Event::ClaimTransfered(
                copy_bytes(proof),
                *from,
                *to,
            ),
        }
    }
}

/// The notices that a list of events stands for, in the same order.
pub open spec fn notices(events: Seq<Event>) -> Seq<Notice> {
    Seq::new(events.len(), |i: int| events[i]@)
}

/// One claim.
struct Claim {
    proof: Vec<u8>,
    owner: AccountId,
    block: BlockNumber,
}

/// The claim registry of a host configured by `T`.
pub struct Pallet<T: Config> {
    /// The claims, no two of them on the same proof.
    claims: Vec<Claim>,
    /// The events since the host last took them, oldest first.
    events: Vec<Event>,
    /// The current block.
    block_number: BlockNumber,
    config: PhantomData<T>,
}

/// Whether some claim of `claims` is on `proof`.
spec fn holds(claims: Seq<Claim>, proof: Seq<u8>) -> bool {
    exists|i: int| 0 <= i < claims.len() && #[trigger] claims[i].proof@ == proof
}

/// The place of a claim on `proof` in `claims`, where there is one.
spec fn place(claims: Seq<Claim>, proof: Seq<u8>) -> int {
    choose|i: int| 0 <= i < claims.len() && #[trigger] claims[i].proof@ == proof
}

/// No two claims of `claims` are on the same proof.
spec fn distinct(claims: Seq<Claim>) -> bool {
    forall|i: int, j: int|
        0 <= i < j < claims.len() ==> #[trigger] claims[i].proof@ != #[trigger] claims[j].proof@
}

/// The map that `claims` stands for.
spec fn as_map(claims: Seq<Claim>) -> Map<Seq<u8>, (AccountId, BlockNumber)> {
    Map::new(
        |proof: Seq<u8>| holds(claims, proof),
        |proof: Seq<u8>| (claims[place(claims, proof)].owner, claims[place(claims, proof)].block),
    )
}

/// A claim found at place `i` is the one that the map has for its proof.
proof fn lemma_map_at(claims: Seq<Claim>, i: int)
    requires
        distinct(claims),
        0 <= i < claims.len(),
    ensures
        as_map(claims).contains_key(claims[i].proof@),
        as_map(claims)[claims[i].proof@] == (claims[i].owner, claims[i].block),
{
    let proof = claims[i].proof@;
    assert(holds(claims, proof));
    let j = place(claims, proof);
    if j < i {
        assert(claims[j].proof@ != claims[i].proof@);
    } else if i < j {
        assert(claims[i].proof@ != claims[j].proof@);
    }
}

/// A claim on a proof that is not held yet, put at the end, is an insertion
/// into the map.
proof fn lemma_map_push(claims: Seq<Claim>, claim: Claim)
    requires
        distinct(claims),
        !holds(claims, claim.proof@),
    ensures
        distinct(claims.push(claim)),
        as_map(claims.push(claim)) == as_map(claims).insert(
            claim.proof@,
            (claim.owner, claim.block),
        ),
{
    let after = claims.push(claim);
    let n = claims.len() as int;
    assert forall|i: int, j: int| 0 <= i < j < after.len() implies #[trigger] after[i].proof@
        != #[trigger] after[j].proof@ by {
        if j == n {
            if after[i].proof@ == claim.proof@ {
                assert(claims[i].proof@ == claim.proof@);
                assert(holds(claims, claim.proof@));
            }
        } else {
            assert(claims[i].proof@ != claims[j].proof@);
        }
    }
    let want = as_map(claims).insert(claim.proof@, (claim.owner, claim.block));
    assert forall|proof: Seq<u8>| as_map(after).contains_key(proof) <==> want.contains_key(
        proof,
    ) by {
        if holds(after, proof) {
            let i = place(after, proof);
            if i < n {
                assert(claims[i].proof@ == proof);
            }
        }
        if holds(claims, proof) {
            let i = place(claims, proof);
            assert(after[i].proof@ == proof);
        }
        if proof == claim.proof@ {
            assert(after[n].proof@ == proof);
        }
    }
    assert forall|proof: Seq<u8>| as_map(after).contains_key(proof) implies as_map(after)[proof]
        == want[proof] by {
        let i = place(after, proof);
        lemma_map_at(after, i);
        if i < n {
            lemma_map_at(claims, i);
        }
    }
    assert(as_map(after) =~= want);
}

/// Taking the claim at place `i` out is a removal from the map.
proof fn lemma_map_remove(claims: Seq<Claim>, i: int)
    requires
        distinct(claims),
        0 <= i < claims.len(),
    ensures
        distinct(claims.remove(i)),
        as_map(claims.remove(i)) == as_map(claims).remove(claims[i].proof@),
{
    let after = claims.remove(i);
    let gone = claims[i].proof@;
    assert forall|a: int, b: int| 0 <= a < b < after.len() implies #[trigger] after[a].proof@
        != #[trigger] after[b].proof@ by {
        let a0 = if a < i { a } else { a + 1 };
        let b0 = if b < i { b } else { b + 1 };
        assert(claims[a0].proof@ != claims[b0].proof@);
    }
    let want = as_map(claims).remove(gone);
    assert forall|proof: Seq<u8>| as_map(after).contains_key(proof) <==> want.contains_key(
        proof,
    ) by {
        if holds(after, proof) {
            let a = place(after, proof);
            let a0 = if a < i { a } else { a + 1 };
            assert(claims[a0].proof@ == proof);
            if a0 < i {
                assert(claims[a0].proof@ != claims[i].proof@);
            } else {
                assert(claims[i].proof@ != claims[a0].proof@);
            }
        }
        if holds(claims, proof) && proof != gone {
            let a0 = place(claims, proof);
            let a = if a0 < i { a0 } else { a0 - 1 };
            assert(after[a].proof@ == proof);
        }
    }
    assert forall|proof: Seq<u8>| as_map(after).contains_key(proof) implies as_map(after)[proof]
        == want[proof] by {
        let a = place(after, proof);
        let a0 = if a < i { a } else { a + 1 };
        lemma_map_at(after, a);
        lemma_map_at(claims, a0);
    }
    assert(as_map(after) =~= want);
}

/// Writing another claim on the same proof at place `i` is an insertion into
/// the map.
proof fn lemma_map_update(claims: Seq<Claim>, i: int, claim: Claim)
    requires
        distinct(claims),
        0 <= i < claims.len(),
        claim.proof@ == claims[i].proof@,
    ensures
        distinct(claims.update(i, claim)),
        as_map(claims.update(i, claim)) == as_map(claims).insert(
            claim.proof@,
            (claim.owner, claim.block),
        ),
{
    let after = claims.update(i, claim);
    assert forall|a: int, b: int| 0 <= a < b < after.len() implies #[trigger] after[a].proof@
        != #[trigger] after[b].proof@ by {
        assert(claims[a].proof@ != claims[b].proof@);
    }
    let want = as_map(claims).insert(claim.proof@, (claim.owner, claim.block));
    assert forall|proof: Seq<u8>| as_map(after).contains_key(proof) <==> want.contains_key(
        proof,
    ) by {
        if holds(after, proof) {
            let a = place(after, proof);
            assert(claims[a].proof@ == proof);
        }
        if holds(claims, proof) {
            let a = place(claims, proof);
            assert(after[a].proof@ == proof);
        }
        if proof == claim.proof@ {
            assert(after[i].proof@ == proof);
        }
    }
    assert forall|proof: Seq<u8>| as_map(after).contains_key(proof) implies as_map(after)[proof]
        == want[proof] by {
        let a = place(after, proof);
        lemma_map_at(after, a);
        if a != i {
            lemma_map_at(claims, a);
        }
    }
    assert(as_map(after) =~= want);
}

/// Where no claim is dated after `block`, the map holds no such date.
proof fn lemma_map_dated(claims: Seq<Claim>, block: BlockNumber)
    requires
        distinct(claims),
        forall|i: int| 0 <= i < claims.len() ==> (#[trigger] claims[i]).block <= block,
    ensures
        forall|proof: Seq<u8>| #[trigger]
            as_map(claims).contains_key(proof) ==> as_map(claims)[proof].1 <= block,
{
    assert forall|proof: Seq<u8>| #[trigger]
        as_map(claims).contains_key(proof) implies as_map(claims)[proof].1 <= block by {
        let i = place(claims, proof);
        assert(claims[i].block <= block);
    }
}

/// Whether two strings of bytes are the same.
fn same_bytes(a: &Vec<u8>, b: &Vec<u8>) -> (r: bool)
    ensures
        r == (a@ == b@),
{
    if a.len() != b.len() {
        return false;
    }
    let mut i: usize = 0;
    while i < a.len()
        invariant
            a.len() == b.len(),
            i <= a.len(),
            forall|k: int| 0 <= k < i ==> a@[k] == b@[k],
        decreases a.len() - i,
    {
        if a[i] != b[i] {
            return false;
        }
        i += 1;
    }
    assert(a@ =~= b@);
    true
}

/// A copy of a string of bytes.
fn copy_bytes(a: &Vec<u8>) -> (r: Vec<u8>)
    ensures
        r@ == a@,
{
    let mut r: Vec<u8> = Vec::new();
    let mut i: usize = 0;
    while i < a.len()
        invariant
            i <= a.len(),
            r@ == a@.take(i as int),
        decreases a.len() - i,
    {
        r.push(a[i]);
        assert(a@.take(i + 1) =~= a@.take(i as int).push(a@[i as int]));
        i += 1;
    }
    assert(a@.take(a.len() as int) =~= a@);
    r
}

/// The place of the claim on `proof`, where there is one.
fn find(claims: &Vec<Claim>, proof: &Vec<u8>) -> (r: Option<usize>)
    ensures
        match r {
            Some(i) => i < claims.len() && claims@[i as int].proof@ == proof@,
            None => !holds(claims@, proof@),
        },
{
    let mut i: usize = 0;
    while i < claims.len()
        invariant
            i <= claims.len(),
            forall|k: int| 0 <= k < i ==> (#[trigger] claims@[k]).proof@ != proof@,
        decreases claims.len() - i,
    {
        if same_bytes(&claims[i].proof, proof) {
            return Some(i);
        }
        i += 1;
    }
    None
}

impl<T: Config> View for Pallet<T> {
    type V = Registry;

    closed spec fn view(&self) -> Registry {
        Registry {
            proofs: as_map(self.claims@),
            events: notices(self.events@),
            block_number: self.block_number,
        }
    }
}

impl<T: Config> Pallet<T> {
    #[verifier::type_invariant]
    spec fn sound(self) -> bool {
        &&& distinct(self.claims@)
        &&& forall|i: int|
            0 <= i < self.claims@.len() ==> (#[trigger] self.claims@[i]).block
                <= self.block_number
    }

    /// A registry in which nothing is claimed, at block 0.
    pub fn new() -> (r: Self)
        ensures
            r@ == Registry::empty(),
    {
        let r = Pallet {
            claims: Vec::new(),
            events: Vec::new(),
            block_number: 0,
            config: PhantomData,
        };
        assert(r@.proofs =~= Map::empty());
        assert(r@.events =~= Seq::empty());
        r
    }

    /// What is sound is dated.
    proof fn lemma_dated(self)
        requires
            self.sound(),
        ensures
            self@.dated(),
    {
        lemma_map_dated(self.claims@, self.block_number);
    }

    /// Moves the claims out, and leaves none behind.
    fn take_claims(&mut self) -> (claims: Vec<Claim>)
        ensures
            claims == old(self).claims,
            final(self).claims@ == Seq::<Claim>::empty(),
            final(self).events == old(self).events,
            final(self).block_number == old(self).block_number,
    {
        let mut claims: Vec<Claim> = Vec::new();
        core::mem::swap(&mut claims, &mut self.claims);
        claims
    }

    /// Puts `event` at the end of the events.
    fn deposit_event(&mut self, event: Event)
        ensures
            final(self).claims == old(self).claims,
            final(self).events@ == old(self).events@.push(event),
            final(self).block_number == old(self).block_number,
    {
        proof {
            use_type_invariant(&*self);
        }
        let mut events: Vec<Event> = Vec::new();
        core::mem::swap(&mut events, &mut self.events);
        events.push(event);
        self.events = events;
    }

    /// The current block.
    pub fn block_number(&self) -> (r: BlockNumber)
        ensures
            r == self@.block_number,
    {
        self.block_number
    }

    /// Moves on to block `number`, which is not behind the current one.
    pub fn set_block_number(&mut self, number: BlockNumber)
        requires
            old(self)@.block_number <= number,
        ensures
            final(self)@ == old(self)@.set_block_number(number),
            final(self)@.dated(),
    {
        proof {
            use_type_invariant(&*self);
        }
        self.block_number = number;
        proof {
            self.lemma_dated();
        }
    }

    /// Whether `proof` is claimed.
    pub fn contains_key(&self, proof: &Vec<u8>) -> (r: bool)
        ensures
            r == self@.claimed(proof@),
    {
        find(&self.claims, proof).is_some()
    }

    /// The owner of the claim on `proof` and the block at which it was
    /// created or last handed over, or `(0, 0)` where `proof` is not claimed.
    pub fn proofs(&self, proof: &Vec<u8>) -> (r: (AccountId, BlockNumber))
        ensures
            r == self@.record(proof@),
    {
        proof {
            use_type_invariant(self);
        }
        match find(&self.claims, proof) {
            Some(i) => {
                proof {
                    lemma_map_at(self.claims@, i as int);
                }
                (self.claims[i].owner, self.claims[i].block)
            },
            None => (0, 0),
        }
    }

    /// The events since the host last took them, oldest first.
    pub fn events(&self) -> (r: &Vec<Event>)
        ensures
            notices(r@) == self@.events,
    {
        &self.events
    }

    /// Hands the events to the host, oldest first, and keeps none.
    pub fn take_events(&mut self) -> (r: Vec<Event>)
        ensures
            notices(r@) == old(self)@.events,
            final(self)@ == old(self)@.take_events(),
            final(self)@.dated(),
    {
        proof {
            use_type_invariant(&*self);
            self.lemma_dated();
        }
        let mut events: Vec<Event> = Vec::new();
        core::mem::swap(&mut events, &mut self.events);
        assert(notices(self.events@) =~= Seq::empty());
        events
    }

    /// Claims `proof` for `who`, at the current block, while proofs of up to
    /// `limit` bytes are accepted.
    pub fn create_claim_within(&mut self, who: AccountId, proof: Vec<u8>, limit: u32) -> (r: Result<
        (),
        Error,
    >)
        ensures
            (final(self)@, r) == old(self)@.create_claim(who, proof@, limit),
            r is Err ==> final(self)@ == old(self)@,
            final(self)@.dated(),
    {
        proof {
            use_type_invariant(&*self);
            self.lemma_dated();
        }
        let found = find(&self.claims, &proof);
        proof {
            if let Some(i) = found {
                lemma_map_at(self.claims@, i as int);
            }
        }
        match ensure_can_create(proof.len(), limit, found.is_some()) {
            Err(e) => Err(e),
            Ok(()) => {
                let claim = Claim {
                    proof: copy_bytes(&proof),
                    owner: who,
                    block: self.block_number,
                };
                proof {
                    lemma_map_push(self.claims@, claim);
                    assert(notices(self.events@.push(Event::ClaimCreated(proof, who)))
                        =~= notices(self.events@).push(
                        Notice::ClaimCreated { proof: proof@, who },
                    ));
                }
                let mut claims = self.take_claims();
                claims.push(claim);
                self.claims = claims;
                self.deposit_event(Event::ClaimCreated(proof, who));
                proof {
                    use_type_invariant(&*self);
                    self.lemma_dated();
                }
                Ok(())
            },
        }
    }

    /// Claims `proof` for `who`, at the current block. The host is asked how
    /// long a proof may be, and the claim is made within that limit.
    pub fn create_claim(&mut self, who: AccountId, proof: Vec<u8>) -> (r: Result<(), Error>)
        ensures
            exists|limit: u32|
                (final(self)@, r) == #[trigger] old(self)@.create_claim(who, proof@, limit),
            r is Err ==> final(self)@ == old(self)@,
            final(self)@.dated(),
            old(self)@.claimed(proof@) ==> r is Err,
            proof@.len() == 0 && !old(self)@.claimed(proof@) ==> r is Ok,
            proof@.len() > u32::MAX ==> r == Err::<(), Error>(Error::ProofSizeExceededError),
    {
        let limit = T::max_claim_length_limitation();
        self.create_claim_within(who, proof, limit)
    }

    /// Revokes the claim on `proof`, which `who` must own.
    pub fn revoke_claim(&mut self, who: AccountId, proof: Vec<u8>) -> (r: Result<(), Error>)
        ensures
            (final(self)@, r) == old(self)@.revoke_claim(who, proof@),
            r is Err ==> final(self)@ == old(self)@,
            final(self)@.dated(),
    {
        proof {
            use_type_invariant(&*self);
            self.lemma_dated();
        }
        let found = find(&self.claims, &proof);
        let is_owner = match found {
            Some(i) => {
                proof {
                    lemma_map_at(self.claims@, i as int);
                }
                self.claims[i].owner == who
            },
            None => false,
        };
        match ensure_owner(found.is_some(), is_owner) {
            Err(e) => Err(e),
            Ok(()) => {
                let i = found.unwrap();
                proof {
                    lemma_map_remove(self.claims@, i as int);
                    assert(notices(self.events@.push(Event::ClaimRevoked(proof, who)))
                        =~= notices(self.events@).push(
                        Notice::ClaimRevoked { proof: proof@, who },
                    ));
                }
                let mut claims = self.take_claims();
                claims.remove(i);
                self.claims = claims;
                self.deposit_event(Event::ClaimRevoked(proof, who));
                proof {
                    use_type_invariant(&*self);
                    self.lemma_dated();
                }
                Ok(())
            },
        }
    }

    /// Hands the claim on `proof`, which `who` must own, to `to`, and dates
    /// it at the current block.
    pub fn transfer_claim(&mut self, who: AccountId, proof: Vec<u8>, to: AccountId) -> (r: Result<
        (),
        Error,
    >)
        ensures
            (final(self)@, r) == old(self)@.transfer_claim(who, proof@, to),
            r is Err ==> final(self)@ == old(self)@,
            final(self)@.dated(),
            r is Ok ==> old(self)@.proofs[proof@].1 <= final(self)@.proofs[proof@].1,
    {
        proof {
            use_type_invariant(&*self);
            self.lemma_dated();
        }
        let found = find(&self.claims, &proof);
        let is_owner = match found {
            Some(i) => {
                proof {
                    lemma_map_at(self.claims@, i as int);
                }
                self.claims[i].owner == who
            },
            None => false,
        };
        match ensure_owner(found.is_some(), is_owner) {
            Err(e) => Err(e),
            Ok(()) => {
                let i = found.unwrap();
                let claim = Claim {
                    proof: copy_bytes(&proof),
                    owner: to,
                    block: self.block_number,
                };
                proof {
                    lemma_map_update(self.claims@, i as int, claim);
                    assert(notices(self.events@.push(Event::ClaimTransfered(proof, who, to)))
                        =~= notices(self.events@).push(
                        Notice::ClaimTransfered { proof: proof@, from: who, to },
                    ));
                }
                let mut claims = self.take_claims();
                claims.set(i, claim);
                self.claims = claims;
                self.deposit_event(Event::ClaimTransfered(proof, who, to));
                proof {
                    use_type_invariant(&*self);
                    self.lemma_dated();
                }
                Ok(())
            },
        }
    }
}

} // verus!
