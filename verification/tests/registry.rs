use poe::rules::{ensure_can_create, ensure_owner};
use poe::{Config, Error, Event, Pallet};

struct Hundred;

impl Config for Hundred {
    fn max_claim_length_limitation() -> u32 {
        100
    }
}

struct Nothing;

impl Config for Nothing {
    fn max_claim_length_limitation() -> u32 {
        0
    }
}

fn at_block_5() -> Pallet<Hundred> {
    let mut poe = Pallet::<Hundred>::new();
    poe.set_block_number(5);
    poe
}

#[test]
fn new_registry_is_empty_at_block_0() {
    let poe = Pallet::<Hundred>::new();
    assert_eq!(poe.block_number(), 0);
    assert!(poe.events().is_empty());
    assert!(!poe.contains_key(&vec![]));
    assert!(!poe.contains_key(&vec![1]));
    assert_eq!(poe.proofs(&vec![1]), (0, 0));
}

#[test]
fn create_records_owner_and_block() {
    let mut poe = at_block_5();
    assert_eq!(poe.create_claim(1, vec![1]), Ok(()));
    assert!(poe.contains_key(&vec![1]));
    assert_eq!(poe.proofs(&vec![1]), (1, 5));
    assert_eq!(poe.events(), &vec![Event::ClaimCreated(vec![1], 1)]);
}

#[test]
fn second_create_fails_and_changes_nothing() {
    let mut poe = at_block_5();
    assert_eq!(poe.create_claim(1, vec![1]), Ok(()));
    poe.set_block_number(6);
    assert_eq!(poe.create_claim(1, vec![1]), Err(Error::ProofAlreadyClaimedError));
    assert_eq!(poe.create_claim(2, vec![1]), Err(Error::ProofAlreadyClaimedError));
    assert_eq!(poe.proofs(&vec![1]), (1, 5));
    assert_eq!(poe.block_number(), 6);
    assert_eq!(poe.events(), &vec![Event::ClaimCreated(vec![1], 1)]);
}

#[test]
fn revoke_by_another_fails_then_owner_revokes() {
    let mut poe = at_block_5();
    assert_eq!(poe.create_claim(1, vec![1]), Ok(()));
    assert_eq!(poe.revoke_claim(2, vec![1]), Err(Error::ProofOwnershipError));
    assert_eq!(poe.proofs(&vec![1]), (1, 5));
    assert_eq!(poe.revoke_claim(1, vec![1]), Ok(()));
    assert!(!poe.contains_key(&vec![1]));
    assert_eq!(poe.proofs(&vec![1]), (0, 0));
    assert_eq!(
        poe.events(),
        &vec![Event::ClaimCreated(vec![1], 1), Event::ClaimRevoked(vec![1], 1)]
    );
}

#[test]
fn transfer_changes_owner_and_dates_anew() {
    let mut poe = at_block_5();
    assert_eq!(poe.create_claim(1, vec![1]), Ok(()));
    poe.set_block_number(9);
    assert_eq!(poe.transfer_claim(1, vec![1], 2), Ok(()));
    assert_eq!(poe.proofs(&vec![1]), (2, 9));
    assert_eq!(poe.proofs(&vec![1]), (2, poe.block_number()));
    assert_eq!(poe.revoke_claim(1, vec![1]), Err(Error::ProofOwnershipError));
    assert_eq!(poe.proofs(&vec![1]), (2, 9));
    assert_eq!(
        poe.events(),
        &vec![Event::ClaimCreated(vec![1], 1), Event::ClaimTransfered(vec![1], 1, 2)]
    );
}

#[test]
fn proof_of_101_bytes_is_too_large_for_100() {
    let mut poe = at_block_5();
    let claim = vec![7u8; 101];
    assert_eq!(poe.create_claim(1, claim.clone()), Err(Error::ProofSizeExceededError));
    assert!(!poe.contains_key(&claim));
    assert_eq!(poe.proofs(&claim), (0, 0));
    assert!(poe.events().is_empty());
    assert_eq!(poe.block_number(), 5);
}

#[test]
fn proof_of_100_bytes_fits_100() {
    let mut poe = at_block_5();
    let claim = vec![7u8; 100];
    assert_eq!(poe.create_claim(1, claim.clone()), Ok(()));
    assert_eq!(poe.proofs(&claim), (1, 5));
}

#[test]
fn unclaimed_proof_is_not_found() {
    let mut poe = at_block_5();
    assert_eq!(poe.revoke_claim(1, vec![1]), Err(Error::ProofNotFoundError));
    assert_eq!(poe.transfer_claim(1, vec![1], 2), Err(Error::ProofNotFoundError));
    assert!(!poe.contains_key(&vec![1]));
    assert!(poe.events().is_empty());
}

#[test]
fn one_create_succeeds_until_revoked() {
    let mut poe = at_block_5();
    assert_eq!(poe.create_claim(1, vec![4, 2]), Ok(()));
    assert_eq!(poe.create_claim(2, vec![4, 2]), Err(Error::ProofAlreadyClaimedError));
    assert_eq!(poe.transfer_claim(1, vec![4, 2], 3), Ok(()));
    assert_eq!(poe.create_claim(1, vec![4, 2]), Err(Error::ProofAlreadyClaimedError));
    assert_eq!(poe.revoke_claim(3, vec![4, 2]), Ok(()));
    assert_eq!(poe.create_claim(2, vec![4, 2]), Ok(()));
    assert_eq!(poe.proofs(&vec![4, 2]), (2, 5));
}

#[test]
fn only_the_recipient_disposes_after_transfer() {
    let mut poe = at_block_5();
    assert_eq!(poe.create_claim(1, vec![1]), Ok(()));
    assert_eq!(poe.transfer_claim(1, vec![1], 2), Ok(()));
    assert_eq!(poe.revoke_claim(1, vec![1]), Err(Error::ProofOwnershipError));
    assert_eq!(poe.transfer_claim(1, vec![1], 1), Err(Error::ProofOwnershipError));
    assert_eq!(poe.revoke_claim(3, vec![1]), Err(Error::ProofOwnershipError));
    assert_eq!(poe.transfer_claim(3, vec![1], 3), Err(Error::ProofOwnershipError));
    assert_eq!(poe.proofs(&vec![1]), (2, 5));
    assert_eq!(poe.transfer_claim(2, vec![1], 3), Ok(()));
    assert_eq!(poe.revoke_claim(2, vec![1]), Err(Error::ProofOwnershipError));
    assert_eq!(poe.revoke_claim(3, vec![1]), Ok(()));
}

#[test]
fn another_account_may_claim_anew_after_revoke() {
    let mut poe = at_block_5();
    assert_eq!(poe.create_claim(1, vec![1]), Ok(()));
    assert_eq!(poe.transfer_claim(1, vec![1], 2), Ok(()));
    assert_eq!(poe.revoke_claim(2, vec![1]), Ok(()));
    assert_eq!(poe.create_claim(3, vec![1]), Ok(()));
    assert_eq!(poe.revoke_claim(2, vec![1]), Err(Error::ProofOwnershipError));
    assert_eq!(poe.revoke_claim(3, vec![1]), Ok(()));
}

#[test]
fn failing_calls_change_nothing() {
    let mut poe = at_block_5();
    assert_eq!(poe.create_claim(1, vec![1]), Ok(()));
    assert_eq!(poe.create_claim(2, vec![2, 2]), Ok(()));
    poe.set_block_number(8);
    let events = poe.events().clone();
    assert_eq!(poe.create_claim(3, vec![1]), Err(Error::ProofAlreadyClaimedError));
    assert_eq!(poe.create_claim(3, vec![0u8; 101]), Err(Error::ProofSizeExceededError));
    assert_eq!(poe.revoke_claim(3, vec![1]), Err(Error::ProofOwnershipError));
    assert_eq!(poe.revoke_claim(3, vec![3]), Err(Error::ProofNotFoundError));
    assert_eq!(poe.transfer_claim(3, vec![2, 2], 3), Err(Error::ProofOwnershipError));
    assert_eq!(poe.transfer_claim(3, vec![3], 3), Err(Error::ProofNotFoundError));
    assert_eq!(poe.proofs(&vec![1]), (1, 5));
    assert_eq!(poe.proofs(&vec![2, 2]), (2, 5));
    assert!(!poe.contains_key(&vec![3]));
    assert!(!poe.contains_key(&vec![0u8; 101]));
    assert_eq!(poe.events(), &events);
    assert_eq!(poe.block_number(), 8);
}

#[test]
fn create_then_revoke_then_create_again() {
    let mut poe = at_block_5();
    assert_eq!(poe.create_claim(2, vec![9]), Ok(()));
    assert_eq!(poe.create_claim(1, vec![1]), Ok(()));
    assert_eq!(poe.revoke_claim(1, vec![1]), Ok(()));
    assert!(!poe.contains_key(&vec![1]));
    assert_eq!(poe.proofs(&vec![9]), (2, 5));
    poe.set_block_number(11);
    assert_eq!(poe.create_claim(1, vec![1]), Ok(()));
    assert_eq!(poe.proofs(&vec![1]), (1, 11));
    assert_eq!(poe.proofs(&vec![9]), (2, 5));
}

#[test]
fn self_transfer_is_allowed_and_dates_anew() {
    let mut poe = at_block_5();
    assert_eq!(poe.create_claim(1, vec![1]), Ok(()));
    poe.set_block_number(6);
    assert_eq!(poe.transfer_claim(1, vec![1], 1), Ok(()));
    assert_eq!(poe.proofs(&vec![1]), (1, 6));
    assert_eq!(
        poe.events(),
        &vec![Event::ClaimCreated(vec![1], 1), Event::ClaimTransfered(vec![1], 1, 1)]
    );
}

#[test]
fn empty_proof_can_be_claimed() {
    let mut poe = Pallet::<Nothing>::new();
    assert_eq!(poe.create_claim(1, vec![]), Ok(()));
    assert!(poe.contains_key(&vec![]));
    assert_eq!(poe.proofs(&vec![]), (1, 0));
    assert_eq!(poe.create_claim(1, vec![0]), Err(Error::ProofSizeExceededError));
    assert_eq!(poe.create_claim(2, vec![]), Err(Error::ProofAlreadyClaimedError));
}

#[test]
fn proofs_are_told_apart_byte_by_byte() {
    let mut poe = at_block_5();
    assert_eq!(poe.create_claim(1, vec![1, 2, 3]), Ok(()));
    assert!(!poe.contains_key(&vec![1, 2]));
    assert!(!poe.contains_key(&vec![1, 2, 3, 4]));
    assert!(!poe.contains_key(&vec![1, 2, 4]));
    assert!(!poe.contains_key(&vec![0, 2, 3]));
    assert!(!poe.contains_key(&vec![]));
    assert_eq!(poe.create_claim(2, vec![1, 2]), Ok(()));
    assert_eq!(poe.create_claim(3, vec![1, 2, 4]), Ok(()));
    assert_eq!(poe.proofs(&vec![1, 2, 3]), (1, 5));
    assert_eq!(poe.proofs(&vec![1, 2]), (2, 5));
    assert_eq!(poe.proofs(&vec![1, 2, 4]), (3, 5));
    assert_eq!(poe.revoke_claim(1, vec![1, 2, 3]), Ok(()));
    assert!(!poe.contains_key(&vec![1, 2, 3]));
    assert_eq!(poe.proofs(&vec![1, 2]), (2, 5));
    assert_eq!(poe.proofs(&vec![1, 2, 4]), (3, 5));
}

#[test]
fn limit_is_the_one_in_force_at_the_call() {
    let mut poe = at_block_5();
    assert_eq!(poe.create_claim_within(1, vec![1, 2, 3], 2), Err(Error::ProofSizeExceededError));
    assert!(!poe.contains_key(&vec![1, 2, 3]));
    assert_eq!(poe.create_claim_within(1, vec![1, 2, 3], 3), Ok(()));
    assert_eq!(poe.proofs(&vec![1, 2, 3]), (1, 5));
    assert_eq!(
        poe.create_claim_within(1, vec![1, 2, 3], 3),
        Err(Error::ProofAlreadyClaimedError)
    );
    assert_eq!(
        poe.create_claim_within(1, vec![1, 2, 3], 2),
        Err(Error::ProofSizeExceededError)
    );
    assert_eq!(poe.events(), &vec![Event::ClaimCreated(vec![1, 2, 3], 1)]);
}

#[test]
fn host_takes_the_events() {
    let mut poe = at_block_5();
    assert_eq!(poe.create_claim(1, vec![1]), Ok(()));
    assert_eq!(poe.transfer_claim(1, vec![1], 2), Ok(()));
    assert_eq!(poe.revoke_claim(1, vec![1]), Err(Error::ProofOwnershipError));
    let taken = poe.take_events();
    assert_eq!(
        taken,
        vec![Event::ClaimCreated(vec![1], 1), Event::ClaimTransfered(vec![1], 1, 2)]
    );
    assert!(poe.events().is_empty());
    assert_eq!(poe.proofs(&vec![1]), (2, 5));
    assert_eq!(poe.block_number(), 5);
    assert_eq!(poe.revoke_claim(2, vec![1]), Ok(()));
    assert_eq!(poe.take_events(), vec![Event::ClaimRevoked(vec![1], 2)]);
    assert_eq!(poe.take_events(), vec![]);
}

#[test]
fn block_number_moves_on_and_leaves_claims_alone() {
    let mut poe = at_block_5();
    assert_eq!(poe.create_claim(1, vec![1]), Ok(()));
    poe.set_block_number(5);
    assert_eq!(poe.block_number(), 5);
    poe.set_block_number(u64::MAX);
    assert_eq!(poe.block_number(), u64::MAX);
    assert_eq!(poe.proofs(&vec![1]), (1, 5));
    assert_eq!(poe.events(), &vec![Event::ClaimCreated(vec![1], 1)]);
    assert_eq!(poe.create_claim(2, vec![2]), Ok(()));
    assert_eq!(poe.proofs(&vec![2]), (2, u64::MAX));
}

#[test]
fn create_rule_tests_length_before_claim() {
    assert_eq!(ensure_can_create(0, 0, false), Ok(()));
    assert_eq!(ensure_can_create(100, 100, false), Ok(()));
    assert_eq!(ensure_can_create(101, 100, false), Err(Error::ProofSizeExceededError));
    assert_eq!(ensure_can_create(100, 100, true), Err(Error::ProofAlreadyClaimedError));
    assert_eq!(ensure_can_create(101, 100, true), Err(Error::ProofSizeExceededError));
    assert_eq!(ensure_can_create(usize::MAX, u32::MAX, false), Err(Error::ProofSizeExceededError));
    assert_eq!(ensure_can_create(4294967295, u32::MAX, false), Ok(()));
}

#[test]
fn owner_rule_tests_claim_before_owner() {
    assert_eq!(ensure_owner(true, true), Ok(()));
    assert_eq!(ensure_owner(true, false), Err(Error::ProofOwnershipError));
    assert_eq!(ensure_owner(false, false), Err(Error::ProofNotFoundError));
    assert_eq!(ensure_owner(false, true), Err(Error::ProofNotFoundError));
}

#[test]
fn cloned_event_is_equal() {
    let created = Event::ClaimCreated(vec![1, 2], 7);
    let revoked = Event::ClaimRevoked(vec![], 8);
    let transfered = Event::ClaimTransfered(vec![3], 9, 10);
    assert_eq!(created.clone(), Event::ClaimCreated(vec![1, 2], 7));
    assert_eq!(revoked.clone(), Event::ClaimRevoked(vec![], 8));
    assert_eq!(transfered.clone(), Event::ClaimTransfered(vec![3], 9, 10));
    assert_ne!(created.clone(), Event::ClaimRevoked(vec![1, 2], 7));
}
