use votingdapp::errors::VoteError;
use votingdapp::keys::{derive_candidate_key, derive_poll_key, key_eq, StorageKey};
use votingdapp::ledger::{Signer, VotingLedger};
use votingdapp::records::{Candidate, Poll, Record};
use votingdapp::store::KeyedStore;

fn signer() -> Signer {
    Signer { signer_id: 1 }
}

#[test]
fn p1_poll_initialized_exactly_once() {
    let s = signer();
    let mut ledger = VotingLedger::new();
    let first = ledger.initialize_poll(&s, 42, b"first description".to_vec(), 10, 20);
    assert_eq!(first, Ok(()));
    let second = ledger.initialize_poll(&s, 42, b"second description".to_vec(), 30, 40);
    assert_eq!(second, Err(VoteError::AlreadyExists));
    let poll = ledger.get_poll(42).expect("poll 42 must exist");
    assert_eq!(poll.poll_id, 42);
    assert_eq!(poll.description, b"first description".to_vec());
    assert_eq!(poll.poll_start, 10);
    assert_eq!(poll.poll_end, 20);
    assert_eq!(poll.candidate_amount, 0);
}

#[test]
fn p2_candidate_linkage() {
    let s = signer();
    let mut ledger = VotingLedger::new();
    assert_eq!(ledger.initialize_poll(&s, 1, b"pets".to_vec(), 0, 100), Ok(()));
    assert_eq!(ledger.initialize_candidate(&s, 1, b"Alice".to_vec()), Ok(()));
    assert_eq!(ledger.get_poll(1).unwrap().candidate_amount, 1);
    assert_eq!(
        ledger.initialize_candidate(&s, 1, b"Alice".to_vec()),
        Err(VoteError::AlreadyExists)
    );
    assert_eq!(ledger.get_poll(1).unwrap().candidate_amount, 1);
    let alice = ledger.get_candidate(1, &b"Alice".to_vec()).unwrap();
    assert_eq!(alice.candidate_name, b"Alice".to_vec());
    assert_eq!(alice.candidate_votes, 0);
}

#[test]
fn p3_vote_monotonicity() {
    let s = signer();
    let mut ledger = VotingLedger::new();
    assert_eq!(ledger.initialize_poll(&s, 1, b"pets".to_vec(), 0, 100), Ok(()));
    assert_eq!(ledger.initialize_candidate(&s, 1, b"Alice".to_vec()), Ok(()));
    let mut previous = 0u64;
    for n in 1..=5u64 {
        assert_eq!(ledger.vote(&s, 1, b"Alice".to_vec()), Ok(()));
        let votes = ledger.get_candidate(1, &b"Alice".to_vec()).unwrap().candidate_votes;
        assert_eq!(votes, n);
        assert!(votes > previous);
        previous = votes;
    }
}

#[test]
fn p4_missing_parent_poll() {
    let s = signer();
    let mut ledger = VotingLedger::new();
    assert_eq!(
        ledger.initialize_candidate(&s, 99, b"Bob".to_vec()),
        Err(VoteError::NotFound)
    );
    assert!(ledger.get_candidate(99, &b"Bob".to_vec()).is_none());
    assert!(ledger.get_poll(99).is_none());
}

#[test]
fn p5_description_byte_bounds() {
    let s = signer();
    let mut ledger = VotingLedger::new();
    let oversized = vec![b'x'; 281];
    assert_eq!(
        ledger.initialize_poll(&s, 7, oversized, 0, 1),
        Err(VoteError::InvalidArgument)
    );
    assert!(ledger.get_poll(7).is_none());
    let at_bound = vec![b'x'; 280];
    assert_eq!(ledger.initialize_poll(&s, 7, at_bound.clone(), 0, 1), Ok(()));
    let poll = ledger.get_poll(7).unwrap();
    assert_eq!(poll.description, at_bound);
}

#[test]
fn p6_same_name_under_distinct_polls() {
    let s = signer();
    let mut ledger = VotingLedger::new();
    assert_eq!(ledger.initialize_poll(&s, 1, b"one".to_vec(), 0, 10), Ok(()));
    assert_eq!(ledger.initialize_poll(&s, 2, b"two".to_vec(), 0, 10), Ok(()));
    assert_eq!(ledger.initialize_candidate(&s, 1, b"Alice".to_vec()), Ok(()));
    assert_eq!(ledger.initialize_candidate(&s, 2, b"Alice".to_vec()), Ok(()));
    assert_eq!(ledger.vote(&s, 1, b"Alice".to_vec()), Ok(()));
    assert_eq!(ledger.vote(&s, 1, b"Alice".to_vec()), Ok(()));
    assert_eq!(ledger.vote(&s, 2, b"Alice".to_vec()), Ok(()));
    assert_eq!(
        ledger.get_candidate(1, &b"Alice".to_vec()).unwrap().candidate_votes,
        2
    );
    assert_eq!(
        ledger.get_candidate(2, &b"Alice".to_vec()).unwrap().candidate_votes,
        1
    );
    assert_eq!(ledger.get_poll(1).unwrap().candidate_amount, 1);
    assert_eq!(ledger.get_poll(2).unwrap().candidate_amount, 1);
}

#[test]
fn end_to_end_best_pet() {
    let s = signer();
    let mut ledger = VotingLedger::new();
    assert_eq!(ledger.initialize_poll(&s, 1, b"Best Pet".to_vec(), 0, 1000), Ok(()));
    assert_eq!(ledger.initialize_candidate(&s, 1, b"Cat".to_vec()), Ok(()));
    assert_eq!(ledger.initialize_candidate(&s, 1, b"Dog".to_vec()), Ok(()));
    for _ in 0..3 {
        assert_eq!(ledger.vote(&s, 1, b"Cat".to_vec()), Ok(()));
    }
    assert_eq!(ledger.vote(&s, 1, b"Dog".to_vec()), Ok(()));
    assert_eq!(ledger.get_poll(1).unwrap().candidate_amount, 2);
    assert_eq!(
        ledger.get_candidate(1, &b"Cat".to_vec()).unwrap().candidate_votes,
        3
    );
    assert_eq!(
        ledger.get_candidate(1, &b"Dog".to_vec()).unwrap().candidate_votes,
        1
    );
}

#[test]
fn candidate_name_byte_bounds() {
    let s = signer();
    let mut ledger = VotingLedger::new();
    assert_eq!(ledger.initialize_poll(&s, 1, b"pets".to_vec(), 0, 10), Ok(()));
    let oversized = vec![b'n'; 33];
    assert_eq!(
        ledger.initialize_candidate(&s, 1, oversized.clone()),
        Err(VoteError::InvalidArgument)
    );
    assert_eq!(ledger.get_poll(1).unwrap().candidate_amount, 0);
    assert_eq!(
        ledger.vote(&s, 1, oversized),
        Err(VoteError::InvalidArgument)
    );
    let at_bound = vec![b'n'; 32];
    assert_eq!(ledger.initialize_candidate(&s, 1, at_bound.clone()), Ok(()));
    assert_eq!(ledger.vote(&s, 1, at_bound.clone()), Ok(()));
    assert_eq!(
        ledger.get_candidate(1, &at_bound).unwrap().candidate_votes,
        1
    );
}

#[test]
fn vote_requires_existing_poll_and_candidate() {
    let s = signer();
    let mut ledger = VotingLedger::new();
    assert_eq!(
        ledger.vote(&s, 5, b"Nobody".to_vec()),
        Err(VoteError::NotFound)
    );
    assert_eq!(ledger.initialize_poll(&s, 5, b"empty poll".to_vec(), 0, 10), Ok(()));
    assert_eq!(
        ledger.vote(&s, 5, b"Nobody".to_vec()),
        Err(VoteError::NotFound)
    );
    assert!(ledger.get_candidate(5, &b"Nobody".to_vec()).is_none());
}

#[test]
fn derived_keys_are_deterministic_and_distinct() {
    let p1 = derive_poll_key(1);
    let p1_again = derive_poll_key(1);
    let p2 = derive_poll_key(2);
    assert!(key_eq(&p1, &p1_again));
    assert!(!key_eq(&p1, &p2));

    let c11 = derive_candidate_key(1, b"Alice".to_vec()).unwrap();
    let c11_again = derive_candidate_key(1, b"Alice".to_vec()).unwrap();
    let c21 = derive_candidate_key(2, b"Alice".to_vec()).unwrap();
    let c12 = derive_candidate_key(1, b"Bob".to_vec()).unwrap();
    assert!(key_eq(&c11, &c11_again));
    assert!(!key_eq(&c11, &c21));
    assert!(!key_eq(&c11, &c12));
    assert!(!key_eq(&p1, &c11));

    assert_eq!(
        derive_candidate_key(1, vec![b'n'; 33]),
        Err(VoteError::InvalidArgument)
    );
}

#[test]
fn store_is_create_exclusive_and_update_needs_presence() {
    let mut store = KeyedStore::empty();
    let poll = Poll {
        poll_id: 3,
        description: b"store poll".to_vec(),
        poll_start: 0,
        poll_end: 9,
        candidate_amount: 0,
    };
    assert_eq!(
        store.update(derive_poll_key(3), Record::Poll(poll.clone())),
        Err(VoteError::NotFound)
    );
    assert_eq!(store.create(derive_poll_key(3), Record::Poll(poll.clone())), Ok(()));
    assert_eq!(
        store.create(derive_poll_key(3), Record::Poll(poll.clone())),
        Err(VoteError::AlreadyExists)
    );
    let replacement = Poll { candidate_amount: 4, ..poll };
    assert_eq!(
        store.update(derive_poll_key(3), Record::Poll(replacement)),
        Ok(())
    );
    match store.get(&derive_poll_key(3)) {
        Some(Record::Poll(p)) => assert_eq!(p.candidate_amount, 4),
        _ => panic!("poll record expected at poll key 3"),
    }
}

#[test]
fn empty_ledger_resolves_nothing() {
    let ledger = VotingLedger::new();
    assert!(ledger.get_poll(0).is_none());
    assert!(ledger.get_candidate(0, &b"".to_vec()).is_none());
}

#[test]
fn candidate_record_matches_inputs() {
    let s = signer();
    let mut ledger = VotingLedger::new();
    assert_eq!(ledger.initialize_poll(&s, 1, b"pets".to_vec(), 0, 10), Ok(()));
    assert_eq!(ledger.initialize_candidate(&s, 1, b"".to_vec()), Ok(()));
    let unnamed = ledger.get_candidate(1, &b"".to_vec()).unwrap();
    assert_eq!(unnamed.candidate_name, Vec::<u8>::new());
    assert_eq!(unnamed.candidate_votes, 0);
    let stored = Candidate {
        candidate_name: b"".to_vec(),
        candidate_votes: 0,
    };
    assert_eq!(unnamed, &stored);
    assert!(matches!(
        derive_candidate_key(1, b"".to_vec()),
        Ok(StorageKey::Candidate { .. })
    ));
}
