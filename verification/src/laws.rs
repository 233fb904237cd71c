use vstd::prelude::*;
use crate::errors::VoteError;
use crate::keys::{KeyView, lemma_candidate_keys_injective};
use crate::records::{PollView, CandidateView, RecordView, MAX_DESCRIPTION_BYTES,
    MAX_CANDIDATE_NAME_BYTES};
use crate::ledger::{
    poll_key, candidate_key, has_poll, has_candidate, poll_record_of, candidate_record_of,
    ledger_inv, vote_counter_has_room, spec_initialize_poll, spec_initialize_candidate, spec_vote,
};

verus! {

/// A poll is created exactly once. For any ledger contents and any free poll
/// identifier, the first initialization succeeds and stores the supplied
/// fields verbatim with a candidate counter of 0; initializing the same
/// identifier again fails with `AlreadyExists`, changes nothing, and leaves
/// the first call's record in place.
pub proof fn lemma_poll_created_exactly_once(
    m: Map<KeyView, RecordView>,
    poll_id: u64,
    description: Seq<u8>,
    poll_start: u64,
    poll_end: u64,
    description2: Seq<u8>,
    poll_start2: u64,
    poll_end2: u64,
)
    requires
        description.len() <= MAX_DESCRIPTION_BYTES,
        description2.len() <= MAX_DESCRIPTION_BYTES,
        !has_poll(m, poll_id),
    ensures
        ({
            let (m1, r1) = spec_initialize_poll(m, poll_id, description, poll_start, poll_end);
            let (m2, r2) = spec_initialize_poll(m1, poll_id, description2, poll_start2, poll_end2);
            r1 == Ok::<(), VoteError>(()) && has_poll(m1, poll_id) && poll_record_of(m1, poll_id)
                == (PollView { poll_id, description, poll_start, poll_end, candidate_amount: 0 })
                && r2 == Err::<(), VoteError>(VoteError::AlreadyExists) && m2 == m1
                && poll_record_of(m2, poll_id) == poll_record_of(m1, poll_id)
        }),
{
}

/// Candidate linkage. For any ledger contents satisfying the invariant, a
/// fresh candidate name under an existing poll registers exactly once: the
/// candidate is created with 0 votes, the poll's candidate counter steps by
/// exactly 1, and registering the same name again fails with
/// `AlreadyExists`, changing neither the ledger nor the counter.
pub proof fn lemma_candidate_registered_exactly_once(
    m: Map<KeyView, RecordView>,
    poll_id: u64,
    name: Seq<u8>,
)
    requires
        ledger_inv(m),
        name.len() <= MAX_CANDIDATE_NAME_BYTES,
        has_poll(m, poll_id),
        !has_candidate(m, poll_id, name),
        poll_record_of(m, poll_id).candidate_amount < u64::MAX,
    ensures
        ({
            let (m1, r1) = spec_initialize_candidate(m, poll_id, name);
            let (m2, r2) = spec_initialize_candidate(m1, poll_id, name);
            r1 == Ok::<(), VoteError>(()) && has_candidate(m1, poll_id, name)
                && candidate_record_of(m1, poll_id, name) == (CandidateView {
                candidate_name: name,
                candidate_votes: 0,
            }) && poll_record_of(m1, poll_id).candidate_amount == poll_record_of(
                m,
                poll_id,
            ).candidate_amount + 1 && r2 == Err::<(), VoteError>(VoteError::AlreadyExists) && m2
                == m1 && poll_record_of(m2, poll_id) == poll_record_of(m1, poll_id)
        }),
{
    assert(poll_key(poll_id) != candidate_key(poll_id, name));
}

/// Missing parent. Registering a candidate under a poll that was never
/// initialized fails with `NotFound`, and no candidate record is created:
/// the ledger is left exactly as it was.
pub proof fn lemma_missing_parent_rejected(
    m: Map<KeyView, RecordView>,
    poll_id: u64,
    name: Seq<u8>,
)
    requires
        ledger_inv(m),
        name.len() <= MAX_CANDIDATE_NAME_BYTES,
        !has_poll(m, poll_id),
    ensures
        spec_initialize_candidate(m, poll_id, name).0 == m,
        spec_initialize_candidate(m, poll_id, name).1 == Err::<(), VoteError>(VoteError::NotFound),
        !has_candidate(m, poll_id, name),
{
    if has_candidate(m, poll_id, name) {
        assert(m.contains_key(candidate_key(poll_id, name)));
    }
}

/// Field bounds. A description over the byte bound is rejected with
/// `InvalidArgument` and nothing is written; one at the bound (or below) is
/// accepted at a free poll key and stored verbatim.
pub proof fn lemma_description_bounds(
    m: Map<KeyView, RecordView>,
    poll_id: u64,
    description: Seq<u8>,
    poll_start: u64,
    poll_end: u64,
)
    requires
        !has_poll(m, poll_id),
    ensures
        description.len() > MAX_DESCRIPTION_BYTES ==> spec_initialize_poll(
            m,
            poll_id,
            description,
            poll_start,
            poll_end,
        ) == (m, Err::<(), VoteError>(VoteError::InvalidArgument)),
        description.len() <= MAX_DESCRIPTION_BYTES ==> ({
            let (m1, r1) = spec_initialize_poll(m, poll_id, description, poll_start, poll_end);
            r1 == Ok::<(), VoteError>(()) && poll_record_of(m1, poll_id).description == description
        }),
{
}

/// Applies the vote transition `n` times in sequence for one candidate.
pub open spec fn spec_vote_n(
    m: Map<KeyView, RecordView>,
    poll_id: u64,
    name: Seq<u8>,
    n: nat,
) -> Map<KeyView, RecordView>
    decreases n,
{
    if n == 0 {
        m
    } else {
        spec_vote(spec_vote_n(m, poll_id, name, (n - 1) as nat), poll_id, name).0
    }
}

/// One vote moves a counter by exactly 1 and never down. While the counter
/// has room, a successful vote increments the candidate's counter by exactly
/// 1 — so it never decreases — and a failed vote leaves the ledger
/// unchanged.
pub proof fn lemma_vote_monotonic(m: Map<KeyView, RecordView>, poll_id: u64, name: Seq<u8>)
    requires
        vote_counter_has_room(m, poll_id, name),
    ensures
        ({
            let (m1, r) = spec_vote(m, poll_id, name);
            (r == Ok::<(), VoteError>(()) ==> has_candidate(m, poll_id, name)
                && candidate_record_of(m1, poll_id, name).candidate_votes == candidate_record_of(
                m,
                poll_id,
                name,
            ).candidate_votes + 1) && (has_candidate(m, poll_id, name) ==> has_candidate(
                m1,
                poll_id,
                name,
            ) && candidate_record_of(m1, poll_id, name).candidate_votes >= candidate_record_of(
                m,
                poll_id,
                name,
            ).candidate_votes) && (r != Ok::<(), VoteError>(()) ==> m1 == m)
        }),
{
}

/// Vote monotonicity over a whole sequence: starting from any ledger whose
/// candidate counter has room for `n` more votes, `n` sequential votes for
/// one existing candidate all succeed and leave its counter exactly `n`
/// higher, with the candidate's name untouched.
pub proof fn lemma_sequential_votes_count(
    m: Map<KeyView, RecordView>,
    poll_id: u64,
    name: Seq<u8>,
    n: nat,
)
    requires
        name.len() <= MAX_CANDIDATE_NAME_BYTES,
        has_poll(m, poll_id),
        has_candidate(m, poll_id, name),
        candidate_record_of(m, poll_id, name).candidate_votes + n <= u64::MAX,
    ensures
        ({
            let mn = spec_vote_n(m, poll_id, name, n);
            has_poll(mn, poll_id) && has_candidate(mn, poll_id, name) && candidate_record_of(
                mn,
                poll_id,
                name,
            ).candidate_votes == candidate_record_of(m, poll_id, name).candidate_votes + n
                && candidate_record_of(mn, poll_id, name).candidate_name == candidate_record_of(
                m,
                poll_id,
                name,
            ).candidate_name && (forall|k: nat|
                k < n ==> spec_vote(#[trigger] spec_vote_n(m, poll_id, name, k), poll_id, name).1
                    == Ok::<(), VoteError>(()))
        }),
    decreases n,
{
    if n > 0 {
        lemma_sequential_votes_count(m, poll_id, name, (n - 1) as nat);
        let m_prev = spec_vote_n(m, poll_id, name, (n - 1) as nat);
        assert(poll_key(poll_id) != candidate_key(poll_id, name));
        assert(spec_vote_n(m, poll_id, name, n) == spec_vote(m_prev, poll_id, name).0);
        assert forall|k: nat| k < n implies spec_vote(
            #[trigger] spec_vote_n(m, poll_id, name, k),
            poll_id,
            name,
        ).1 == Ok::<(), VoteError>(()) by {
            if k == n - 1 {
                assert(spec_vote(m_prev, poll_id, name).1 == Ok::<(), VoteError>(()));
            }
        }
    }
}

/// Independence across polls and names. Voting for one candidate neither
/// creates, removes, nor alters any differently addressed candidate — in
/// particular, equally named candidates under different polls keep
/// independent counters — and registering a candidate leaves every other
/// candidate's record untouched as well.
pub proof fn lemma_candidates_independent(
    m: Map<KeyView, RecordView>,
    poll_a: u64,
    name_a: Seq<u8>,
    poll_b: u64,
    name_b: Seq<u8>,
)
    requires
        poll_a != poll_b || name_a != name_b,
    ensures
        ({
            let m1 = spec_vote(m, poll_a, name_a).0;
            has_candidate(m1, poll_b, name_b) == has_candidate(m, poll_b, name_b)
                && (has_candidate(m, poll_b, name_b) ==> candidate_record_of(m1, poll_b, name_b)
                == candidate_record_of(m, poll_b, name_b))
        }),
        ({
            let m1 = spec_initialize_candidate(m, poll_a, name_a).0;
            has_candidate(m1, poll_b, name_b) == has_candidate(m, poll_b, name_b)
                && (has_candidate(m, poll_b, name_b) ==> candidate_record_of(m1, poll_b, name_b)
                == candidate_record_of(m, poll_b, name_b))
        }),
{
    lemma_candidate_keys_injective(poll_a, name_a, poll_b, name_b);
    assert(poll_key(poll_a) != candidate_key(poll_b, name_b));
}

} // verus!
