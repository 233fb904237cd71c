use vstd::prelude::*;
use crate::errors::VoteError;
use crate::keys::{KeyView, derive_poll_key, derive_candidate_key};
use crate::records::{
    Poll, Candidate, Record, PollView, CandidateView, RecordView, clone_bytes,
    MAX_DESCRIPTION_BYTES, MAX_CANDIDATE_NAME_BYTES,
};
use crate::store::KeyedStore;

verus! {

/// An authenticated caller, as the host hands it to the core. The host
/// performs its capability check (signature, funding) before an operation is
/// reached; the core itself never inspects the signer.
pub struct Signer {
    pub signer_id: u64,
}

/// The derived key of the poll with the given identifier.
pub open spec fn poll_key(poll_id: u64) -> KeyView {
    KeyView::Poll { poll_id }
}

/// The derived key of the candidate with the given name under the given poll.
pub open spec fn candidate_key(poll_id: u64, name: Seq<u8>) -> KeyView {
    KeyView::Candidate { poll_id, candidate_name: name }
}

/// Whether a poll record exists at the poll's derived key.
pub open spec fn has_poll(m: Map<KeyView, RecordView>, poll_id: u64) -> bool {
    m.contains_key(poll_key(poll_id))
}

/// The poll record stored for the given identifier (meaningful when
/// `has_poll` holds and the ledger invariant ties the key to a poll record).
pub open spec fn poll_record_of(m: Map<KeyView, RecordView>, poll_id: u64) -> PollView {
    m[poll_key(poll_id)]->Poll_0
}

/// Whether a candidate record exists at the candidate's derived key.
pub open spec fn has_candidate(m: Map<KeyView, RecordView>, poll_id: u64, name: Seq<u8>) -> bool {
    m.contains_key(candidate_key(poll_id, name))
}

/// The candidate record stored for the given poll identifier and name.
pub open spec fn candidate_record_of(
    m: Map<KeyView, RecordView>,
    poll_id: u64,
    name: Seq<u8>,
) -> CandidateView {
    m[candidate_key(poll_id, name)]->Candidate_0
}

/// Whether the record stored at a key is of the kind the key addresses,
/// carries the identifying fields the key was derived from, and respects the
/// byte-length bounds of its text field.
pub open spec fn record_matches_key(k: KeyView, r: RecordView) -> bool {
    match k {
        KeyView::Poll { poll_id } => r matches RecordView::Poll(p) && p.poll_id == poll_id
            && p.description.len() <= MAX_DESCRIPTION_BYTES,
        KeyView::Candidate { poll_id, candidate_name } => r matches RecordView::Candidate(c)
            && c.candidate_name == candidate_name && candidate_name.len()
            <= MAX_CANDIDATE_NAME_BYTES,
    }
}

/// Every stored record matches the key it is stored under.
pub open spec fn records_match_keys(m: Map<KeyView, RecordView>) -> bool {
    forall|k: KeyView| #[trigger] m.contains_key(k) ==> record_matches_key(k, m[k])
}

/// Every candidate's parent poll exists: candidates are only ever created
/// under an existing poll, and polls are never deleted.
pub open spec fn parents_exist(m: Map<KeyView, RecordView>) -> bool {
    forall|poll_id: u64, name: Seq<u8>|
        #[trigger] m.contains_key(candidate_key(poll_id, name)) ==> m.contains_key(
            poll_key(poll_id),
        )
}

/// Whether a key addresses a candidate under the given poll.
pub open spec fn is_candidate_key_for(k: KeyView, poll_id: u64) -> bool {
    k matches KeyView::Candidate { poll_id: pid, candidate_name } && pid == poll_id
}

/// The set of occupied candidate keys under the given poll.
pub open spec fn candidate_keys_for(m: Map<KeyView, RecordView>, poll_id: u64) -> Set<KeyView> {
    m.dom().filter(|k: KeyView| is_candidate_key_for(k, poll_id))
}

/// How many candidate records exist under the given poll.
pub open spec fn candidate_count(m: Map<KeyView, RecordView>, poll_id: u64) -> nat {
    candidate_keys_for(m, poll_id).len()
}

/// Every poll's `candidate_amount` equals the number of candidate records
/// whose key embeds that poll's identifier.
pub open spec fn counts_match(m: Map<KeyView, RecordView>) -> bool {
    forall|poll_id: u64|
        #[trigger] m.contains_key(poll_key(poll_id)) ==> (m[poll_key(poll_id)] matches
            RecordView::Poll(p) ==> p.candidate_amount == candidate_count(m, poll_id))
}

/// The ledger invariant: well-shaped records, no orphaned candidates, and
/// candidate counters that agree with the store's contents.
pub open spec fn ledger_inv(m: Map<KeyView, RecordView>) -> bool {
    records_match_keys(m) && parents_exist(m) && counts_match(m)
}

/// The state transition of poll initialization: validates the description
/// bound, then writes a fresh poll record (counter 0, supplied fields
/// verbatim) create-exclusively at the poll's derived key. Returns the new
/// ledger contents and the operation's result.
pub open spec fn spec_initialize_poll(
    m: Map<KeyView, RecordView>,
    poll_id: u64,
    description: Seq<u8>,
    poll_start: u64,
    poll_end: u64,
) -> (Map<KeyView, RecordView>, Result<(), VoteError>) {
    if description.len() > MAX_DESCRIPTION_BYTES {
        (m, Err(VoteError::InvalidArgument))
    } else if m.contains_key(poll_key(poll_id)) {
        (m, Err(VoteError::AlreadyExists))
    } else {
        let record = PollView {
            poll_id,
            description,
            poll_start,
            poll_end,
            candidate_amount: 0,
        };
        (m.insert(poll_key(poll_id), RecordView::Poll(record)), Ok(()))
    }
}

/// The state transition of candidate initialization: validates the name
/// bound, requires the parent poll to exist, writes a fresh candidate record
/// (counter 0) create-exclusively at the candidate's derived key, and — in
/// the same atomic step — increments the parent poll's candidate counter.
pub open spec fn spec_initialize_candidate(
    m: Map<KeyView, RecordView>,
    poll_id: u64,
    name: Seq<u8>,
) -> (Map<KeyView, RecordView>, Result<(), VoteError>) {
    if name.len() > MAX_CANDIDATE_NAME_BYTES {
        (m, Err(VoteError::InvalidArgument))
    } else if !m.contains_key(poll_key(poll_id)) {
        (m, Err(VoteError::NotFound))
    } else if m.contains_key(candidate_key(poll_id, name)) {
        (m, Err(VoteError::AlreadyExists))
    } else {
        let p = poll_record_of(m, poll_id);
        let new_poll = PollView {
            poll_id: p.poll_id,
            description: p.description,
            poll_start: p.poll_start,
            poll_end: p.poll_end,
            candidate_amount: (p.candidate_amount + 1) as u64,
        };
        let new_candidate = CandidateView { candidate_name: name, candidate_votes: 0 };
        (
            m.insert(poll_key(poll_id), RecordView::Poll(new_poll)).insert(
                candidate_key(poll_id, name),
                RecordView::Candidate(new_candidate),
            ),
            Ok(()),
        )
    }
}

/// The state transition of voting: validates the name bound, requires both
/// the poll and the candidate to exist at their derived keys, and increments
/// the candidate's vote counter by exactly 1. No time-window check and no
/// double-vote protection: every successful call counts.
pub open spec fn spec_vote(
    m: Map<KeyView, RecordView>,
    poll_id: u64,
    name: Seq<u8>,
) -> (Map<KeyView, RecordView>, Result<(), VoteError>) {
    if name.len() > MAX_CANDIDATE_NAME_BYTES {
        (m, Err(VoteError::InvalidArgument))
    } else if !m.contains_key(poll_key(poll_id)) {
        (m, Err(VoteError::NotFound))
    } else if !m.contains_key(candidate_key(poll_id, name)) {
        (m, Err(VoteError::NotFound))
    } else {
        let c = candidate_record_of(m, poll_id, name);
        let new_candidate = CandidateView {
            candidate_name: c.candidate_name,
            candidate_votes: (c.candidate_votes + 1) as u64,
        };
        (m.insert(candidate_key(poll_id, name), RecordView::Candidate(new_candidate)), Ok(()))
    }
}

/// The machine limit on one more vote: if the candidate exists, its counter
/// is not yet saturated, so an increment by exactly 1 is representable.
pub open spec fn vote_counter_has_room(
    m: Map<KeyView, RecordView>,
    poll_id: u64,
    name: Seq<u8>,
) -> bool {
    has_candidate(m, poll_id, name) ==> candidate_record_of(
        m,
        poll_id,
        name,
    ).candidate_votes < u64::MAX
}

/// The voting ledger: the keyed store together with the invariant the three
/// operations preserve. Each operation resolves derived keys, checks
/// presence, and commits its whole state transition or none of it.
pub struct VotingLedger {
    store: KeyedStore,
}

impl View for VotingLedger {
    type V = Map<KeyView, RecordView>;

    closed spec fn view(&self) -> Map<KeyView, RecordView> {
        self.store@
    }
}

/// Inserting a poll record leaves the ledger invariant intact: the new
/// record matches its key, it orphans no candidate, and its counter 0 agrees
/// with the absence of candidates under a poll that did not exist before.
proof fn lemma_create_poll_preserves_inv(
    m: Map<KeyView, RecordView>,
    poll_id: u64,
    description: Seq<u8>,
    poll_start: u64,
    poll_end: u64,
)
    requires
        ledger_inv(m),
        description.len() <= MAX_DESCRIPTION_BYTES,
        !m.contains_key(poll_key(poll_id)),
    ensures
        ledger_inv(spec_initialize_poll(m, poll_id, description, poll_start, poll_end).0),
{
    let m2 = spec_initialize_poll(m, poll_id, description, poll_start, poll_end).0;
    assert forall|k: KeyView| #[trigger] m2.contains_key(k) implies record_matches_key(
        k,
        m2[k],
    ) by {
        if k != poll_key(poll_id) {
            assert(m.contains_key(k));
        }
    }
    assert forall|pid: u64, name: Seq<u8>| #[trigger]
        m2.contains_key(candidate_key(pid, name)) implies m2.contains_key(poll_key(pid)) by {
        assert(m.contains_key(candidate_key(pid, name)));
    }
    assert forall|pid: u64| #[trigger] m2.contains_key(poll_key(pid)) implies (m2[poll_key(pid)]
        matches RecordView::Poll(p) ==> p.candidate_amount == candidate_count(m2, pid)) by {
        if pid == poll_id {
            assert forall|k: KeyView| !(#[trigger] candidate_keys_for(m2, pid).contains(k)) by {
                if candidate_keys_for(m2, pid).contains(k) {
                    match k {
                        KeyView::Candidate { poll_id: p2, candidate_name: n2 } => {
                            assert(m.contains_key(candidate_key(p2, n2)));
                            assert(m.contains_key(poll_key(pid)));
                        },
                        KeyView::Poll { .. } => {},
                    }
                }
            }
            assert(candidate_keys_for(m2, pid) =~= Set::<KeyView>::empty());
        } else {
            assert(m.contains_key(poll_key(pid)));
            assert(m2[poll_key(pid)] == m[poll_key(pid)]);
            assert(candidate_keys_for(m2, pid) =~= candidate_keys_for(m, pid));
        }
    }
}

/// In a well-formed ledger a poll's counter has room for one more
/// candidate: the counter equals the number of candidate keys, and those,
/// together with the poll's own key, fit in the store.
proof fn lemma_candidate_amount_has_room(m: Map<KeyView, RecordView>, poll_id: u64)
    requires
        ledger_inv(m),
        m.dom().finite(),
        m.dom().len() <= usize::MAX,
        m.contains_key(poll_key(poll_id)),
    ensures
        poll_record_of(m, poll_id).candidate_amount < u64::MAX,
{
    let cks = candidate_keys_for(m, poll_id);
    let rest = m.dom().remove(poll_key(poll_id));
    assert forall|k: KeyView| cks.contains(k) implies rest.contains(k) by {
        assert(m.dom().contains(k));
        assert(k != poll_key(poll_id));
    }
    vstd::set_lib::lemma_len_subset(cks, rest);
    assert(poll_record_of(m, poll_id).candidate_amount == candidate_count(m, poll_id));
    assert(candidate_count(m, poll_id) < m.dom().len());
}

/// Registering a fresh candidate under an existing poll and stepping that
/// poll's counter by 1 leaves the ledger invariant intact.
proof fn lemma_register_candidate_preserves_inv(
    m: Map<KeyView, RecordView>,
    poll_id: u64,
    name: Seq<u8>,
)
    requires
        ledger_inv(m),
        m.dom().finite(),
        name.len() <= MAX_CANDIDATE_NAME_BYTES,
        m.contains_key(poll_key(poll_id)),
        !m.contains_key(candidate_key(poll_id, name)),
        poll_record_of(m, poll_id).candidate_amount < u64::MAX,
    ensures
        ledger_inv(spec_initialize_candidate(m, poll_id, name).0),
{
    let m2 = spec_initialize_candidate(m, poll_id, name).0;
    let ck = candidate_key(poll_id, name);
    assert forall|k: KeyView| #[trigger] m2.contains_key(k) implies record_matches_key(
        k,
        m2[k],
    ) by {
        if k != ck && k != poll_key(poll_id) {
            assert(m.contains_key(k));
        }
    }
    assert forall|pid: u64, n: Seq<u8>| #[trigger]
        m2.contains_key(candidate_key(pid, n)) implies m2.contains_key(poll_key(pid)) by {
        if candidate_key(pid, n) != ck {
            assert(m.contains_key(candidate_key(pid, n)));
        }
    }
    assert forall|pid: u64| #[trigger] m2.contains_key(poll_key(pid)) implies (m2[poll_key(pid)]
        matches RecordView::Poll(p) ==> p.candidate_amount == candidate_count(m2, pid)) by {
        assert(m.contains_key(poll_key(pid)));
        if pid == poll_id {
            assert(candidate_keys_for(m2, pid) =~= candidate_keys_for(m, pid).insert(ck));
            vstd::set_lib::lemma_len_subset(candidate_keys_for(m, pid), m.dom());
            assert(!candidate_keys_for(m, pid).contains(ck));
        } else {
            assert(m2[poll_key(pid)] == m[poll_key(pid)]);
            assert(candidate_keys_for(m2, pid) =~= candidate_keys_for(m, pid));
        }
    }
}

/// Overwriting a candidate's record with one that differs only in its vote
/// counter leaves the ledger invariant intact: no key appears or
/// disappears, and no poll record changes.
proof fn lemma_vote_preserves_inv(m: Map<KeyView, RecordView>, poll_id: u64, name: Seq<u8>)
    requires
        ledger_inv(m),
        m.contains_key(poll_key(poll_id)),
        m.contains_key(candidate_key(poll_id, name)),
    ensures
        ledger_inv(spec_vote(m, poll_id, name).0),
{
    let m2 = spec_vote(m, poll_id, name).0;
    let ck = candidate_key(poll_id, name);
    assert(record_matches_key(ck, m[ck]));
    assert forall|k: KeyView| #[trigger] m2.contains_key(k) implies record_matches_key(
        k,
        m2[k],
    ) by {
        if k != ck {
            assert(m.contains_key(k));
        }
    }
    assert forall|pid: u64, n: Seq<u8>| #[trigger]
        m2.contains_key(candidate_key(pid, n)) implies m2.contains_key(poll_key(pid)) by {
        if candidate_key(pid, n) != ck {
            assert(m.contains_key(candidate_key(pid, n)));
        }
    }
    assert forall|pid: u64| #[trigger] m2.contains_key(poll_key(pid)) implies (m2[poll_key(pid)]
        matches RecordView::Poll(p) ==> p.candidate_amount == candidate_count(m2, pid)) by {
        assert(m.contains_key(poll_key(pid)));
        assert(m2[poll_key(pid)] == m[poll_key(pid)]);
        assert(candidate_keys_for(m2, pid) =~= candidate_keys_for(m, pid));
    }
}

impl VotingLedger {
    /// Unique derived keys and the ledger invariant over the contents.
    pub closed spec fn wf(self) -> bool {
        self.store.wf() && ledger_inv(self@)
    }

    /// A well-formed ledger's contents satisfy the ledger invariant; callers
    /// may combine this with the pure state-transition laws.
    pub proof fn lemma_wf_inv(&self)
        requires
            self.wf(),
        ensures
            ledger_inv(self@),
    {
    }

    /// Creates an empty ledger: no polls, no candidates.
    pub fn new() -> (s: Self)
        ensures
            s.wf(),
            s@ == Map::<KeyView, RecordView>::empty(),
    {
        VotingLedger { store: KeyedStore::empty() }
    }

    /// Creates the poll with the given identifier, exactly once.
    ///
    /// Rejects a description over [`MAX_DESCRIPTION_BYTES`] bytes with
    /// `InvalidArgument` and an occupied poll key with `AlreadyExists`; both
    /// leave the ledger unchanged. Otherwise writes a poll record holding
    /// the supplied fields verbatim and a candidate counter of 0.
    pub fn initialize_poll(
        &mut self,
        _caller: &Signer,
        poll_id: u64,
        description: Vec<u8>,
        poll_start: u64,
        poll_end: u64,
    ) -> (r: Result<(), VoteError>)
        requires
            old(self).wf(),
        ensures
            final(self).wf(),
            final(self)@ == spec_initialize_poll(
                old(self)@,
                poll_id,
                description@,
                poll_start,
                poll_end,
            ).0,
            r == spec_initialize_poll(old(self)@, poll_id, description@, poll_start, poll_end).1,
    {
        if description.len() > MAX_DESCRIPTION_BYTES {
            return Err(VoteError::InvalidArgument);
        }
        let ghost m0 = self@;
        let ghost desc = description@;
        let key = derive_poll_key(poll_id);
        let record = Record::Poll(
            Poll { poll_id, description, poll_start, poll_end, candidate_amount: 0 },
        );
        match self.store.create(key, record) {
            Err(e) => Err(e),
            Ok(()) => {
                proof {
                    lemma_create_poll_preserves_inv(m0, poll_id, desc, poll_start, poll_end);
                }
                Ok(())
            },
        }
    }

    /// Registers the candidate with the given name under an existing poll,
    /// exactly once, and steps that poll's candidate counter by 1 in the
    /// same atomic transition.
    ///
    /// Rejects a name over [`MAX_CANDIDATE_NAME_BYTES`] bytes with
    /// `InvalidArgument`, a missing parent poll with `NotFound`, and an
    /// occupied candidate key with `AlreadyExists`; all three leave the
    /// ledger unchanged. Otherwise the new candidate starts at 0 votes.
    pub fn initialize_candidate(
        &mut self,
        _caller: &Signer,
        poll_id: u64,
        candidate_name: Vec<u8>,
    ) -> (r: Result<(), VoteError>)
        requires
            old(self).wf(),
        ensures
            final(self).wf(),
            final(self)@ == spec_initialize_candidate(old(self)@, poll_id, candidate_name@).0,
            r == spec_initialize_candidate(old(self)@, poll_id, candidate_name@).1,
    {
        if candidate_name.len() > MAX_CANDIDATE_NAME_BYTES {
            return Err(VoteError::InvalidArgument);
        }
        let ghost m0 = self@;
        let ghost name = candidate_name@;
        let poll_key_owned = derive_poll_key(poll_id);
        let updated_poll = match self.store.get(&poll_key_owned) {
            None => {
                return Err(VoteError::NotFound);
            },
            Some(record) => match record {
                Record::Poll(p) => {
                    proof {
                        self.store.lemma_dom_bounded();
                        lemma_candidate_amount_has_room(m0, poll_id);
                    }
                    Poll {
                        poll_id: p.poll_id,
                        description: clone_bytes(&p.description),
                        poll_start: p.poll_start,
                        poll_end: p.poll_end,
                        candidate_amount: p.candidate_amount + 1,
                    }
                },
                Record::Candidate(_) => {
                    proof {
                        assert(record_matches_key(poll_key(poll_id), m0[poll_key(poll_id)]));
                        assert(false);
                    }
                    return Err(VoteError::NotFound);
                },
            },
        };
        let name_copy = clone_bytes(&candidate_name);
        let cand_key = match derive_candidate_key(poll_id, candidate_name) {
            Ok(k) => k,
            Err(_) => {
                proof {
                    assert(false);
                }
                return Err(VoteError::InvalidArgument);
            },
        };
        let cand_record = Record::Candidate(
            Candidate { candidate_name: name_copy, candidate_votes: 0 },
        );
        match self.store.create(cand_key, cand_record) {
            Err(e) => Err(e),
            Ok(()) => {
                let ghost m1 = self@;
                match self.store.update(poll_key_owned, Record::Poll(updated_poll)) {
                    Ok(()) => {
                        proof {
                            lemma_register_candidate_preserves_inv(m0, poll_id, name);
                            assert(self@ =~= spec_initialize_candidate(m0, poll_id, name).0);
                        }
                        Ok(())
                    },
                    Err(e) => {
                        proof {
                            assert(m1.contains_key(poll_key(poll_id)));
                            assert(false);
                        }
                        Err(e)
                    },
                }
            },
        }
    }

    /// Records one vote for an existing candidate of an existing poll:
    /// increments that candidate's counter by exactly 1.
    ///
    /// Rejects a name over [`MAX_CANDIDATE_NAME_BYTES`] bytes with
    /// `InvalidArgument` and a missing poll or candidate with `NotFound`;
    /// both leave the ledger unchanged. The counter being short of its
    /// machine maximum is required, since a saturated `u64` cannot count one
    /// more vote. No time-window check and no double-vote protection: every
    /// successful call counts.
    pub fn vote(
        &mut self,
        _caller: &Signer,
        poll_id: u64,
        candidate_name: Vec<u8>,
    ) -> (r: Result<(), VoteError>)
        requires
            old(self).wf(),
            vote_counter_has_room(old(self)@, poll_id, candidate_name@),
        ensures
            final(self).wf(),
            final(self)@ == spec_vote(old(self)@, poll_id, candidate_name@).0,
            r == spec_vote(old(self)@, poll_id, candidate_name@).1,
    {
        if candidate_name.len() > MAX_CANDIDATE_NAME_BYTES {
            return Err(VoteError::InvalidArgument);
        }
        let ghost m0 = self@;
        let ghost name = candidate_name@;
        let poll_key_owned = derive_poll_key(poll_id);
        if self.store.get(&poll_key_owned).is_none() {
            return Err(VoteError::NotFound);
        }
        let cand_key = match derive_candidate_key(poll_id, candidate_name) {
            Ok(k) => k,
            Err(_) => {
                proof {
                    assert(false);
                }
                return Err(VoteError::InvalidArgument);
            },
        };
        let updated_candidate = match self.store.get(&cand_key) {
            None => {
                return Err(VoteError::NotFound);
            },
            Some(record) => match record {
                Record::Candidate(c) => Candidate {
                    candidate_name: clone_bytes(&c.candidate_name),
                    candidate_votes: c.candidate_votes + 1,
                },
                Record::Poll(_) => {
                    proof {
                        assert(record_matches_key(candidate_key(poll_id, name), m0[candidate_key(
                            poll_id,
                            name,
                        )]));
                        assert(false);
                    }
                    return Err(VoteError::NotFound);
                },
            },
        };
        match self.store.update(cand_key, Record::Candidate(updated_candidate)) {
            Ok(()) => {
                proof {
                    lemma_vote_preserves_inv(m0, poll_id, name);
                }
                Ok(())
            },
            Err(e) => {
                proof {
                    assert(false);
                }
                Err(e)
            },
        }
    }

    /// Reads the poll stored for the given identifier: `Some` exactly when
    /// the poll exists.
    pub fn get_poll(&self, poll_id: u64) -> (r: Option<&Poll>)
        requires
            self.wf(),
        ensures
            match r {
                Some(p) => has_poll(self@, poll_id) && p@ == poll_record_of(self@, poll_id),
                None => !has_poll(self@, poll_id),
            },
    {
        let key = derive_poll_key(poll_id);
        match self.store.get(&key) {
            None => None,
            Some(record) => match record {
                Record::Poll(p) => Some(p),
                Record::Candidate(_) => {
                    proof {
                        assert(record_matches_key(poll_key(poll_id), self@[poll_key(poll_id)]));
                        assert(false);
                    }
                    None
                },
            },
        }
    }

    /// Reads the candidate stored for the given poll identifier and name:
    /// `Some` exactly when the candidate exists. A name over the byte bound
    /// addresses nothing, so the answer is `None`.
    pub fn get_candidate(&self, poll_id: u64, candidate_name: &Vec<u8>) -> (r: Option<&Candidate>)
        requires
            self.wf(),
        ensures
            match r {
                Some(c) => has_candidate(self@, poll_id, candidate_name@) && c@
                    == candidate_record_of(self@, poll_id, candidate_name@),
                None => !has_candidate(self@, poll_id, candidate_name@),
            },
    {
        let ghost name = candidate_name@;
        match derive_candidate_key(poll_id, clone_bytes(candidate_name)) {
            Err(_) => {
                proof {
                    if has_candidate(self@, poll_id, name) {
                        assert(record_matches_key(candidate_key(poll_id, name), self@[candidate_key(
                            poll_id,
                            name,
                        )]));
                    }
                }
                None
            },
            Ok(key) => match self.store.get(&key) {
                None => None,
                Some(record) => match record {
                    Record::Candidate(c) => Some(c),
                    Record::Poll(_) => {
                        proof {
                            assert(record_matches_key(candidate_key(poll_id, name), self@[
                                candidate_key(poll_id, name)]));
                            assert(false);
                        }
                        None
                    },
                },
            },
        }
    }
}

} // verus!
