use vstd::prelude::*;

verus! {

/// Maximum byte length of a poll description.
pub const MAX_DESCRIPTION_BYTES: usize = 280;

/// Maximum byte length of a candidate name.
pub const MAX_CANDIDATE_NAME_BYTES: usize = 32;

/// One voting event. Written once at its derived key; only
/// `candidate_amount` is ever mutated afterwards, by candidate registration.
#[derive(Clone, Debug, PartialEq, Eq)]
pub struct Poll {
    /// Caller-chosen identifier; the poll's derived key is a function of it.
    pub poll_id: u64,
    /// Human-readable label, at most [`MAX_DESCRIPTION_BYTES`] bytes.
    pub description: Vec<u8>,
    /// Start of the poll's time window, in host clock units. Stored, never
    /// checked against votes.
    pub poll_start: u64,
    /// End of the poll's time window, in host clock units. Stored, never
    /// checked against votes.
    pub poll_end: u64,
    /// Running count of candidates registered under this poll.
    pub candidate_amount: u64,
}

/// The mathematical value of a [`Poll`].
#[verifier::ext_equal]
pub ghost struct PollView {
    pub poll_id: u64,
    pub description: Seq<u8>,
    pub poll_start: u64,
    pub poll_end: u64,
    pub candidate_amount: u64,
}

impl View for Poll {
    type V = PollView;

    open spec fn view(&self) -> PollView {
        PollView {
            poll_id: self.poll_id,
            description: self.description@,
            poll_start: self.poll_start,
            poll_end: self.poll_end,
            candidate_amount: self.candidate_amount,
        }
    }
}

/// One candidate within exactly one poll. The link to the parent poll is not
/// a stored field: it is recovered from the candidate's derived key, which
/// embeds the poll identifier.
#[derive(Clone, Debug, PartialEq, Eq)]
pub struct Candidate {
    /// Chosen at creation, at most [`MAX_CANDIDATE_NAME_BYTES`] bytes; part
    /// of the candidate's derived key.
    pub candidate_name: Vec<u8>,
    /// Vote counter: starts at 0, incremented by exactly 1 per accepted vote.
    pub candidate_votes: u64,
}

/// The mathematical value of a [`Candidate`].
#[verifier::ext_equal]
pub ghost struct CandidateView {
    pub candidate_name: Seq<u8>,
    pub candidate_votes: u64,
}

impl View for Candidate {
    type V = CandidateView;

    open spec fn view(&self) -> CandidateView {
        CandidateView {
            candidate_name: self.candidate_name@,
            candidate_votes: self.candidate_votes,
        }
    }
}

/// What a storage key can hold: either kind of record.
#[derive(Clone, Debug, PartialEq, Eq)]
pub enum Record {
    Poll(Poll),
    Candidate(Candidate),
}

/// The mathematical value of a [`Record`].
#[verifier::ext_equal]
pub ghost enum RecordView {
    Poll(PollView),
    Candidate(CandidateView),
}

impl View for Record {
    type V = RecordView;

    open spec fn view(&self) -> RecordView {
        match self {
            Record::Poll(p) => RecordView::Poll(p@),
            Record::Candidate(c) => RecordView::Candidate(c@),
        }
    }
}

/// Copies a byte string, yielding a vector with the same mathematical value.
pub fn clone_bytes(v: &Vec<u8>) -> (r: Vec<u8>)
    ensures
        r@ == v@,
{
    let mut out: Vec<u8> = Vec::new();
    let mut i: usize = 0;
    while i < v.len()
        invariant
            i <= v.len(),
            out@ == v@.subrange(0, i as int),
        decreases v.len() - i,
    {
        out.push(v[i]);
        proof {
            assert(v@.subrange(0, (i + 1) as int) =~= v@.subrange(0, i as int).push(v@[i as int]));
        }
        i += 1;
    }
    proof {
        assert(out@ =~= v@);
    }
    out
}

} // verus!
