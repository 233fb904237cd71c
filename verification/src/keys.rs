use vstd::prelude::*;
use crate::errors::VoteError;
use crate::records::MAX_CANDIDATE_NAME_BYTES;

verus! {

/// A derived storage address. A record is never stored at a freely chosen
/// key: the key is a pure function of the record's identifying fields, so
/// one input tuple can address at most one record.
#[derive(Clone, Debug, PartialEq, Eq)]
pub enum StorageKey {
    /// Address of a poll: derived from the poll identifier alone.
    Poll { poll_id: u64 },
    /// Address of a candidate: derived from the parent poll's identifier and
    /// the candidate's name, so equally named candidates under different
    /// polls get distinct addresses.
    Candidate { poll_id: u64, candidate_name: Vec<u8> },
}

/// The mathematical value of a [`StorageKey`].
#[verifier::ext_equal]
pub ghost enum KeyView {
    Poll { poll_id: u64 },
    Candidate { poll_id: u64, candidate_name: Seq<u8> },
}

impl View for StorageKey {
    type V = KeyView;

    open spec fn view(&self) -> KeyView {
        match self {
            StorageKey::Poll { poll_id } => KeyView::Poll { poll_id: *poll_id },
            StorageKey::Candidate { poll_id, candidate_name } => KeyView::Candidate {
                poll_id: *poll_id,
                candidate_name: candidate_name@,
            },
        }
    }
}

/// Derives the storage key of the poll with the given identifier. Pure and
/// deterministic; cannot fail, since a `u64` always encodes.
pub fn derive_poll_key(poll_id: u64) -> (k: StorageKey)
    ensures
        k@ == (KeyView::Poll { poll_id }),
{
    StorageKey::Poll { poll_id }
}

/// Derives the storage key of the candidate with the given name under the
/// given poll. Pure and deterministic. A name over
/// [`MAX_CANDIDATE_NAME_BYTES`] bytes does not encode: the derivation is
/// rejected with `InvalidArgument` before any key is produced.
pub fn derive_candidate_key(poll_id: u64, candidate_name: Vec<u8>) -> (r: Result<
    StorageKey,
    VoteError,
>)
    ensures
        candidate_name@.len() <= MAX_CANDIDATE_NAME_BYTES ==> (r matches Ok(k) && k@
            == (KeyView::Candidate { poll_id, candidate_name: candidate_name@ })),
        candidate_name@.len() > MAX_CANDIDATE_NAME_BYTES ==> r === Err(VoteError::InvalidArgument),
{
    if candidate_name.len() > MAX_CANDIDATE_NAME_BYTES {
        Err(VoteError::InvalidArgument)
    } else {
        Ok(StorageKey::Candidate { poll_id, candidate_name })
    }
}

/// Distinct poll identifiers derive distinct poll keys, and the same
/// identifier always derives the same key.
pub proof fn lemma_poll_keys_injective(a: u64, b: u64)
    ensures
        ((KeyView::Poll { poll_id: a }) == (KeyView::Poll { poll_id: b })) <==> a == b,
{
}

/// Candidate keys coincide exactly when both the poll identifier and the
/// candidate name coincide: candidates are independent across polls.
pub proof fn lemma_candidate_keys_injective(a_id: u64, a_name: Seq<u8>, b_id: u64, b_name: Seq<u8>)
    ensures
        ((KeyView::Candidate { poll_id: a_id, candidate_name: a_name }) == (KeyView::Candidate {
            poll_id: b_id,
            candidate_name: b_name,
        })) <==> (a_id == b_id && a_name == b_name),
{
}

/// A poll key never collides with a candidate key.
pub proof fn lemma_poll_key_not_candidate_key(a_id: u64, b_id: u64, b_name: Seq<u8>)
    ensures
        (KeyView::Poll { poll_id: a_id }) != (KeyView::Candidate {
            poll_id: b_id,
            candidate_name: b_name,
        }),
{
}

/// Decides whether two derived keys address the same record.
pub fn key_eq(a: &StorageKey, b: &StorageKey) -> (r: bool)
    ensures
        r <==> a@ == b@,
{
    match (a, b) {
        (StorageKey::Poll { poll_id: x }, StorageKey::Poll { poll_id: y }) => x == y,
        (
            StorageKey::Candidate { poll_id: x, candidate_name: m },
            StorageKey::Candidate { poll_id: y, candidate_name: n },
        ) => if x == y {
            bytes_eq(m, n)
        } else {
            false
        },
        _ => false,
    }
}

/// Decides equality of two byte strings.
fn bytes_eq(a: &Vec<u8>, b: &Vec<u8>) -> (r: bool)
    ensures
        r <==> a@ == b@,
{
    if a.len() != b.len() {
        return false;
    }
    let mut i: usize = 0;
    while i < a.len()
        invariant
            a@.len() == b@.len(),
            i <= a.len(),
            forall|j: int| 0 <= j < i ==> a@[j] == b@[j],
        decreases a.len() - i,
    {
        if a[i] != b[i] {
            return false;
        }
        i += 1;
    }
    proof {
        assert(a@ =~= b@);
    }
    true
}

} // verus!
