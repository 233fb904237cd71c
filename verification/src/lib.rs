//! A minimal voting ledger: polls, candidates registered under a poll, and
//! votes recorded as monotonically increasing counters.
//!
//! Records live in a keyed, create-exclusive store. Every record's address is
//! a key derived deterministically from the record's identifying fields: a
//! poll's key from its identifier, a candidate's key from the pair of its
//! poll's identifier and its own name. Each operation resolves the keys it
//! needs, checks presence (create-if-absent for initialization, must-exist
//! for mutation), and applies its state transition in full or not at all.

pub mod errors;
pub mod keys;
pub mod records;
pub mod store;
pub mod ledger;
pub mod laws;

pub use errors::VoteError;
pub use keys::{StorageKey, KeyView, derive_poll_key, derive_candidate_key, key_eq};
pub use records::{Poll, Candidate, Record, PollView, CandidateView, RecordView};
pub use records::{MAX_DESCRIPTION_BYTES, MAX_CANDIDATE_NAME_BYTES};
pub use store::KeyedStore;
pub use ledger::{Signer, VotingLedger};
