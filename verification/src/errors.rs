use vstd::prelude::*;

verus! {

/// The caller-visible failure kinds of the ledger.
///
/// Every precondition failure aborts the whole operation before any mutation
/// is applied, and is surfaced synchronously with one of these kinds; nothing
/// is swallowed or retried internally.
#[derive(Clone, Copy, Debug, PartialEq, Eq, Structural)]
pub enum VoteError {
    /// An input was malformed: a text field exceeded its byte-length bound.
    InvalidArgument,
    /// The derived key is already occupied, so create-once semantics forbid
    /// writing a new record there.
    AlreadyExists,
    /// A referenced poll or candidate does not exist at its derived key.
    NotFound,
    /// The caller lacks a capability the host requires. The core never raises
    /// this itself; the host's capability check is surfaced transparently.
    Unauthorized,
}

} // verus!
