use vstd::prelude::*;

verus! {

/// Everything that can make a protocol call fail.
///
/// All of these abort the call with no state change, except
/// `ExternalCallFailed`, which a continuation reports after it has returned
/// the in-flight reward to the contract's custody: the puzzle then remains
/// `Solved` and may be claimed again.
#[derive(Clone, Copy, Debug, PartialEq, Eq, Structural)]
pub enum Error {
    /// The caller lacks the capability or role the operation demands.
    Unauthorized,
    /// A puzzle for this answer credential already exists.
    DuplicateCredential,
    /// No puzzle matches the presented credential.
    PuzzleNotFound,
    /// The puzzle already has a solver.
    AlreadySolved,
    /// The puzzle's reward has already been claimed; it is closed for good.
    AlreadyClaimed,
    /// The escrow does not hold the reward; no external call was issued.
    InsufficientFunds,
    /// The external settlement call reported failure; the puzzle stays claimable.
    ExternalCallFailed,
    /// A continuation did not observe exactly one outcome for exactly one
    /// in-flight settlement: a bug in the host's call semantics, not retried.
    ProtocolViolation,
    /// A finalization ran against a puzzle that is not `Solved`: an internal
    /// invariant violation, not a user error.
    InvalidState,
}

} // verus!
