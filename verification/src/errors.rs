//! The error vocabulary of the library.

use vstd::prelude::*;

verus! {

/// Everything that can go wrong while parsing the textual notation,
/// typechecking against a domain, registering a plan, consulting the
/// database, or running a turn.
///
/// Parse and typecheck errors are returned to the immediate caller;
/// plan registration is all-or-nothing; a missed database lookup and a
/// sentence that cannot be interpreted are recoverable within a turn;
/// only the end of the input source ends a session.
#[derive(Debug, PartialEq, Eq)]
pub enum IsuError {
    /// Malformed textual notation.
    ParseError,
    /// A predicate outside the domain vocabulary.
    UnknownPredicate,
    /// An individual outside the domain vocabulary.
    UnknownIndividual,
    /// A sort outside the domain vocabulary.
    UnknownSort,
    /// An argument whose sort disagrees with the predicate's declared sort.
    SortMismatch,
    /// A plan step or trigger failed its typecheck at registration.
    PlanRegistrationFailed,
    /// The question has no bound plan (recoverable).
    NoPlanFound,
    /// The database holds no record matching the context (recoverable).
    NoMatchingRecord,
    /// The input source is exhausted; the session shuts down cleanly.
    InputClosed,
    /// An utterance that could not be interpreted (recoverable).
    NotUnderstood,
    /// A container rejected a value that its constraint does not accept.
    ValueRejected,
    /// A stack operation on an empty stack.
    EmptyStack,
}

} // verus!
