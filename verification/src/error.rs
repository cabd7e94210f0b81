//! Error taxonomy: authentication failures, contest-lifecycle precondition
//! failures, and the library-wide error type.

use vstd::prelude::*;

verus! {

/// The operating-system random source's error type, relied on for the error
/// side of drawing random words.
#[verifier::external_type_specification]
#[verifier::external_body]
pub struct ExOsError(rand::rand_core::OsError);

/// Authentication failures, surfaced to the caller as a denied permission.
#[derive(Clone, Copy, Debug, PartialEq, Eq, Structural)]
pub enum AuthError {
    IncorrectKey,
    IpNotFound,
    IncorrectToken,
}

/// A contest-lifecycle operation was requested in a state that does not
/// allow it; the state is left unchanged.
#[derive(Clone, Copy, Debug, PartialEq, Eq, Structural)]
pub enum ContestError {
    StillInDevelop,
    NotStartedYet,
    AlreadyReady,
    AlreadyGoing,
    AlreadyFinished,
}

/// The library-wide error type.
#[derive(Debug)]
pub enum OcjError {
    /// Dispatch found the worker registry empty.
    NoneMachineFound,
    Auth(AuthError),
    Contest(ContestError),
    /// The operating-system random source failed.
    RngCore(rand::rand_core::OsError),
}

} // verus!
