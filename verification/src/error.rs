//! Why a presentation is not made or not accepted.
use vstd::prelude::*;

verus! {

/// The errors of the library.
#[derive(Clone, Debug, PartialEq, Eq)]
pub enum Error {
    /// The credentials, the schema and the proofs do not fit together.
    InvalidPresentationData,
    /// A claim cannot be used in the way that a statement asks for.
    InvalidClaimData,
    /// The proof suite refused, with its reason.
    Suite(String),
}

/// The result of an operation of the library.
pub type CredxResult<T> = Result<T, Error>;

} // verus!
