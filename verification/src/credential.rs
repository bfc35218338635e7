//! Credentials: signed claims in the hands of their holder.
use vstd::prelude::*;
use crate::claim::ClaimData;

verus! {

/// A credential as its holder keeps it.
#[derive(Debug)]
pub struct Credential {
    /// The claims, each at its index.
    pub claims: Vec<ClaimData>,
    /// The issuer's signature over the claims, as the proof suite encodes it.
    pub signature: Vec<u8>,
    /// The witness that the credential is in its issuer's accumulator, as the proof suite encodes
    /// it.
    pub revocation_handle: Vec<u8>,
}

} // verus!
