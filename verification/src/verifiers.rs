//! Verifiers of single statements.
use vstd::prelude::*;
use crate::error::CredxResult;
use crate::ordered_map::OrderedMap;
use crate::proofs::{PresentationProofs, StatementProof};
use crate::scalar::Scalar;
use crate::statement::{
    AccumulatorSetMembershipStatement, CommitmentStatement, EqualityStatement, PresentationSchema,
    SignatureStatement, VerifiableEncryptionStatement,
};
use crate::suite::ProofSuite;
use crate::transcript::Contribution;

verus! {

/// A statement with its proof, ready to be checked.
pub enum ProofVerifiers<'a> {
    Signature(&'a SignatureStatement, &'a StatementProof),
    AccumulatorSetMembership(&'a AccumulatorSetMembershipStatement, &'a StatementProof, &'a [u8]),
    Equality(&'a EqualityStatement, &'a PresentationSchema, &'a OrderedMap<PresentationProofs>),
    Commitment(&'a CommitmentStatement, &'a StatementProof),
    VerifiableEncryption(&'a VerifiableEncryptionStatement, &'a StatementProof),
}

/// `reply` is what the suite says that the proof binds into the challenge.
pub open spec fn contribution_given<S: ProofSuite>(
    verifier: ProofVerifiers<'_>,
    challenge: Scalar,
    reply: CredxResult<Vec<Contribution>>,
) -> bool {
    match verifier {
        ProofVerifiers::Signature(s, p) => call_ensures(
            S::signature_contribution,
            (s, p, challenge),
            reply,
        ),
        ProofVerifiers::AccumulatorSetMembership(s, p, nonce) => call_ensures(
            S::membership_contribution,
            (s, p, nonce, challenge),
            reply,
        ),
        ProofVerifiers::Equality(s, schema, proofs) => call_ensures(
            S::equality_contribution,
            (s, schema, proofs, challenge),
            reply,
        ),
        ProofVerifiers::Commitment(s, p) => call_ensures(
            S::commitment_contribution,
            (s, p, challenge),
            reply,
        ),
        ProofVerifiers::VerifiableEncryption(s, p) => call_ensures(
            S::encryption_contribution,
            (s, p, challenge),
            reply,
        ),
    }
}

/// `reply` is what the suite says of the proof.
pub open spec fn proof_checked<S: ProofSuite>(
    verifier: ProofVerifiers<'_>,
    challenge: Scalar,
    reply: CredxResult<()>,
) -> bool {
    match verifier {
        ProofVerifiers::Signature(s, p) => call_ensures(
            S::verify_signature,
            (s, p, challenge),
            reply,
        ),
        ProofVerifiers::AccumulatorSetMembership(s, p, nonce) => call_ensures(
            S::verify_membership,
            (s, p, nonce, challenge),
            reply,
        ),
        ProofVerifiers::Equality(s, schema, proofs) => call_ensures(
            S::verify_equality,
            (s, schema, proofs, challenge),
            reply,
        ),
        ProofVerifiers::Commitment(s, p) => call_ensures(
            S::verify_commitment,
            (s, p, challenge),
            reply,
        ),
        ProofVerifiers::VerifiableEncryption(s, p) => call_ensures(
            S::verify_encryption,
            (s, p, challenge),
            reply,
        ),
    }
}

impl<'a> ProofVerifiers<'a> {
    /// What the proof binds into the challenge.
    pub fn add_challenge_contribution<S: ProofSuite>(&self, challenge: Scalar) -> (r: CredxResult<
        Vec<Contribution>,
    >)
        ensures
            contribution_given::<S>(*self, challenge, r),
    {
        match self {
            ProofVerifiers::Signature(s, p) => S::signature_contribution(s, p, challenge),
            ProofVerifiers::AccumulatorSetMembership(s, p, nonce) => S::membership_contribution(
                s,
                p,
                nonce,
                challenge,
            ),
            ProofVerifiers::Equality(s, schema, proofs) => S::equality_contribution(
                s,
                schema,
                proofs,
                challenge,
            ),
            ProofVerifiers::Commitment(s, p) => S::commitment_contribution(s, p, challenge),
            ProofVerifiers::VerifiableEncryption(s, p) => S::encryption_contribution(
                s,
                p,
                challenge,
            ),
        }
    }

    /// Checks the proof.
    pub fn verify<S: ProofSuite>(&self, challenge: Scalar) -> (r: CredxResult<()>)
        ensures
            proof_checked::<S>(*self, challenge, r),
    {
        match self {
            ProofVerifiers::Signature(s, p) => S::verify_signature(s, p, challenge),
            ProofVerifiers::AccumulatorSetMembership(s, p, nonce) => S::verify_membership(
                s,
                p,
                nonce,
                challenge,
            ),
            ProofVerifiers::Equality(s, schema, proofs) => S::verify_equality(
                s,
                schema,
                proofs,
                challenge,
            ),
            ProofVerifiers::Commitment(s, p) => S::verify_commitment(s, p, challenge),
            ProofVerifiers::VerifiableEncryption(s, p) => S::verify_encryption(s, p, challenge),
        }
    }
}

} // verus!
