//! The encoding of claims and the cryptography of single statements, as far as presentations use
//! them.
//!
//! A proof suite commits to a statement, then, once the challenge is known, gives its proof; and
//! it checks such proofs. Nothing is supposed of what it answers.
use vstd::prelude::*;
use merlin::Transcript;
use crate::claim::{ClaimData, ClaimEncoding, EncodingView};
use crate::credential::Credential;
use crate::error::{CredxResult, Error};
use crate::message::ProofMessage;
use crate::ordered_map::OrderedMap;
use crate::proofs::{PresentationProofs, StatementProof};
use crate::scalar::Scalar;
use crate::statement::{
    AccumulatorSetMembershipStatement, CommitmentStatement, EqualityStatement, PresentationSchema,
    RangeStatement, SignatureStatement, VerifiableEncryptionStatement,
};
use crate::transcript;
use crate::transcript::Contribution;

verus! {

/// Implementers can build proofs for presentations.
pub trait PresentationBuilder: Sized {
    /// Finalizes the proof.
    fn gen_proof(self, challenge: Scalar) -> PresentationProofs;
}

/// A commitment to a statement: what will build its proof, and what it binds into the challenge.
pub struct Committed<B> {
    pub builder: B,
    pub contributions: Vec<Contribution>,
}

/// The encoding of claims and the cryptography of single statements.
pub trait ProofSuite: Sized {
    type SignatureBuilder: PresentationBuilder;

    type AccumulatorSetMembershipBuilder: PresentationBuilder;

    type EqualityBuilder: PresentationBuilder;

    type CommitmentBuilder: PresentationBuilder;

    type VerifiableEncryptionBuilder: PresentationBuilder;

    type RangeBuilder: PresentationBuilder;

    /// What a schema binds into the challenge.
    fn bind_schema(schema: &PresentationSchema) -> Vec<Contribution>;

    /// How a claim goes into a transcript and into a signature.
    fn encode_claim(claim: &ClaimData) -> ClaimEncoding;

    /// Commits to the knowledge of a signature over messages.
    fn commit_signature(
        statement: &SignatureStatement,
        signature: &Vec<u8>,
        messages: &Vec<ProofMessage>,
    ) -> CredxResult<Committed<Self::SignatureBuilder>>;

    /// Commits to the equality of claims.
    fn commit_equality(
        statement: &EqualityStatement,
        credentials: &OrderedMap<Credential>,
    ) -> CredxResult<Self::EqualityBuilder>;

    /// Commits to the membership of a claim in an accumulator.
    fn commit_membership(
        statement: &AccumulatorSetMembershipStatement,
        credential: &Credential,
        message: ProofMessage,
        nonce: &[u8],
    ) -> CredxResult<Committed<Self::AccumulatorSetMembershipBuilder>>;

    /// Commits to the opening of a commitment.
    fn commit_commitment(
        statement: &CommitmentStatement,
        message: Scalar,
        blinder: Scalar,
    ) -> CredxResult<Committed<Self::CommitmentBuilder>>;

    /// Commits to the encryption of a claim.
    fn commit_encryption(
        statement: &VerifiableEncryptionStatement,
        message: Scalar,
        blinder: Scalar,
    ) -> CredxResult<Committed<Self::VerifiableEncryptionBuilder>>;

    /// Commits to the range of a committed number. The proof may draw challenges of its own from
    /// what is bound so far.
    fn commit_range(
        statement: &RangeStatement,
        commitment: &Self::CommitmentBuilder,
        value: isize,
        transcript: &Transcript,
    ) -> CredxResult<Committed<Self::RangeBuilder>>;

    /// What the proof of a signature binds into the challenge.
    fn signature_contribution(
        statement: &SignatureStatement,
        proof: &StatementProof,
        challenge: Scalar,
    ) -> CredxResult<Vec<Contribution>>;

    /// What the proof of a membership binds into the challenge.
    fn membership_contribution(
        statement: &AccumulatorSetMembershipStatement,
        proof: &StatementProof,
        nonce: &[u8],
        challenge: Scalar,
    ) -> CredxResult<Vec<Contribution>>;

    /// What the proof of an equality binds into the challenge.
    fn equality_contribution(
        statement: &EqualityStatement,
        schema: &PresentationSchema,
        proofs: &OrderedMap<PresentationProofs>,
        challenge: Scalar,
    ) -> CredxResult<Vec<Contribution>>;

    /// What the proof of a commitment binds into the challenge.
    fn commitment_contribution(
        statement: &CommitmentStatement,
        proof: &StatementProof,
        challenge: Scalar,
    ) -> CredxResult<Vec<Contribution>>;

    /// What the proof of an encryption binds into the challenge.
    fn encryption_contribution(
        statement: &VerifiableEncryptionStatement,
        proof: &StatementProof,
        challenge: Scalar,
    ) -> CredxResult<Vec<Contribution>>;

    /// Checks the proof of a signature.
    fn verify_signature(
        statement: &SignatureStatement,
        proof: &StatementProof,
        challenge: Scalar,
    ) -> CredxResult<()>;

    /// Checks the proof of a membership.
    fn verify_membership(
        statement: &AccumulatorSetMembershipStatement,
        proof: &StatementProof,
        nonce: &[u8],
        challenge: Scalar,
    ) -> CredxResult<()>;

    /// Checks the proof of an equality.
    fn verify_equality(
        statement: &EqualityStatement,
        schema: &PresentationSchema,
        proofs: &OrderedMap<PresentationProofs>,
        challenge: Scalar,
    ) -> CredxResult<()>;

    /// Checks the proof of a commitment.
    fn verify_commitment(
        statement: &CommitmentStatement,
        proof: &StatementProof,
        challenge: Scalar,
    ) -> CredxResult<()>;

    /// Checks the proof of an encryption.
    fn verify_encryption(
        statement: &VerifiableEncryptionStatement,
        proof: &StatementProof,
        challenge: Scalar,
    ) -> CredxResult<()>;
}

/// `encoding` is what the suite answers to how the claim is encoded.
pub open spec fn encoded<S: ProofSuite>(claim: ClaimData, encoding: EncodingView) -> bool {
    exists|e: ClaimEncoding| #[trigger]
        call_ensures(S::encode_claim, (&claim,), e) && e@ == encoding
}

/// The builders of proofs, for later conversion to proofs.
pub enum PresentationBuilders<S: ProofSuite> {
    Signature(S::SignatureBuilder),
    AccumulatorSetMembership(S::AccumulatorSetMembershipBuilder),
    Equality(S::EqualityBuilder),
    Commitment(S::CommitmentBuilder),
    VerifiableEncryption(S::VerifiableEncryptionBuilder),
    Range(S::RangeBuilder),
}

/// `proof` is an answer of the builder to the challenge.
pub open spec fn proof_made<S: ProofSuite>(
    builder: PresentationBuilders<S>,
    challenge: Scalar,
    proof: PresentationProofs,
) -> bool {
    match builder {
        PresentationBuilders::Signature(b) => call_ensures(
            <S::SignatureBuilder as PresentationBuilder>::gen_proof,
            (b, challenge),
            proof,
        ),
        PresentationBuilders::AccumulatorSetMembership(b) => call_ensures(
            <S::AccumulatorSetMembershipBuilder as PresentationBuilder>::gen_proof,
            (b, challenge),
            proof,
        ),
        PresentationBuilders::Equality(b) => call_ensures(
            <S::EqualityBuilder as PresentationBuilder>::gen_proof,
            (b, challenge),
            proof,
        ),
        PresentationBuilders::Commitment(b) => call_ensures(
            <S::CommitmentBuilder as PresentationBuilder>::gen_proof,
            (b, challenge),
            proof,
        ),
        PresentationBuilders::VerifiableEncryption(b) => call_ensures(
            <S::VerifiableEncryptionBuilder as PresentationBuilder>::gen_proof,
            (b, challenge),
            proof,
        ),
        PresentationBuilders::Range(b) => call_ensures(
            <S::RangeBuilder as PresentationBuilder>::gen_proof,
            (b, challenge),
            proof,
        ),
    }
}

impl<S: ProofSuite> PresentationBuilders<S> {
    /// Converts to a proof: what the builder of the statement's kind answers to the challenge.
    pub fn gen_proof(self, challenge: Scalar) -> (r: PresentationProofs)
        ensures
            proof_made(self, challenge, r),
    {
        match self {
            PresentationBuilders::Signature(s) => s.gen_proof(challenge),
            PresentationBuilders::Equality(e) => e.gen_proof(challenge),
            PresentationBuilders::Commitment(c) => c.gen_proof(challenge),
            PresentationBuilders::AccumulatorSetMembership(a) => a.gen_proof(challenge),
            PresentationBuilders::VerifiableEncryption(v) => v.gen_proof(challenge),
            PresentationBuilders::Range(r) => r.gen_proof(challenge),
        }
    }
}

/// `reply` is what comes of committing to a range statement about a claim of `credential`, next to
/// `builder`, with `log` bound so far: the suite's answer where the builder is that of a commitment
/// and the claim is a number, else an error.
pub open spec fn range_committed<S: ProofSuite>(
    statement: RangeStatement,
    builder: PresentationBuilders<S>,
    credential: Credential,
    log: Seq<(Seq<char>, Seq<u8>)>,
    reply: CredxResult<Committed<S::RangeBuilder>>,
) -> bool {
    if builder is Commitment && statement.claim < credential.claims@.len()
        && credential.claims@[statement.claim as int] is Number {
        exists|transcript: Transcript|
            transcript::transcript_log(transcript) == log && #[trigger] call_ensures(
                S::commit_range,
                (
                    &statement,
                    &builder->Commitment_0,
                    credential.claims@[statement.claim as int]->Number_0.value,
                    &transcript,
                ),
                reply,
            )
    } else {
        reply == Err::<Committed<S::RangeBuilder>, Error>(Error::InvalidPresentationData)
    }
}

/// Commits to a range statement about a claim of `credential`, next to the builder of a commitment.
pub fn commit_range<S: ProofSuite>(
    statement: &RangeStatement,
    builder: &PresentationBuilders<S>,
    credential: &Credential,
    transcript: &Transcript,
) -> (r: CredxResult<Committed<S::RangeBuilder>>)
    ensures
        range_committed(
            *statement,
            *builder,
            *credential,
            transcript::transcript_log(*transcript),
            r,
        ),
{
    match builder {
        PresentationBuilders::Commitment(commitment) => {
            if statement.claim >= credential.claims.len() {
                return Err(Error::InvalidPresentationData);
            }
            match &credential.claims[statement.claim] {
                ClaimData::Number(n) => S::commit_range(statement, commitment, n.value, transcript),
                _ => Err(Error::InvalidPresentationData),
            }
        },
        _ => Err(Error::InvalidPresentationData),
    }
}

} // verus!
