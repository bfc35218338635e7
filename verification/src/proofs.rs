//! Proofs of single statements.
use vstd::prelude::*;

verus! {

/// The proof of a statement.
#[derive(Debug)]
pub struct StatementProof {
    /// The id of the statement.
    pub id: String,
    /// The proof itself, as the proof suite encodes it.
    pub body: Vec<u8>,
}

/// A proof, by the kind of its statement.
#[derive(Debug)]
pub enum PresentationProofs {
    Signature(StatementProof),
    AccumulatorSetMembership(StatementProof),
    Equality(StatementProof),
    Commitment(StatementProof),
    VerifiableEncryption(StatementProof),
    Range(StatementProof),
}

impl Clone for StatementProof {
    fn clone(&self) -> (r: StatementProof)
        ensures
            r.id@ == self.id@,
            r.body@ == self.body@,
    {
        let body = self.body.clone();
        assert(body@ =~= self.body@);
        StatementProof { id: self.id.clone(), body }
    }
}

impl Clone for PresentationProofs {
    fn clone(&self) -> (r: PresentationProofs)
        ensures
            r.says_the_same(*self),
    {
        match self {
            PresentationProofs::Signature(p) => PresentationProofs::Signature(p.clone()),
            PresentationProofs::AccumulatorSetMembership(
                p,
            ) => PresentationProofs::AccumulatorSetMembership(p.clone()),
            PresentationProofs::Equality(p) => PresentationProofs::Equality(p.clone()),
            PresentationProofs::Commitment(p) => PresentationProofs::Commitment(p.clone()),
            PresentationProofs::VerifiableEncryption(
                p,
            ) => PresentationProofs::VerifiableEncryption(p.clone()),
            PresentationProofs::Range(p) => PresentationProofs::Range(p.clone()),
        }
    }
}

impl PresentationProofs {
    /// Two proofs are of one kind, for one statement, and have the same body.
    pub open spec fn says_the_same(self, other: PresentationProofs) -> bool {
        &&& self is Signature <==> other is Signature
        &&& self is AccumulatorSetMembership <==> other is AccumulatorSetMembership
        &&& self is Equality <==> other is Equality
        &&& self is Commitment <==> other is Commitment
        &&& self is VerifiableEncryption <==> other is VerifiableEncryption
        &&& self is Range <==> other is Range
        &&& self.inner().id@ == other.inner().id@
        &&& self.inner().body@ == other.inner().body@
    }

    /// What is proved, whatever its kind.
    pub open spec fn inner(self) -> StatementProof {
        match self {
            PresentationProofs::Signature(p) => p,
            PresentationProofs::AccumulatorSetMembership(p) => p,
            PresentationProofs::Equality(p) => p,
            PresentationProofs::Commitment(p) => p,
            PresentationProofs::VerifiableEncryption(p) => p,
            PresentationProofs::Range(p) => p,
        }
    }

    /// The id of the statement that is proved.
    pub fn id(&self) -> (r: &String)
        ensures
            *r == self.inner().id,
    {
        match self {
            PresentationProofs::Signature(p) => &p.id,
            PresentationProofs::AccumulatorSetMembership(p) => &p.id,
            PresentationProofs::Equality(p) => &p.id,
            PresentationProofs::Commitment(p) => &p.id,
            PresentationProofs::VerifiableEncryption(p) => &p.id,
            PresentationProofs::Range(p) => &p.id,
        }
    }
}

} // verus!
