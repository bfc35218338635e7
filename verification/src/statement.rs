//! Statements: what a verifier asks to have proved.
use vstd::prelude::*;
use crate::ordered_map;
use crate::ordered_map::OrderedMap;

verus! {

/// The kinds of statements.
#[derive(Clone, Copy, Debug, PartialEq, Eq, Structural)]
pub enum StatementType {
    /// A Pointcheval-Sanders signature.
    PS,
    /// A BBS+ signature.
    BBS,
    AccumulatorSetMembership,
    Equality,
    Commitment,
    VerifiableEncryption,
    Range,
}

/// The signature schemes.
#[derive(Clone, Copy, Debug, PartialEq, Eq, Structural)]
pub enum SignatureScheme {
    PS,
    BBS,
}

/// What the claims of an issuer's credentials are called.
#[derive(Debug)]
pub struct CredentialSchema {
    /// The index of the claim under each label.
    pub claim_indices: OrderedMap<usize>,
}

/// The issuer of credentials.
#[derive(Debug)]
pub struct Issuer {
    pub schema: CredentialSchema,
    /// The keys of the issuer, as the proof suite encodes them.
    pub public_key: Vec<u8>,
}

/// The holder has a credential with a signature of the issuer, and discloses some of its claims.
#[derive(Debug)]
pub struct SignatureStatement {
    pub id: String,
    pub scheme: SignatureScheme,
    pub issuer: Issuer,
    /// The labels of the claims to disclose.
    pub disclosed: OrderedMap<()>,
}

/// A claim of a credential is in an accumulator.
#[derive(Debug)]
pub struct AccumulatorSetMembershipStatement {
    pub id: String,
    /// The signature statement of the credential.
    pub reference_id: String,
    /// The index of the claim.
    pub claim: usize,
    /// The accumulator and its key, as the proof suite encodes them.
    pub parameters: Vec<u8>,
}

/// Claims of several credentials are the same.
#[derive(Debug)]
pub struct EqualityStatement {
    pub id: String,
    /// For each signature statement the index of its claim.
    pub ref_id_claim_index: OrderedMap<usize>,
}

/// A claim of a credential is in a commitment.
#[derive(Debug)]
pub struct CommitmentStatement {
    pub id: String,
    /// The signature statement of the credential.
    pub reference_id: String,
    /// The index of the claim.
    pub claim: usize,
    /// The generators, as the proof suite encodes them.
    pub parameters: Vec<u8>,
}

/// A claim of a credential is encrypted under a key.
#[derive(Debug)]
pub struct VerifiableEncryptionStatement {
    pub id: String,
    /// The signature statement of the credential.
    pub reference_id: String,
    /// The index of the claim.
    pub claim: usize,
    /// The generator and the key, as the proof suite encodes them.
    pub parameters: Vec<u8>,
}

/// A committed claim lies between two bounds.
#[derive(Debug)]
pub struct RangeStatement {
    pub id: String,
    /// The commitment statement of the claim.
    pub reference_id: String,
    /// The signature statement of the credential.
    pub signature_id: String,
    /// The index of the claim.
    pub claim: usize,
    /// The bounds, as the proof suite encodes them.
    pub parameters: Vec<u8>,
}

/// A statement of any kind.
#[derive(Debug)]
pub enum Statements {
    Signature(SignatureStatement),
    AccumulatorSetMembership(AccumulatorSetMembershipStatement),
    Equality(EqualityStatement),
    Commitment(CommitmentStatement),
    VerifiableEncryption(VerifiableEncryptionStatement),
    Range(RangeStatement),
}

/// The statements that a presentation has to prove, by their ids.
#[derive(Debug)]
pub struct PresentationSchema {
    pub statements: OrderedMap<Statements>,
}

/// The first label, in order, of the claim at `index`.
pub open spec fn first_label(indices: Seq<(Seq<char>, usize)>, index: int) -> Option<Seq<char>>
    decreases indices.len(),
{
    if indices.len() == 0 {
        None
    } else if indices[0].1 == index {
        Some(indices[0].0)
    } else {
        first_label(indices.drop_first(), index)
    }
}

/// A first label is a label of that index.
pub proof fn lemma_first_label(indices: Seq<(Seq<char>, usize)>, index: int)
    requires
        first_label(indices, index) is Some,
    ensures
        exists|p: int|
            0 <= p < indices.len() && (#[trigger] indices[p]).0 == first_label(indices, index)->0
                && indices[p].1 == index,
    decreases indices.len(),
{
    if indices[0].1 != index {
        lemma_first_label(indices.drop_first(), index);
        let rest = indices.drop_first();
        let p = choose|p: int|
            0 <= p < rest.len() && (#[trigger] rest[p]).0 == first_label(
                rest,
                index,
            )->0 && rest[p].1
                == index;
        assert(indices[p + 1] == rest[p]);
    }
}

impl CredentialSchema {
    /// What the claim at `index` is called.
    pub open spec fn label(self, index: int) -> Option<Seq<char>> {
        first_label(self.claim_indices.listing(), index)
    }

    /// What the claim at `index` is called: its first label in order.
    pub fn claim_label(&self, index: usize) -> (r: Option<&String>)
        ensures
            r is Some <==> self.label(index as int) is Some,
            r matches Some(l) ==> self.label(index as int) == Some(l@),
    {
        let n = self.claim_indices.len();
        let mut i: usize = 0;
        let ghost all = self.claim_indices.listing();
        assert(all.skip(0) =~= all);
        while i < n
            invariant
                n == all.len(),
                all == self.claim_indices.listing(),
                i <= n,
                first_label(all, index as int) == first_label(all.skip(i as int), index as int),
            decreases n - i,
        {
            assert(all.skip(i as int).drop_first() =~= all.skip(i + 1));
            if *self.claim_indices.value_at(i) == index {
                return Some(self.claim_indices.key_at(i));
            }
            i = i + 1;
        }
        None
    }
}

impl SignatureStatement {
    /// The claim at `index` has a label, and the label is one of those to disclose.
    pub open spec fn discloses(self, index: int) -> bool {
        self.issuer.schema.label(index) matches Some(l) && self.disclosed@.dom().contains(l)
    }
}

/// The label of a claim leads back to its index.
pub proof fn lemma_label_index(statement: SignatureStatement, index: int)
    requires
        statement.issuer.schema.claim_indices.wf(),
        statement.issuer.schema.label(index) is Some,
    ensures
        statement.issuer.schema.claim_indices@.dom().contains(
            statement.issuer.schema.label(index)->0,
        ),
        statement.issuer.schema.claim_indices@[statement.issuer.schema.label(index)->0] == index,
{
    let indices = statement.issuer.schema.claim_indices.listing();
    lemma_first_label(indices, index);
    let p = choose|p: int|
        0 <= p < indices.len() && (#[trigger] indices[p]).0 == first_label(
            indices,
            index,
        )->0 && indices[p].1 == index;
    ordered_map::lemma_entry_found(indices, p);
}

impl Statements {
    /// The claims that a statement speaks of: for each the statement it refers to, and an index.
    pub open spec fn references(self) -> Seq<(Seq<char>, usize)> {
        match self {
            Statements::Signature(_) => seq![],
            Statements::AccumulatorSetMembership(a) => seq![(a.reference_id@, a.claim)],
            Statements::Equality(e) => e.ref_id_claim_index.listing(),
            Statements::Commitment(c) => seq![(c.reference_id@, c.claim)],
            Statements::VerifiableEncryption(v) => seq![(v.reference_id@, v.claim)],
            Statements::Range(r) => seq![(r.reference_id@, r.claim)],
        }
    }

    /// The claim that a statement about one single claim is about: a membership, a commitment or
    /// an encryption.
    pub open spec fn subject(self) -> Option<(Seq<char>, usize)> {
        match self {
            Statements::AccumulatorSetMembership(a) => Some((a.reference_id@, a.claim)),
            Statements::Commitment(c) => Some((c.reference_id@, c.claim)),
            Statements::VerifiableEncryption(v) => Some((v.reference_id@, v.claim)),
            _ => None,
        }
    }

    /// The kind of the statement.
    pub fn statement_type(&self) -> (r: StatementType)
        ensures
            r == match *self {
                Statements::Signature(s) => match s.scheme {
                    SignatureScheme::PS => StatementType::PS,
                    SignatureScheme::BBS => StatementType::BBS,
                },
                Statements::AccumulatorSetMembership(_) => StatementType::AccumulatorSetMembership,
                Statements::Equality(_) => StatementType::Equality,
                Statements::Commitment(_) => StatementType::Commitment,
                Statements::VerifiableEncryption(_) => StatementType::VerifiableEncryption,
                Statements::Range(_) => StatementType::Range,
            },
    {
        match self {
            Statements::Signature(s) => match s.scheme {
                SignatureScheme::PS => StatementType::PS,
                SignatureScheme::BBS => StatementType::BBS,
            },
            Statements::AccumulatorSetMembership(_) => StatementType::AccumulatorSetMembership,
            Statements::Equality(_) => StatementType::Equality,
            Statements::Commitment(_) => StatementType::Commitment,
            Statements::VerifiableEncryption(_) => StatementType::VerifiableEncryption,
            Statements::Range(_) => StatementType::Range,
        }
    }

    /// The statements that this one refers to.
    pub fn reference_ids(&self) -> (r: Vec<String>)
        ensures
            r@.len() == self.references().len(),
            forall|j: int| 0 <= j < r@.len() ==> (#[trigger] r@[j])@ == self.references()[j].0,
    {
        let mut ids: Vec<String> = Vec::new();
        match self {
            Statements::Signature(_) => {},
            Statements::AccumulatorSetMembership(a) => ids.push(a.reference_id.clone()),
            Statements::Equality(e) => {
                let n = e.ref_id_claim_index.len();
                let mut i: usize = 0;
                while i < n
                    invariant
                        n == e.ref_id_claim_index.listing().len(),
                        i <= n,
                        ids@.len() == i,
                        forall|j: int|
                            0 <= j < i ==> (#[trigger] ids@[j])@
                                == e.ref_id_claim_index.listing()[j].0,
                    decreases n - i,
                {
                    ids.push(e.ref_id_claim_index.key_at(i).clone());
                    i = i + 1;
                }
            },
            Statements::Commitment(c) => ids.push(c.reference_id.clone()),
            Statements::VerifiableEncryption(v) => ids.push(v.reference_id.clone()),
            Statements::Range(r) => ids.push(r.reference_id.clone()),
        }
        ids
    }

    /// The index of the claim that this statement takes from the statement `reference_id`.
    pub fn get_claim_index(&self, reference_id: &str) -> (r: usize)
        requires
            exists|j: int|
                0 <= j < self.references().len() && (#[trigger] self.references()[j]).0
                    == reference_id@,
        ensures
            forall|j: int|
                0 <= j < self.references().len() && (#[trigger] self.references()[j]).0
                    == reference_id@ ==> r == self.references()[j].1,
    {
        match self {
            Statements::Signature(_) => 0,
            Statements::AccumulatorSetMembership(a) => a.claim,
            Statements::Equality(e) => {
                proof {
                    use_type_invariant(&e.ref_id_claim_index);
                }
                let ghost all = e.ref_id_claim_index.listing();
                proof {
                    assert forall|j: int|
                        0 <= j < all.len()
                            && (#[trigger] all[j]).0 == reference_id@ implies all[j].1
                        == e.ref_id_claim_index@[reference_id@] by {
                        ordered_map::lemma_entry_found(all, j);
                    }
                }
                match e.ref_id_claim_index.get(reference_id) {
                    Some(i) => *i,
                    None => 0,
                }
            },
            Statements::Commitment(c) => c.claim,
            Statements::VerifiableEncryption(v) => v.claim,
            Statements::Range(r) => r.claim,
        }
    }
}

} // verus!
