use bls12_381_plus::{G1Affine, G2Affine};
use credx::challenge::{FIELD_MODULUS, SUBGROUP_SIZE};
use credx::claim::{ClaimData, ClaimEncoding, NumberClaim};
use credx::credential::Credential;
use credx::error::{CredxResult, Error};
use credx::message::{HiddenMessage, ProofMessage};
use credx::ordered_map::OrderedMap;
use credx::presentation::Presentation;
use credx::proofs::{PresentationProofs, StatementProof};
use credx::scalar::{Draws, Scalar};
use credx::statement::{
    AccumulatorSetMembershipStatement, CommitmentStatement, CredentialSchema, EqualityStatement,
    Issuer, PresentationSchema, RangeStatement, SignatureScheme, SignatureStatement, Statements,
    VerifiableEncryptionStatement,
};
use credx::suite::{
    commit_range, Committed, PresentationBuilder, PresentationBuilders, ProofSuite,
};
use credx::transcript::Contribution;
use merlin::Transcript;
use uint_zigzag::Uint;

// A suite without cryptography: a commitment spells out what was committed to, and a proof is the
// commitment followed by the challenge.

#[derive(Clone, Copy)]
enum Kind {
    Signature,
    Membership,
    Equality,
    Commitment,
    Encryption,
    Range,
}

struct PlainBuilder {
    kind: Kind,
    id: String,
    commitment: Vec<u8>,
}

impl PresentationBuilder for PlainBuilder {
    fn gen_proof(self, challenge: Scalar) -> PresentationProofs {
        let mut body = self.commitment;
        body.extend_from_slice(&challenge.bytes);
        let proof = StatementProof { id: self.id, body };
        match self.kind {
            Kind::Signature => PresentationProofs::Signature(proof),
            Kind::Membership => PresentationProofs::AccumulatorSetMembership(proof),
            Kind::Equality => PresentationProofs::Equality(proof),
            Kind::Commitment => PresentationProofs::Commitment(proof),
            Kind::Encryption => PresentationProofs::VerifiableEncryption(proof),
            Kind::Range => PresentationProofs::Range(proof),
        }
    }
}

fn committed(kind: Kind, id: &str, commitment: Vec<u8>) -> Committed<PlainBuilder> {
    Committed {
        contributions: vec![Contribution::new("plain commitment", commitment.clone())],
        builder: PlainBuilder { kind, id: id.to_string(), commitment },
    }
}

fn spelled(message: &ProofMessage) -> Vec<u8> {
    match message {
        ProofMessage::Revealed(m) => [&[0u8], &m.bytes[..]].concat(),
        ProofMessage::Hidden(HiddenMessage::ProofSpecificBlinding(m)) => {
            [&[1u8], &m.bytes[..]].concat()
        }
        ProofMessage::Hidden(HiddenMessage::ExternalBlinding(m, b)) => {
            [&[2u8], &m.bytes[..], &b.bytes[..]].concat()
        }
    }
}

fn refused(why: &str) -> Error {
    Error::Suite(why.to_string())
}

fn contributed(proof: &StatementProof) -> CredxResult<Vec<Contribution>> {
    if proof.body.len() < 32 {
        return Err(refused("too short"));
    }
    let commitment = proof.body[..proof.body.len() - 32].to_vec();
    Ok(vec![Contribution::new("plain commitment", commitment)])
}

fn checked(proof: &StatementProof, challenge: Scalar) -> CredxResult<()> {
    if proof.body.ends_with(&challenge.bytes) {
        Ok(())
    } else {
        Err(refused("stale"))
    }
}

struct Plain;

impl ProofSuite for Plain {
    type SignatureBuilder = PlainBuilder;
    type AccumulatorSetMembershipBuilder = PlainBuilder;
    type EqualityBuilder = PlainBuilder;
    type CommitmentBuilder = PlainBuilder;
    type VerifiableEncryptionBuilder = PlainBuilder;
    type RangeBuilder = PlainBuilder;

    fn bind_schema(schema: &PresentationSchema) -> Vec<Contribution> {
        (0..schema.statements.len())
            .map(|i| {
                let id = schema.statements.key_at(i);
                Contribution::new("plain statement", id.as_bytes().to_vec())
            })
            .collect()
    }

    fn encode_claim(claim: &ClaimData) -> ClaimEncoding {
        match claim {
            ClaimData::Number(n) => {
                ClaimEncoding::new(n.value.to_le_bytes().to_vec(), scalar(n.value as u8))
            }
            ClaimData::Other(content) => ClaimEncoding::new(content.clone(), scalar(content[0])),
        }
    }

    fn commit_signature(
        statement: &SignatureStatement,
        signature: &Vec<u8>,
        messages: &Vec<ProofMessage>,
    ) -> CredxResult<Committed<PlainBuilder>> {
        if signature.is_empty() {
            return Err(refused("no signature"));
        }
        let mut commitment = signature.clone();
        for message in messages {
            commitment.extend(spelled(message));
        }
        Ok(committed(Kind::Signature, &statement.id, commitment))
    }

    fn commit_equality(
        statement: &EqualityStatement,
        _credentials: &OrderedMap<Credential>,
    ) -> CredxResult<PlainBuilder> {
        Ok(PlainBuilder { kind: Kind::Equality, id: statement.id.clone(), commitment: vec![] })
    }

    fn commit_membership(
        statement: &AccumulatorSetMembershipStatement,
        credential: &Credential,
        message: ProofMessage,
        nonce: &[u8],
    ) -> CredxResult<Committed<PlainBuilder>> {
        let commitment = [&credential.revocation_handle[..], &spelled(&message), nonce].concat();
        Ok(committed(Kind::Membership, &statement.id, commitment))
    }

    fn commit_commitment(
        statement: &CommitmentStatement,
        message: Scalar,
        blinder: Scalar,
    ) -> CredxResult<Committed<PlainBuilder>> {
        if statement.parameters == [0xff] {
            return Err(refused("no generators"));
        }
        let commitment = [&message.bytes[..], &blinder.bytes[..]].concat();
        Ok(committed(Kind::Commitment, &statement.id, commitment))
    }

    fn commit_encryption(
        statement: &VerifiableEncryptionStatement,
        message: Scalar,
        blinder: Scalar,
    ) -> CredxResult<Committed<PlainBuilder>> {
        let commitment = [&blinder.bytes[..], &message.bytes[..]].concat();
        Ok(committed(Kind::Encryption, &statement.id, commitment))
    }

    fn commit_range(
        statement: &RangeStatement,
        commitment: &PlainBuilder,
        value: isize,
        transcript: &Transcript,
    ) -> CredxResult<Committed<PlainBuilder>> {
        let own = draw(transcript.clone());
        let commitment =
            [&commitment.commitment[..], &value.to_le_bytes(), &own.bytes[..]].concat();
        Ok(committed(Kind::Range, &statement.id, commitment))
    }

    fn signature_contribution(
        _statement: &SignatureStatement,
        proof: &StatementProof,
        _challenge: Scalar,
    ) -> CredxResult<Vec<Contribution>> {
        contributed(proof)
    }

    fn membership_contribution(
        _statement: &AccumulatorSetMembershipStatement,
        proof: &StatementProof,
        _nonce: &[u8],
        _challenge: Scalar,
    ) -> CredxResult<Vec<Contribution>> {
        contributed(proof)
    }

    fn equality_contribution(
        _statement: &EqualityStatement,
        _schema: &PresentationSchema,
        _proofs: &OrderedMap<PresentationProofs>,
        _challenge: Scalar,
    ) -> CredxResult<Vec<Contribution>> {
        Ok(vec![])
    }

    fn commitment_contribution(
        _statement: &CommitmentStatement,
        proof: &StatementProof,
        _challenge: Scalar,
    ) -> CredxResult<Vec<Contribution>> {
        contributed(proof)
    }

    fn encryption_contribution(
        _statement: &VerifiableEncryptionStatement,
        proof: &StatementProof,
        _challenge: Scalar,
    ) -> CredxResult<Vec<Contribution>> {
        contributed(proof)
    }

    fn verify_signature(
        _statement: &SignatureStatement,
        proof: &StatementProof,
        challenge: Scalar,
    ) -> CredxResult<()> {
        checked(proof, challenge)
    }

    fn verify_membership(
        _statement: &AccumulatorSetMembershipStatement,
        proof: &StatementProof,
        _nonce: &[u8],
        challenge: Scalar,
    ) -> CredxResult<()> {
        checked(proof, challenge)
    }

    fn verify_equality(
        statement: &EqualityStatement,
        _schema: &PresentationSchema,
        proofs: &OrderedMap<PresentationProofs>,
        challenge: Scalar,
    ) -> CredxResult<()> {
        match proofs.get(&statement.id) {
            Some(PresentationProofs::Equality(proof)) => checked(proof, challenge),
            _ => Err(refused("no equality")),
        }
    }

    fn verify_commitment(
        _statement: &CommitmentStatement,
        proof: &StatementProof,
        challenge: Scalar,
    ) -> CredxResult<()> {
        checked(proof, challenge)
    }

    fn verify_encryption(
        _statement: &VerifiableEncryptionStatement,
        proof: &StatementProof,
        challenge: Scalar,
    ) -> CredxResult<()> {
        checked(proof, challenge)
    }
}

const NONCE: &[u8] = b"nonce of the verifier";

fn scalar(n: u8) -> Scalar {
    let mut bytes = [0u8; 32];
    bytes[0] = n;
    Scalar { bytes }
}

fn claim(n: u8) -> ClaimData {
    ClaimData::Other(vec![n, n])
}

fn number(n: u8) -> ClaimData {
    ClaimData::Number(NumberClaim { value: n as isize })
}

fn number_bytes(n: u8) -> Vec<u8> {
    (n as isize).to_le_bytes().to_vec()
}

fn content(claim: &ClaimData) -> Vec<u8> {
    match claim {
        ClaimData::Number(n) => n.value.to_le_bytes().to_vec(),
        ClaimData::Other(content) => content.clone(),
    }
}

fn credential(first: u8) -> Credential {
    Credential {
        claims: vec![claim(first), number(first + 1), claim(first + 2)],
        signature: vec![0xaa, first],
        revocation_handle: vec![0xbb, first],
    }
}

/// A signature statement over the claims "link", "age" and "name".
fn signature(id: &str, disclosed: &[&str]) -> Statements {
    let mut claim_indices = OrderedMap::new();
    claim_indices.insert("link".to_string(), 0);
    claim_indices.insert("age".to_string(), 1);
    claim_indices.insert("name".to_string(), 2);
    let mut labels = OrderedMap::new();
    for label in disclosed {
        labels.insert(label.to_string(), ());
    }
    Statements::Signature(SignatureStatement {
        id: id.to_string(),
        scheme: SignatureScheme::BBS,
        issuer: Issuer { schema: CredentialSchema { claim_indices }, public_key: vec![] },
        disclosed: labels,
    })
}

fn equality(id: &str, references: &[(&str, usize)]) -> Statements {
    let mut ref_id_claim_index = OrderedMap::new();
    for (reference, index) in references {
        ref_id_claim_index.insert(reference.to_string(), *index);
    }
    Statements::Equality(EqualityStatement { id: id.to_string(), ref_id_claim_index })
}

fn membership(id: &str, reference: &str, claim: usize) -> Statements {
    Statements::AccumulatorSetMembership(AccumulatorSetMembershipStatement {
        id: id.to_string(),
        reference_id: reference.to_string(),
        claim,
        parameters: vec![],
    })
}

fn commitment(id: &str, reference: &str, claim: usize) -> Statements {
    Statements::Commitment(CommitmentStatement {
        id: id.to_string(),
        reference_id: reference.to_string(),
        claim,
        parameters: vec![],
    })
}

fn encryption(id: &str, reference: &str, claim: usize) -> Statements {
    Statements::VerifiableEncryption(VerifiableEncryptionStatement {
        id: id.to_string(),
        reference_id: reference.to_string(),
        claim,
        parameters: vec![],
    })
}

fn range(id: &str, reference: &str, signature: &str, claim: usize) -> Statements {
    Statements::Range(RangeStatement {
        id: id.to_string(),
        reference_id: reference.to_string(),
        signature_id: signature.to_string(),
        claim,
        parameters: vec![],
    })
}

fn schema(statements: Vec<(&str, Statements)>) -> PresentationSchema {
    let mut map = OrderedMap::new();
    for (id, statement) in statements {
        map.insert(id.to_string(), statement);
    }
    PresentationSchema { statements: map }
}

fn credentials(ids: &[(&str, u8)]) -> OrderedMap<Credential> {
    let mut map = OrderedMap::new();
    for (id, first) in ids {
        map.insert(id.to_string(), credential(*first));
    }
    map
}

fn all_kinds() -> PresentationSchema {
    schema(vec![
        ("s1", signature("s1", &["name"])),
        ("s2", signature("s2", &[])),
        ("a", membership("a", "s1", 1)),
        ("c", commitment("c", "s2", 1)),
        ("e", equality("e", &[("s1", 0), ("s2", 0)])),
        ("v", encryption("v", "s2", 2)),
    ])
}

fn held() -> OrderedMap<Credential> {
    credentials(&[("s1", 10), ("s2", 20)])
}

fn body(presentation: &Presentation, id: &str) -> Vec<u8> {
    match presentation.proofs.get(id).unwrap() {
        PresentationProofs::Signature(p)
        | PresentationProofs::AccumulatorSetMembership(p)
        | PresentationProofs::Equality(p)
        | PresentationProofs::Commitment(p)
        | PresentationProofs::VerifiableEncryption(p)
        | PresentationProofs::Range(p) => p.body.clone(),
    }
}

fn committed_in(presentation: &Presentation, id: &str) -> Vec<u8> {
    let body = body(presentation, id);
    body[..body.len() - 32].to_vec()
}

/// What is bound before any statement, appended call by call.
fn opening(schema: &PresentationSchema, nonce: &[u8]) -> Transcript {
    let mut transcript = Transcript::new(b"credx presentation");
    transcript.append_message(b"curve name", b"BLS12-381");
    transcript.append_message(b"curve G1 generator", &G1Affine::generator().to_compressed());
    transcript.append_message(b"curve G2 generator", &G2Affine::generator().to_compressed());
    transcript.append_message(b"subgroup size", &SUBGROUP_SIZE);
    transcript.append_message(b"field modulus", &FIELD_MODULUS);
    transcript.append_message(b"nonce", nonce);
    for i in 0..schema.statements.len() {
        transcript.append_message(b"plain statement", schema.statements.key_at(i).as_bytes());
    }
    transcript
}

fn bind_disclosed(transcript: &mut Transcript, id: &str, claims: &[(&str, Vec<u8>, Scalar)]) {
    transcript.append_message(b"disclosed messages from statement ", id.as_bytes());
    transcript.append_message(b"disclosed messages length", &Uint::from(claims.len()).to_vec());
    for (i, (label, bytes, scalar)) in claims.iter().enumerate() {
        transcript.append_message(b"disclosed message label", label.as_bytes());
        transcript.append_message(b"disclosed message index", &Uint::from(i).to_vec());
        transcript.append_message(b"disclosed message value", bytes);
        transcript.append_message(b"disclosed message scalar", &scalar.bytes);
    }
}

fn draw(mut transcript: Transcript) -> Scalar {
    let mut okm = [0u8; 64];
    transcript.challenge_bytes(b"challenge bytes", &mut okm);
    Scalar { bytes: bls12_381_plus::Scalar::from_bytes_wide(&okm).to_bytes() }
}

#[test]
fn made_presentations_are_accepted() {
    let schema = all_kinds();
    let presentation = Presentation::create::<Plain>(&held(), &schema, NONCE).unwrap();
    assert_eq!(presentation.verify::<Plain>(&schema, NONCE), Ok(()));
    assert_eq!(presentation.proofs.len(), 6);
    for i in 0..presentation.proofs.len() {
        assert_eq!(presentation.proofs.key_at(i), presentation.proofs.value_at(i).id());
    }
    assert!(matches!(presentation.proofs.get("s1"), Some(PresentationProofs::Signature(_))));
    assert!(matches!(presentation.proofs.get("e"), Some(PresentationProofs::Equality(_))));
    assert!(matches!(presentation.proofs.get("c"), Some(PresentationProofs::Commitment(_))));
    assert!(matches!(
        presentation.proofs.get("a"),
        Some(PresentationProofs::AccumulatorSetMembership(_))
    ));
    assert!(matches!(
        presentation.proofs.get("v"),
        Some(PresentationProofs::VerifiableEncryption(_))
    ));
}

#[test]
fn clones_of_presentations_are_accepted_too() {
    let schema = all_kinds();
    let presentation = Presentation::create::<Plain>(&held(), &schema, NONCE).unwrap();
    let copy = presentation.clone();
    assert_eq!(format!("{:?}", copy), format!("{:?}", presentation));
    assert_eq!(copy.verify::<Plain>(&schema, NONCE), Ok(()));
}

#[test]
fn the_empty_schema_has_no_presentation() {
    let schema = schema(vec![]);
    assert_eq!(
        Presentation::create::<Plain>(&credentials(&[]), &schema, b"").err(),
        Some(Error::InvalidPresentationData)
    );
}

#[test]
fn the_challenge_is_drawn_from_all_that_is_bound() {
    let schema = all_kinds();
    let presentation = Presentation::create::<Plain>(&held(), &schema, NONCE).unwrap();
    let mut transcript = opening(&schema, NONCE);
    bind_disclosed(&mut transcript, "s1", &[("name", vec![12, 12], scalar(12))]);
    transcript.append_message(b"plain commitment", &committed_in(&presentation, "s1"));
    bind_disclosed(&mut transcript, "s2", &[]);
    transcript.append_message(b"plain commitment", &committed_in(&presentation, "s2"));
    for id in ["a", "c", "v"] {
        transcript.append_message(b"plain commitment", &committed_in(&presentation, id));
    }
    assert_eq!(presentation.challenge, draw(transcript));
}

#[test]
fn several_disclosed_claims_are_bound_in_order_of_their_labels() {
    let schema = schema(vec![("s1", signature("s1", &["name", "link", "age"]))]);
    let held = credentials(&[("s1", 10)]);
    let presentation = Presentation::create::<Plain>(&held, &schema, NONCE).unwrap();
    let mut transcript = opening(&schema, NONCE);
    bind_disclosed(
        &mut transcript,
        "s1",
        &[
            ("age", number_bytes(11), scalar(11)),
            ("link", vec![10, 10], scalar(10)),
            ("name", vec![12, 12], scalar(12)),
        ],
    );
    transcript.append_message(b"plain commitment", &committed_in(&presentation, "s1"));
    assert_eq!(presentation.challenge, draw(transcript));
}

#[test]
fn numbers_of_more_than_one_byte_are_bound_in_groups_of_seven_bits() {
    // 300 claims, all disclosed: their number and most of their indices take two bytes.
    let mut claim_indices = OrderedMap::new();
    let mut labels = OrderedMap::new();
    let mut claims = Vec::new();
    let mut shown: Vec<(String, Vec<u8>, Scalar)> = Vec::new();
    for i in 0..300usize {
        let label = format!("claim {:03}", i);
        claim_indices.insert(label.clone(), i);
        labels.insert(label.clone(), ());
        claims.push(claim(i as u8));
        shown.push((label, vec![i as u8, i as u8], scalar(i as u8)));
    }
    let statement = Statements::Signature(SignatureStatement {
        id: "s".to_string(),
        scheme: SignatureScheme::PS,
        issuer: Issuer { schema: CredentialSchema { claim_indices }, public_key: vec![] },
        disclosed: labels,
    });
    let schema = schema(vec![("s", statement)]);
    let mut held = OrderedMap::new();
    held.insert(
        "s".to_string(),
        Credential { claims, signature: vec![1], revocation_handle: vec![] },
    );
    let presentation = Presentation::create::<Plain>(&held, &schema, NONCE).unwrap();
    assert_eq!(Uint::from(300usize).to_vec(), vec![0xac, 0x02]);
    let mut transcript = opening(&schema, NONCE);
    let shown: Vec<(&str, Vec<u8>, Scalar)> =
        shown.iter().map(|(l, b, s)| (l.as_str(), b.clone(), *s)).collect();
    bind_disclosed(&mut transcript, "s", &shown);
    transcript.append_message(b"plain commitment", &committed_in(&presentation, "s"));
    assert_eq!(presentation.challenge, draw(transcript));
    assert_eq!(presentation.verify::<Plain>(&schema, NONCE), Ok(()));
}

#[test]
fn exactly_the_claims_that_are_asked_for_are_disclosed() {
    let schema = schema(vec![
        ("s1", signature("s1", &["name", "unknown"])),
        ("s2", signature("s2", &["age", "link"])),
    ]);
    let presentation = Presentation::create::<Plain>(&held(), &schema, NONCE).unwrap();
    assert_eq!(presentation.disclosed_messages.len(), 2);
    let first = presentation.disclosed_messages.get("s1").unwrap();
    assert_eq!(first.len(), 1);
    assert_eq!(content(first.get("name").unwrap()), vec![12, 12]);
    let second = presentation.disclosed_messages.get("s2").unwrap();
    assert_eq!(second.len(), 2);
    assert_eq!(content(second.get("age").unwrap()), number_bytes(21));
    assert_eq!(content(second.get("link").unwrap()), vec![20, 20]);
}

#[test]
fn another_nonce_is_refused() {
    let schema = all_kinds();
    let presentation = Presentation::create::<Plain>(&held(), &schema, NONCE).unwrap();
    assert_eq!(
        presentation.verify::<Plain>(&schema, b"another nonce"),
        Err(Error::InvalidPresentationData)
    );
}

#[test]
fn other_disclosed_claims_are_refused() {
    let schema = all_kinds();
    let mut presentation = Presentation::create::<Plain>(&held(), &schema, NONCE).unwrap();
    let mut shown = OrderedMap::new();
    shown.insert("name".to_string(), claim(13));
    presentation.disclosed_messages.insert("s1".to_string(), shown);
    assert_eq!(
        presentation.verify::<Plain>(&schema, NONCE),
        Err(Error::InvalidPresentationData)
    );
}

#[test]
fn claims_that_are_not_disclosed_by_the_proof_are_refused() {
    let schema = all_kinds();
    let mut presentation = Presentation::create::<Plain>(&held(), &schema, NONCE).unwrap();
    presentation.disclosed_messages.insert("s1".to_string(), OrderedMap::new());
    assert_eq!(
        presentation.verify::<Plain>(&schema, NONCE),
        Err(Error::InvalidPresentationData)
    );
}

#[test]
fn another_challenge_is_refused() {
    let schema = all_kinds();
    let mut presentation = Presentation::create::<Plain>(&held(), &schema, NONCE).unwrap();
    presentation.challenge.bytes[0] ^= 1;
    assert_eq!(
        presentation.verify::<Plain>(&schema, NONCE),
        Err(Error::InvalidPresentationData)
    );
}

#[test]
fn a_challenge_above_the_order_of_the_field_is_refused() {
    // The challenge plus the order of the field spells another number, and so is not accepted.
    let schema = all_kinds();
    let mut presentation = Presentation::create::<Plain>(&held(), &schema, NONCE).unwrap();
    let mut carry = 0u16;
    for i in 0..32 {
        let sum = presentation.challenge.bytes[i] as u16 + SUBGROUP_SIZE[31 - i] as u16 + carry;
        presentation.challenge.bytes[i] = sum as u8;
        carry = sum >> 8;
    }
    assert_eq!(carry, 0);
    assert_eq!(
        presentation.verify::<Plain>(&schema, NONCE),
        Err(Error::InvalidPresentationData)
    );
}

#[test]
fn another_disclosed_number_is_refused() {
    let schema = schema(vec![("s1", signature("s1", &["age"]))]);
    let held = credentials(&[("s1", 17)]);
    let mut presentation = Presentation::create::<Plain>(&held, &schema, NONCE).unwrap();
    assert_eq!(presentation.verify::<Plain>(&schema, NONCE), Ok(()));
    let mut shown = OrderedMap::new();
    shown.insert("age".to_string(), number(81));
    presentation.disclosed_messages.insert("s1".to_string(), shown);
    assert_eq!(
        presentation.verify::<Plain>(&schema, NONCE),
        Err(Error::InvalidPresentationData)
    );
}

#[test]
fn what_the_schema_does_not_ask_for_is_not_read() {
    let schema = all_kinds();
    let mut presentation = Presentation::create::<Plain>(&held(), &schema, NONCE).unwrap();
    let mut shown = OrderedMap::new();
    shown.insert("name".to_string(), claim(99));
    presentation.disclosed_messages.insert("another".to_string(), shown);
    let proof = StatementProof { id: "another".to_string(), body: vec![] };
    presentation.proofs.insert("another".to_string(), PresentationProofs::Range(proof));
    assert_eq!(presentation.verify::<Plain>(&schema, NONCE), Ok(()));
}

#[test]
fn undisclosed_claims_leave_no_trace() {
    let schema = all_kinds();
    let a = Presentation::create::<Plain>(&held(), &schema, NONCE).unwrap();
    // The same "name" in the first credential; all else differs.
    let mut others = credentials(&[("s2", 70)]);
    let mut first = credential(50);
    first.claims[2] = claim(12);
    others.insert("s1".to_string(), first);
    let b = Presentation::create::<Plain>(&others, &schema, b"another nonce").unwrap();
    assert_eq!(format!("{:?}", a.disclosed_messages), format!("{:?}", b.disclosed_messages));
    let ids = |p: &Presentation| -> Vec<String> {
        (0..p.proofs.len()).map(|i| p.proofs.key_at(i).clone()).collect()
    };
    assert_eq!(ids(&a), ids(&b));
    assert_ne!(committed_in(&a, "s1"), committed_in(&b, "s1"));
}

#[test]
fn presentations_of_which_nothing_is_known_can_be_verified() {
    let schema = all_kinds();
    let mut presentation = Presentation::create::<Plain>(&held(), &schema, NONCE).unwrap();
    assert_eq!(presentation.verify_untrusted::<Plain>(&schema, NONCE), Some(Ok(())));
    assert_eq!(
        presentation.verify_untrusted::<Plain>(&schema, b"another nonce"),
        Some(Err(Error::InvalidPresentationData))
    );
    presentation.disclosed_messages = OrderedMap::new();
    assert_eq!(presentation.verify_untrusted::<Plain>(&schema, NONCE), None);
    // Without a proof of the signature the disclosed claims are not looked for.
    presentation.proofs = OrderedMap::new();
    assert_eq!(
        presentation.verify_untrusted::<Plain>(&schema, NONCE),
        Some(Err(Error::InvalidPresentationData))
    );
}

#[test]
fn a_missing_signature_proof_is_refused() {
    let schema = schema(vec![("s1", signature("s1", &[]))]);
    let presentation = Presentation {
        proofs: OrderedMap::new(),
        challenge: draw(opening(&schema, NONCE)),
        disclosed_messages: OrderedMap::new(),
    };
    assert_eq!(
        presentation.verify::<Plain>(&schema, NONCE),
        Err(Error::InvalidPresentationData)
    );
}

#[test]
fn a_missing_proof_of_a_predicate_is_refused() {
    for statement in [
        membership("p", "s1", 0),
        commitment("p", "s1", 0),
        equality("p", &[("s1", 0)]),
        encryption("p", "s1", 0),
    ] {
        let schema = schema(vec![("p", statement)]);
        let presentation = Presentation {
            proofs: OrderedMap::new(),
            challenge: draw(opening(&schema, NONCE)),
            disclosed_messages: OrderedMap::new(),
        };
        assert_eq!(
            presentation.verify::<Plain>(&schema, NONCE),
            Err(Error::InvalidPresentationData)
        );
    }
}

#[test]
fn a_proof_of_another_kind_is_refused_for_a_predicate() {
    let schema = schema(vec![("p", membership("p", "s1", 0))]);
    let mut proofs = OrderedMap::new();
    let proof = StatementProof { id: "p".to_string(), body: vec![0; 32] };
    proofs.insert("p".to_string(), PresentationProofs::Commitment(proof));
    let presentation = Presentation {
        proofs,
        challenge: draw(opening(&schema, NONCE)),
        disclosed_messages: OrderedMap::new(),
    };
    assert_eq!(
        presentation.verify::<Plain>(&schema, NONCE),
        Err(Error::InvalidPresentationData)
    );
}

#[test]
fn a_proof_of_another_kind_is_refused_for_a_signature() {
    let schema = schema(vec![("s1", signature("s1", &[]))]);
    let mut proofs = OrderedMap::new();
    let proof = StatementProof { id: "s1".to_string(), body: vec![] };
    proofs.insert("s1".to_string(), PresentationProofs::Commitment(proof));
    let presentation = Presentation {
        proofs,
        challenge: draw(opening(&schema, NONCE)),
        disclosed_messages: OrderedMap::new(),
    };
    assert_eq!(
        presentation.verify::<Plain>(&schema, NONCE),
        Err(Error::InvalidPresentationData)
    );
}

#[test]
fn range_statements_are_never_accepted() {
    let schema = schema(vec![("r", range("r", "c", "s1", 1))]);
    let mut proofs = OrderedMap::new();
    let proof = StatementProof { id: "r".to_string(), body: vec![0; 32] };
    proofs.insert("r".to_string(), PresentationProofs::Range(proof));
    let presentation = Presentation {
        proofs,
        challenge: draw(opening(&schema, NONCE)),
        disclosed_messages: OrderedMap::new(),
    };
    assert_eq!(
        presentation.verify::<Plain>(&schema, NONCE),
        Err(Error::InvalidPresentationData)
    );
}

#[test]
fn what_the_suite_refuses_is_not_accepted() {
    let schema = schema(vec![("c", commitment("c", "s1", 0))]);
    let with_body = |body: Vec<u8>, challenge: Scalar| {
        let mut proofs = OrderedMap::new();
        let proof = StatementProof { id: "c".to_string(), body };
        proofs.insert("c".to_string(), PresentationProofs::Commitment(proof));
        Presentation { proofs, challenge, disclosed_messages: OrderedMap::new() }
    };
    // Refused when asked what the proof contributes, before the challenge is looked at.
    let short = with_body(vec![1], Scalar::zero());
    assert_eq!(short.verify::<Plain>(&schema, NONCE), Err(refused("too short")));
    // Refused as a proof, after the challenge agrees.
    let mut transcript = opening(&schema, NONCE);
    transcript.append_message(b"plain commitment", &[7]);
    let challenge = draw(transcript);
    let stale = with_body([vec![7], vec![0; 32]].concat(), challenge);
    assert_eq!(stale.verify::<Plain>(&schema, NONCE), Err(refused("stale")));
    let fresh = with_body([vec![7], challenge.bytes.to_vec()].concat(), challenge);
    assert_eq!(fresh.verify::<Plain>(&schema, NONCE), Ok(()));
}

#[test]
fn credentials_must_be_those_of_the_signature_statements() {
    let schema = all_kinds();
    for ids in [
        vec![],
        vec![("s1", 10)],
        vec![("s1", 10), ("s3", 20)],
        vec![("s1", 10), ("s2", 20), ("s3", 30)],
    ] {
        assert_eq!(
            Presentation::create::<Plain>(&credentials(&ids), &schema, NONCE).err(),
            Some(Error::InvalidPresentationData)
        );
    }
}

#[test]
fn references_must_resolve() {
    for statement in [
        commitment("p", "nobody", 0),
        commitment("p", "s1", 3),
        membership("p", "s1", usize::MAX),
        equality("p", &[("s1", 0), ("s2", 3)]),
        equality("p", &[("s1", 0), ("nobody", 0)]),
        encryption("p", "s2", 4),
        range("p", "s1", "s1", 3),
    ] {
        let schema = schema(vec![
            ("s1", signature("s1", &[])),
            ("s2", signature("s2", &[])),
            ("p", statement),
        ]);
        assert_eq!(
            Presentation::create::<Plain>(&held(), &schema, NONCE).err(),
            Some(Error::InvalidPresentationData)
        );
    }
}

#[test]
fn statements_about_one_claim_must_be_about_a_claim_of_a_credential() {
    for statement in [membership("p", "q", 0), commitment("p", "q", 0), encryption("p", "q", 0)] {
        let schema = schema(vec![
            ("s1", signature("s1", &[])),
            ("s2", signature("s2", &[])),
            ("p", statement),
            ("q", commitment("q", "s1", 0)),
        ]);
        assert_eq!(
            Presentation::create::<Plain>(&held(), &schema, NONCE).err(),
            Some(Error::InvalidPresentationData)
        );
    }
}

#[test]
fn what_comes_first_decides_the_error() {
    // The commitment to a revealed claim is met before the one to another statement, or after it.
    for (revealed, unsigned, error) in
        [("a", "b", Error::InvalidClaimData), ("b", "a", Error::InvalidPresentationData)]
    {
        let schema = schema(vec![
            ("s1", signature("s1", &["name"])),
            ("s2", signature("s2", &[])),
            (revealed, commitment(revealed, "s1", 2)),
            (unsigned, commitment(unsigned, revealed, 0)),
        ]);
        assert_eq!(
            Presentation::create::<Plain>(&held(), &schema, NONCE).err(),
            Some(error)
        );
    }
}

#[test]
fn presentations_of_what_nothing_is_known_of_can_be_made() {
    let schema_of = |statement: Statements| {
        schema(vec![
            ("s1", signature("s1", &["name"])),
            ("s2", signature("s2", &[])),
            ("p", statement),
            ("q", commitment("q", "s1", 0)),
        ])
    };
    let create = |schema: &PresentationSchema, held: &OrderedMap<Credential>| {
        Presentation::create_untrusted::<Plain>(held, schema, NONCE)
    };
    let fine = schema_of(commitment("p", "s2", 1));
    let presentation = create(&fine, &held()).unwrap().unwrap();
    assert_eq!(presentation.verify::<Plain>(&fine, NONCE), Ok(()));
    // What cannot be answered has its error.
    let lost = schema_of(commitment("p", "nobody", 1));
    assert_eq!(create(&lost, &held()).unwrap().err(), Some(Error::InvalidPresentationData));
    let fewer = credentials(&[("s1", 10)]);
    assert_eq!(create(&fine, &fewer).unwrap().err(), Some(Error::InvalidPresentationData));
    let revealed = schema_of(commitment("p", "s1", 2));
    assert_eq!(create(&revealed, &held()).unwrap().err(), Some(Error::InvalidClaimData));
    // A comparison with another statement, and a claim without a label, have nothing.
    let mixed = schema_of(equality("p", &[("s1", 0), ("q", 0)]));
    assert!(create(&mixed, &held()).is_none());
    let mut unlabelled = held();
    let mut longer = credential(20);
    longer.claims.push(claim(23));
    unlabelled.insert("s2".to_string(), longer);
    assert!(create(&fine, &unlabelled).is_none());
}

#[test]
fn nothing_is_proved_about_a_revealed_claim() {
    for statement in
        [membership("p", "s1", 2), commitment("p", "s1", 2), encryption("p", "s1", 2)]
    {
        let schema = schema(vec![
            ("s1", signature("s1", &["name"])),
            ("s2", signature("s2", &[])),
            ("p", statement),
        ]);
        assert_eq!(
            Presentation::create::<Plain>(&held(), &schema, NONCE).err(),
            Some(Error::InvalidClaimData)
        );
    }
}

#[test]
fn a_range_is_proved_next_to_the_commitment_that_it_refers_to() {
    let schema = schema(vec![
        ("s1", signature("s1", &[])),
        ("c", commitment("c", "s1", 1)),
        ("d", commitment("d", "s1", 0)),
        ("a range", range("a range", "c", "s1", 1)),
    ]);
    let presentation =
        Presentation::create::<Plain>(&credentials(&[("s1", 10)]), &schema, NONCE).unwrap();
    assert!(matches!(presentation.proofs.get("a range"), Some(PresentationProofs::Range(_))));
    // The range comes last, and its own challenge is drawn from all that is bound before it.
    let mut transcript = opening(&schema, NONCE);
    bind_disclosed(&mut transcript, "s1", &[]);
    for id in ["s1", "c", "d"] {
        transcript.append_message(b"plain commitment", &committed_in(&presentation, id));
    }
    let own = draw(transcript.clone());
    let ranged = committed_in(&presentation, "a range");
    let expected = [
        &committed_in(&presentation, "c")[..],
        &11isize.to_le_bytes(),
        &own.bytes[..],
    ]
    .concat();
    assert_eq!(ranged, expected);
    transcript.append_message(b"plain commitment", &ranged);
    assert_eq!(presentation.challenge, draw(transcript));
}

#[test]
fn a_range_needs_a_credential_a_commitment_and_a_number() {
    for statement in [
        range("r", "c", "nobody", 1),
        range("r", "s1", "s1", 1),
        range("r", "r2", "s1", 1),
        range("r", "v", "s1", 1),
        range("r", "c", "s1", 0),
        range("r", "c", "s1", 3),
    ] {
        let schema = schema(vec![
            ("s1", signature("s1", &[])),
            ("c", commitment("c", "s1", 1)),
            ("v", encryption("v", "s1", 1)),
            ("r", statement),
            ("r2", range("r2", "c", "s1", 1)),
        ]);
        assert_eq!(
            Presentation::create::<Plain>(&credentials(&[("s1", 10)]), &schema, NONCE).err(),
            Some(Error::InvalidPresentationData)
        );
    }
}

#[test]
fn what_the_suite_refuses_is_not_presented() {
    let schema_of = |parameters: Vec<u8>| {
        schema(vec![
            ("s1", signature("s1", &[])),
            (
                "c",
                Statements::Commitment(CommitmentStatement {
                    id: "c".to_string(),
                    reference_id: "s1".to_string(),
                    claim: 0,
                    parameters,
                }),
            ),
        ])
    };
    let held = credentials(&[("s1", 10)]);
    assert!(Presentation::create::<Plain>(&held, &schema_of(vec![]), NONCE).is_ok());
    assert_eq!(
        Presentation::create::<Plain>(&held, &schema_of(vec![0xff]), NONCE).err(),
        Some(refused("no generators"))
    );
    let mut unsigned = OrderedMap::new();
    let mut one = credential(10);
    one.signature = vec![];
    unsigned.insert("s1".to_string(), one);
    assert_eq!(
        Presentation::create::<Plain>(&unsigned, &schema_of(vec![0xff]), NONCE).err(),
        Some(refused("no signature"))
    );
}

#[test]
fn proofs_about_one_claim_share_its_blinder() {
    let schema = all_kinds();
    let presentation = Presentation::create::<Plain>(&held(), &schema, NONCE).unwrap();
    let first = committed_in(&presentation, "s1");
    let second = committed_in(&presentation, "s2");
    // Signature, then a shared message, a shared message, and a revealed one.
    assert_eq!(first.len(), 2 + 65 + 65 + 33);
    assert_eq!(second.len(), 2 + 65 + 65 + 65);
    let (link_1, age_1, name_1) = (&first[2..67], &first[67..132], &first[132..]);
    let (link_2, age_2, name_2) = (&second[2..67], &second[67..132], &second[132..]);
    assert_eq!(name_1, [&[0u8], &scalar(12).bytes[..]].concat());
    // The equality statement gives the second claim the message of the first.
    assert_eq!(link_1, link_2);
    assert_eq!(&link_1[..33], [&[2u8], &scalar(10).bytes[..]].concat());
    let commitment = committed_in(&presentation, "c");
    assert_eq!(commitment, &age_2[1..]);
    assert_eq!(&commitment[..32], &scalar(21).bytes);
    let encryption = committed_in(&presentation, "v");
    assert_eq!(&encryption[..32], &name_2[33..]);
    assert_eq!(&encryption[32..], &scalar(22).bytes);
    let membership = committed_in(&presentation, "a");
    assert_eq!(membership, [&[0xbb, 10], age_1, NONCE].concat());
    // Each claim has a blinder of its own, drawn anew for each presentation.
    assert_ne!(&age_1[33..], &age_2[33..]);
    assert_ne!(&link_1[33..], &age_1[33..]);
    let again = Presentation::create::<Plain>(&held(), &schema, NONCE).unwrap();
    assert_ne!(committed_in(&again, "s1"), first);
}

#[test]
fn a_hidden_claim_stays_hidden_whatever_it_is_compared_with() {
    for disclosing in ["s1", "s2"] {
        let asked = |id: &str| signature(id, if id == disclosing { &["link"] } else { &[] });
        let schema = schema(vec![
            ("s1", asked("s1")),
            ("s2", asked("s2")),
            ("e", equality("e", &[("s1", 0), ("s2", 0)])),
        ]);
        let presentation = Presentation::create::<Plain>(&held(), &schema, NONCE).unwrap();
        let first = committed_in(&presentation, "s1");
        let second = committed_in(&presentation, "s2");
        // Both take part with the message and the blinder of the first, and neither is disclosed.
        assert_eq!(&first[2..35], [&[2u8], &scalar(10).bytes[..]].concat());
        assert_eq!(&first[2..67], &second[2..67]);
        assert_ne!(&first[35..67], &Scalar::zero().bytes);
        assert_eq!(presentation.disclosed_messages.get("s1").unwrap().len(), 0);
        assert_eq!(presentation.disclosed_messages.get("s2").unwrap().len(), 0);
        assert_eq!(presentation.verify::<Plain>(&schema, NONCE), Ok(()));
    }
}

#[test]
fn compared_claims_are_disclosed_where_all_of_them_are_asked_for() {
    let schema = schema(vec![
        ("s1", signature("s1", &["link"])),
        ("s2", signature("s2", &["link"])),
        ("e", equality("e", &[("s1", 0), ("s2", 0)])),
    ]);
    let presentation = Presentation::create::<Plain>(&held(), &schema, NONCE).unwrap();
    let second = committed_in(&presentation, "s2");
    assert_eq!(&second[2..35], [&[0u8], &scalar(10).bytes[..]].concat());
    let shown = presentation.disclosed_messages.get("s1").unwrap();
    assert_eq!(content(shown.get("link").unwrap()), vec![10, 10]);
    let shown = presentation.disclosed_messages.get("s2").unwrap();
    assert_eq!(content(shown.get("link").unwrap()), vec![20, 20]);
}

#[test]
fn of_two_proofs_with_one_id_the_later_is_kept() {
    // Both statements bear the id "same", whatever the schema lists them under.
    let schema = schema(vec![
        ("s1", signature("s1", &[])),
        ("c1", commitment("same", "s1", 0)),
        ("c2", commitment("same", "s1", 1)),
    ]);
    let presentation =
        Presentation::create::<Plain>(&credentials(&[("s1", 10)]), &schema, NONCE).unwrap();
    assert_eq!(presentation.proofs.len(), 2);
    assert_eq!(&committed_in(&presentation, "same")[..32], &scalar(11).bytes);
}

#[test]
fn statements_are_parted_into_signatures_and_others() {
    let schema = all_kinds();
    let (signatures, predicates) = Presentation::split_statements(&schema);
    let signature_ids: Vec<&String> = (0..signatures.len()).map(|i| signatures.key_at(i)).collect();
    let predicate_ids: Vec<&String> = (0..predicates.len()).map(|i| predicates.key_at(i)).collect();
    assert_eq!(signature_ids, vec!["s1", "s2"]);
    assert_eq!(predicate_ids, vec!["a", "c", "e", "v"]);
    assert!(matches!(predicates.value_at(2), Statements::Equality(_)));
}

#[test]
fn referenced_claims_are_flagged() {
    let schema = all_kinds();
    let (_, predicates) = Presentation::split_statements(&schema);
    let flags = Presentation::referenced_claims(&held(), &predicates).unwrap();
    assert_eq!(flags.get("s1"), Some(&vec![true, true, false]));
    assert_eq!(flags.get("s2"), Some(&vec![true, true, true]));
    let none = Presentation::referenced_claims(&credentials(&[("s1", 10)]), &predicates);
    assert_eq!(none.err(), Some(Error::InvalidPresentationData));
}

/// The message types of three credentials under the statements, with blinders 101, 102 and so on.
fn assigned(statements: Vec<(&str, Statements)>) -> OrderedMap<Vec<ProofMessage>> {
    let held = credentials(&[("s1", 10), ("s2", 20), ("s3", 30)]);
    let schema = schema(statements);
    let (signatures, predicates) = Presentation::split_statements(&schema);
    let flags = Presentation::referenced_claims(&held, &predicates).unwrap();
    let mut scalars = OrderedMap::new();
    let mut blinders = OrderedMap::new();
    for (k, id) in ["s1", "s2", "s3"].iter().enumerate() {
        let own = (0..3).map(|i| scalar(10 + 10 * k as u8 + i)).collect();
        scalars.insert(id.to_string(), own);
        let own = (0..3).map(|i| scalar(101 + 3 * k as u8 + i)).collect();
        blinders.insert(id.to_string(), own);
    }
    Presentation::assign_message_types(
        &held,
        &signatures,
        &predicates,
        &flags,
        &scalars,
        &blinders,
    )
}

fn shared(message: u8, blinder: u8) -> ProofMessage {
    ProofMessage::Hidden(HiddenMessage::ExternalBlinding(scalar(message), scalar(blinder)))
}

fn own(message: u8) -> ProofMessage {
    ProofMessage::Hidden(HiddenMessage::ProofSpecificBlinding(scalar(message)))
}

#[test]
fn claims_take_part_as_the_statements_say() {
    let messages = assigned(vec![
        ("s1", signature("s1", &["name"])),
        ("s2", signature("s2", &[])),
        ("s3", signature("s3", &["link", "age", "name"])),
        ("c", commitment("c", "s2", 1)),
        ("d", commitment("d", "s1", 2)),
    ]);
    let revealed = |n: u8| ProofMessage::Revealed(scalar(n));
    assert_eq!(messages.get("s1"), Some(&vec![own(10), own(11), revealed(12)]));
    assert_eq!(messages.get("s2"), Some(&vec![own(20), shared(21, 105), own(22)]));
    assert_eq!(messages.get("s3"), Some(&vec![revealed(30), revealed(31), revealed(32)]));
}

#[test]
fn compared_claims_take_part_with_the_message_of_the_first() {
    let messages = assigned(vec![
        ("s1", signature("s1", &[])),
        ("s2", signature("s2", &[])),
        ("s3", signature("s3", &[])),
        ("e", equality("e", &[("s3", 0), ("s2", 1), ("s1", 2)])),
    ]);
    assert_eq!(messages.get("s1"), Some(&vec![own(10), own(11), shared(12, 103)]));
    assert_eq!(messages.get("s2"), Some(&vec![own(20), shared(12, 103), own(22)]));
    assert_eq!(messages.get("s3"), Some(&vec![shared(12, 103), own(31), own(32)]));
}

#[test]
fn overlapping_comparisons_share_one_message() {
    let messages = assigned(vec![
        ("s1", signature("s1", &[])),
        ("s2", signature("s2", &[])),
        ("s3", signature("s3", &[])),
        ("e1", equality("e1", &[("s2", 0), ("s3", 0)])),
        ("e2", equality("e2", &[("s1", 0), ("s2", 0)])),
    ]);
    assert_eq!(messages.get("s1").unwrap()[0], shared(10, 101));
    assert_eq!(messages.get("s2").unwrap()[0], shared(10, 101));
    assert_eq!(messages.get("s3").unwrap()[0], shared(10, 101));
}

#[test]
fn comparisons_link_claims_of_one_credential_too() {
    let messages = assigned(vec![
        ("s1", signature("s1", &[])),
        ("s2", signature("s2", &[])),
        ("s3", signature("s3", &[])),
        ("e1", equality("e1", &[("s2", 2), ("s3", 1)])),
        ("e2", equality("e2", &[("s1", 1), ("s2", 0)])),
        ("e3", equality("e3", &[("s2", 2), ("s1", 1)])),
        ("e4", equality("e4", &[("s3", 2), ("s2", 1)])),
    ]);
    assert_eq!(messages.get("s1"), Some(&vec![own(10), shared(11, 102), own(12)]));
    assert_eq!(
        messages.get("s2"),
        Some(&vec![shared(11, 102), shared(21, 105), shared(11, 102)])
    );
    assert_eq!(messages.get("s3"), Some(&vec![own(30), shared(11, 102), shared(21, 105)]));
}

#[test]
fn disclosed_claims_link_hidden_ones() {
    let messages = assigned(vec![
        ("s1", signature("s1", &[])),
        ("s2", signature("s2", &["link"])),
        ("s3", signature("s3", &[])),
        ("e1", equality("e1", &[("s1", 0), ("s2", 0)])),
        ("e2", equality("e2", &[("s2", 0), ("s3", 0)])),
    ]);
    assert_eq!(messages.get("s1"), Some(&vec![shared(10, 101), own(11), own(12)]));
    assert_eq!(messages.get("s2"), Some(&vec![shared(10, 101), own(21), own(22)]));
    assert_eq!(messages.get("s3"), Some(&vec![shared(10, 101), own(31), own(32)]));
}

#[test]
fn a_disclosed_first_claim_gives_its_message_to_hidden_ones() {
    let messages = assigned(vec![
        ("s1", signature("s1", &["link", "age"])),
        ("s2", signature("s2", &[])),
        ("s3", signature("s3", &["link"])),
        ("e", equality("e", &[("s1", 0), ("s2", 0), ("s3", 0)])),
    ]);
    let revealed = |n: u8| ProofMessage::Revealed(scalar(n));
    assert_eq!(messages.get("s1"), Some(&vec![shared(10, 101), revealed(11), own(12)]));
    assert_eq!(messages.get("s2"), Some(&vec![shared(10, 101), own(21), own(22)]));
    assert_eq!(messages.get("s3"), Some(&vec![shared(10, 101), own(31), own(32)]));
}

#[test]
fn disclosed_claims_are_revealed_with_the_message_of_the_first() {
    let messages = assigned(vec![
        ("s1", signature("s1", &["link"])),
        ("s2", signature("s2", &["link"])),
        ("s3", signature("s3", &["link"])),
        ("e1", equality("e1", &[("s1", 0), ("s2", 0)])),
        ("e2", equality("e2", &[("s2", 0), ("s3", 0)])),
    ]);
    for id in ["s1", "s2", "s3"] {
        assert_eq!(messages.get(id).unwrap()[0], ProofMessage::Revealed(scalar(10)));
    }
}

#[test]
fn a_statement_about_a_statement_changes_no_message() {
    let statements = || {
        vec![
            ("s1", signature("s1", &[])),
            ("s2", signature("s2", &[])),
            ("s3", signature("s3", &[])),
            ("c", commitment("c", "s1", 1)),
            ("e", equality("e", &[("s1", 1), ("s2", 1)])),
        ]
    };
    let mut more = statements();
    more.push(("r", range("r", "c", "s1", 2)));
    let (with, without) = (assigned(more), assigned(statements()));
    for id in ["s1", "s2", "s3"] {
        assert_eq!(with.get(id), without.get(id));
    }
}

#[test]
fn message_types_have_fresh_blinders() {
    let held = held();
    let schema = all_kinds();
    let (signatures, predicates) = Presentation::split_statements(&schema);
    let mut draws = Draws::new();
    let messages =
        Presentation::get_message_types::<Plain>(&held, &signatures, &predicates, &mut draws)
            .unwrap();
    let second = messages.get("s2").unwrap();
    assert_eq!(messages.get("s1").unwrap()[0], second[0]);
    assert_eq!(messages.get("s1").unwrap()[2], ProofMessage::Revealed(scalar(12)));
    let mut blinders: Vec<Scalar> =
        second.iter().map(|message| message.get_blinder(&mut draws).unwrap()).collect();
    blinders.push(messages.get("s1").unwrap()[1].get_blinder(&mut draws).unwrap());
    for (i, blinder) in blinders.iter().enumerate() {
        assert!(bool::from(bls12_381_plus::Scalar::from_bytes(&blinder.bytes).is_some()));
        assert_ne!(*blinder, Scalar::zero());
        assert!(!blinders[..i].contains(blinder));
    }
}

#[test]
fn presentations_can_share_a_source_of_blinders() {
    let schema = all_kinds();
    let mut draws = Draws::new();
    let a = Presentation::create_from::<Plain>(&held(), &schema, NONCE, &mut draws).unwrap();
    let b = Presentation::create_from::<Plain>(&held(), &schema, NONCE, &mut draws).unwrap();
    assert_eq!(a.verify::<Plain>(&schema, NONCE), Ok(()));
    assert_eq!(b.verify::<Plain>(&schema, NONCE), Ok(()));
    assert_ne!(committed_in(&a, "c"), committed_in(&b, "c"));
}

#[test]
fn message_types_need_references_that_resolve() {
    let held = held();
    let schema = schema(vec![
        ("s1", signature("s1", &[])),
        ("s2", signature("s2", &[])),
        ("p", commitment("p", "nobody", 0)),
    ]);
    let (signatures, predicates) = Presentation::split_statements(&schema);
    let mut draws = Draws::new();
    let messages =
        Presentation::get_message_types::<Plain>(&held, &signatures, &predicates, &mut draws);
    assert_eq!(messages.err(), Some(Error::InvalidPresentationData));
}

#[test]
fn revealed_claims_are_disclosed_under_their_labels() {
    let statement = match signature("s1", &[]) {
        Statements::Signature(s) => s,
        _ => unreachable!(),
    };
    let messages = vec![own(10), ProofMessage::Revealed(scalar(11)), own(12)];
    let shown = Presentation::disclosed_claims(&statement, &credential(10), &messages);
    assert_eq!(shown.len(), 1);
    assert_eq!(shown.key_at(0), "age");
    assert_eq!(content(shown.value_at(0)), number_bytes(11));
}

fn range_statement(claim: usize) -> RangeStatement {
    RangeStatement {
        id: "r".to_string(),
        reference_id: "c".to_string(),
        signature_id: "s1".to_string(),
        claim,
        parameters: vec![],
    }
}

fn builder(kind: Kind) -> PlainBuilder {
    PlainBuilder { kind, id: "c".to_string(), commitment: vec![5] }
}

#[test]
fn a_range_is_committed_to_next_to_a_commitment() {
    let next_to: PresentationBuilders<Plain> =
        PresentationBuilders::Commitment(builder(Kind::Commitment));
    let transcript = Transcript::new(b"test");
    let made =
        commit_range::<Plain>(&range_statement(1), &next_to, &credential(10), &transcript).unwrap();
    let own = draw(transcript);
    assert_eq!(
        made.builder.commitment,
        [&[5u8][..], &11isize.to_le_bytes(), &own.bytes[..]].concat()
    );
    assert_eq!(made.contributions.len(), 1);
}

#[test]
fn a_range_needs_a_commitment_and_a_number() {
    let next_to: PresentationBuilders<Plain> =
        PresentationBuilders::Commitment(builder(Kind::Commitment));
    let other: PresentationBuilders<Plain> =
        PresentationBuilders::Equality(builder(Kind::Equality));
    for (statement, next_to) in [
        (range_statement(0), &next_to),
        (range_statement(3), &next_to),
        (range_statement(1), &other),
    ] {
        assert_eq!(
            commit_range::<Plain>(&statement, next_to, &credential(10), &Transcript::new(b"test"))
                .err(),
            Some(Error::InvalidPresentationData)
        );
    }
}

#[test]
fn builders_of_every_kind_give_their_proofs() {
    let all: Vec<PresentationBuilders<Plain>> = vec![
        PresentationBuilders::Signature(builder(Kind::Signature)),
        PresentationBuilders::AccumulatorSetMembership(builder(Kind::Membership)),
        PresentationBuilders::Equality(builder(Kind::Equality)),
        PresentationBuilders::Commitment(builder(Kind::Commitment)),
        PresentationBuilders::VerifiableEncryption(builder(Kind::Encryption)),
        PresentationBuilders::Range(builder(Kind::Range)),
    ];
    let expected = [&[5u8][..], &scalar(9).bytes].concat();
    let mut kinds = Vec::new();
    for one in all {
        let (kind, proof) = match one.gen_proof(scalar(9)) {
            PresentationProofs::Signature(p) => ("signature", p),
            PresentationProofs::AccumulatorSetMembership(p) => ("membership", p),
            PresentationProofs::Equality(p) => ("equality", p),
            PresentationProofs::Commitment(p) => ("commitment", p),
            PresentationProofs::VerifiableEncryption(p) => ("encryption", p),
            PresentationProofs::Range(p) => ("range", p),
        };
        kinds.push(kind);
        assert_eq!(proof.id, "c");
        assert_eq!(proof.body, expected);
    }
    assert_eq!(
        kinds,
        vec!["signature", "membership", "equality", "commitment", "encryption", "range"]
    );
}
