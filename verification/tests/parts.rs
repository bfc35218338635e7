use bls12_381_plus::{G1Affine, G2Affine};
use credx::challenge::{FIELD_MODULUS, G1_GENERATOR, G2_GENERATOR, SUBGROUP_SIZE};
use credx::claim::{ClaimData, ClaimEncoding, NumberClaim};
use credx::message::{HiddenMessage, ProofMessage};
use credx::ordered_map::OrderedMap;
use credx::proofs::{PresentationProofs, StatementProof};
use credx::scalar::{Draws, Scalar};
use credx::statement::{
    CredentialSchema, EqualityStatement, Issuer, RangeStatement, SignatureScheme,
    SignatureStatement, StatementType, Statements,
};

fn scalar(n: u8) -> Scalar {
    let mut bytes = [0u8; 32];
    bytes[0] = n;
    Scalar { bytes }
}

fn proof_of(id: &str) -> StatementProof {
    StatementProof { id: id.to_string(), body: vec![1, 2] }
}

#[test]
fn generators_are_those_of_the_curve() {
    assert_eq!(G1Affine::generator().to_compressed(), G1_GENERATOR);
    assert_eq!(G2Affine::generator().to_compressed(), G2_GENERATOR);
}

#[test]
fn moduli_are_those_of_the_curve() {
    // The greatest scalar is one below the order of the field.
    let mut greatest = (-bls12_381_plus::Scalar::one()).to_bytes();
    greatest.reverse();
    let mut size = SUBGROUP_SIZE;
    size[31] -= 1;
    assert_eq!(greatest, size);
    assert_eq!(FIELD_MODULUS[0], 0x1a);
    assert_eq!(FIELD_MODULUS[47], 0xab);
}

#[test]
fn scalars_are_the_same_where_all_bytes_are() {
    assert!(scalar(3).same(&scalar(3)));
    assert!(!scalar(3).same(&scalar(4)));
    let mut high = scalar(3);
    high.bytes[31] = 1;
    assert!(!scalar(3).same(&high));
    assert_eq!(Scalar::zero().bytes, [0u8; 32]);
}

#[test]
fn encodings_give_bytes_and_scalar() {
    let encoding = ClaimEncoding::new(vec![6, 7], scalar(6));
    assert_eq!(encoding.to_bytes(), &vec![6, 7]);
    assert_eq!(encoding.to_scalar(), scalar(6));
}

#[test]
fn clones_of_claims_say_the_same() {
    let number = ClaimData::Number(NumberClaim { value: -5 });
    let other = ClaimData::Other(vec![6, 7]);
    assert!(matches!(number.clone(), ClaimData::Number(n) if n.value == -5));
    assert!(matches!(other.clone(), ClaimData::Other(content) if content == vec![6, 7]));
}

#[test]
fn messages_give_message_and_blinder() {
    let revealed = ProofMessage::Revealed(scalar(1));
    let own = ProofMessage::Hidden(HiddenMessage::ProofSpecificBlinding(scalar(2)));
    let shared = ProofMessage::Hidden(HiddenMessage::ExternalBlinding(scalar(3), scalar(4)));
    assert!(revealed.is_revealed());
    assert!(!own.is_revealed());
    assert!(!shared.is_revealed());
    assert_eq!(revealed.get_message(), scalar(1));
    assert_eq!(own.get_message(), scalar(2));
    assert_eq!(shared.get_message(), scalar(3));
    let mut draws = Draws::new();
    assert_eq!(revealed.get_blinder(&mut draws), None);
    assert_eq!(shared.get_blinder(&mut draws), Some(scalar(4)));
}

#[test]
fn blinders_that_are_drawn_are_scalars_and_differ() {
    let own = ProofMessage::Hidden(HiddenMessage::ProofSpecificBlinding(scalar(2)));
    let mut draws = Draws::new();
    let a = own.get_blinder(&mut draws).unwrap();
    let b = own.get_blinder(&mut draws).unwrap();
    assert_ne!(a, b);
    assert_ne!(draws.draw(), b);
    assert!(bool::from(bls12_381_plus::Scalar::from_bytes(&a.bytes).is_some()));
    assert!(bool::from(bls12_381_plus::Scalar::from_bytes(&b.bytes).is_some()));
}

#[test]
fn proofs_tell_their_ids_and_clone() {
    let all = vec![
        PresentationProofs::Signature(proof_of("a")),
        PresentationProofs::AccumulatorSetMembership(proof_of("b")),
        PresentationProofs::Equality(proof_of("c")),
        PresentationProofs::Commitment(proof_of("d")),
        PresentationProofs::VerifiableEncryption(proof_of("e")),
        PresentationProofs::Range(proof_of("f")),
    ];
    let ids: Vec<&str> = all.iter().map(|p| p.id().as_str()).collect();
    assert_eq!(ids, vec!["a", "b", "c", "d", "e", "f"]);
    for p in &all {
        assert_eq!(format!("{:?}", p.clone()), format!("{:?}", p));
    }
}

#[test]
fn the_first_label_of_an_index_counts() {
    let mut claim_indices: OrderedMap<usize> = OrderedMap::new();
    claim_indices.insert("surname".to_string(), 1);
    claim_indices.insert("name".to_string(), 1);
    claim_indices.insert("age".to_string(), 0);
    let schema = CredentialSchema { claim_indices };
    assert_eq!(schema.claim_label(0).map(|l| l.as_str()), Some("age"));
    assert_eq!(schema.claim_label(1).map(|l| l.as_str()), Some("name"));
    assert_eq!(schema.claim_label(2), None);
}

#[test]
fn statements_tell_their_kind_and_what_they_refer_to() {
    let issuer = || Issuer {
        schema: CredentialSchema { claim_indices: OrderedMap::new() },
        public_key: vec![],
    };
    let ps = Statements::Signature(SignatureStatement {
        id: "s".to_string(),
        scheme: SignatureScheme::PS,
        issuer: issuer(),
        disclosed: OrderedMap::new(),
    });
    let bbs = Statements::Signature(SignatureStatement {
        id: "s".to_string(),
        scheme: SignatureScheme::BBS,
        issuer: issuer(),
        disclosed: OrderedMap::new(),
    });
    assert_eq!(ps.statement_type(), StatementType::PS);
    assert_eq!(bbs.statement_type(), StatementType::BBS);
    assert!(ps.reference_ids().is_empty());

    let mut ref_id_claim_index: OrderedMap<usize> = OrderedMap::new();
    ref_id_claim_index.insert("s2".to_string(), 5);
    ref_id_claim_index.insert("s1".to_string(), 4);
    let equality =
        Statements::Equality(EqualityStatement { id: "e".to_string(), ref_id_claim_index });
    assert_eq!(equality.statement_type(), StatementType::Equality);
    assert_eq!(equality.reference_ids(), vec!["s1", "s2"]);
    assert_eq!(equality.get_claim_index("s1"), 4);
    assert_eq!(equality.get_claim_index("s2"), 5);

    let range = Statements::Range(RangeStatement {
        id: "r".to_string(),
        reference_id: "c".to_string(),
        signature_id: "s1".to_string(),
        claim: 3,
        parameters: vec![],
    });
    assert_eq!(range.statement_type(), StatementType::Range);
    assert_eq!(range.reference_ids(), vec!["c"]);
    assert_eq!(range.get_claim_index("c"), 3);
}
