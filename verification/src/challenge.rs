//! The challenge of a presentation: what is bound into it, and how it is drawn.
use vstd::prelude::*;
use vstd::utf8::encode_utf8;
use merlin::Transcript;
use crate::claim::{ClaimData, EncodingView};
use crate::ordered_map::OrderedMap;
use crate::presentation::Presentation;
use crate::scalar;
use crate::scalar::Scalar;
use crate::suite;
use crate::suite::ProofSuite;
use crate::transcript;
use crate::transcript::Contribution;

verus! {

/// The compressed generator of G1: its x-coordinate, most significant byte first, with the flags
/// of the encoding in the three highest bits.
pub const G1_GENERATOR: [u8; 48] = [
    0x97, 0xf1, 0xd3, 0xa7, 0x31, 0x97, 0xd7, 0x94, 0x26, 0x95, 0x63, 0x8c,
    0x4f, 0xa9, 0xac, 0x0f, 0xc3, 0x68, 0x8c, 0x4f, 0x97, 0x74, 0xb9, 0x05,
    0xa1, 0x4e, 0x3a, 0x3f, 0x17, 0x1b, 0xac, 0x58, 0x6c, 0x55, 0xe8, 0x3f,
    0xf9, 0x7a, 0x1a, 0xef, 0xfb, 0x3a, 0xf0, 0x0a, 0xdb, 0x22, 0xc6, 0xbb,
];

/// The compressed generator of G2: the two parts of its x-coordinate, most significant byte first,
/// with the flags of the encoding in the three highest bits.
pub const G2_GENERATOR: [u8; 96] = [
    0x93, 0xe0, 0x2b, 0x60, 0x52, 0x71, 0x9f, 0x60, 0x7d, 0xac, 0xd3, 0xa0,
    0x88, 0x27, 0x4f, 0x65, 0x59, 0x6b, 0xd0, 0xd0, 0x99, 0x20, 0xb6, 0x1a,
    0xb5, 0xda, 0x61, 0xbb, 0xdc, 0x7f, 0x50, 0x49, 0x33, 0x4c, 0xf1, 0x12,
    0x13, 0x94, 0x5d, 0x57, 0xe5, 0xac, 0x7d, 0x05, 0x5d, 0x04, 0x2b, 0x7e,
    0x02, 0x4a, 0xa2, 0xb2, 0xf0, 0x8f, 0x0a, 0x91, 0x26, 0x08, 0x05, 0x27,
    0x2d, 0xc5, 0x10, 0x51, 0xc6, 0xe4, 0x7a, 0xd4, 0xfa, 0x40, 0x3b, 0x02,
    0xb4, 0x51, 0x0b, 0x64, 0x7a, 0xe3, 0xd1, 0x77, 0x0b, 0xac, 0x03, 0x26,
    0xa8, 0x05, 0xbb, 0xef, 0xd4, 0x80, 0x56, 0xc8, 0xc1, 0x21, 0xbd, 0xb8,
];

/// The order of the scalar field, most significant byte first.
pub const SUBGROUP_SIZE: [u8; 32] = [
    0x73, 0xed, 0xa7, 0x53, 0x29, 0x9d, 0x7d, 0x48, 0x33, 0x39, 0xd8, 0x08,
    0x09, 0xa1, 0xd8, 0x05, 0x53, 0xbd, 0xa4, 0x02, 0xff, 0xfe, 0x5b, 0xfe,
    0xff, 0xff, 0xff, 0xff, 0x00, 0x00, 0x00, 0x01,
];

/// The order of the base field, most significant byte first.
pub const FIELD_MODULUS: [u8; 48] = [
    0x1a, 0x01, 0x11, 0xea, 0x39, 0x7f, 0xe6, 0x9a, 0x4b, 0x1b, 0xa7, 0xb6,
    0x43, 0x4b, 0xac, 0xd7, 0x64, 0x77, 0x4b, 0x84, 0xf3, 0x85, 0x12, 0xbf,
    0x67, 0x30, 0xd2, 0xa0, 0xf6, 0xb0, 0xf6, 0x24, 0x1e, 0xab, 0xff, 0xfe,
    0xb1, 0x53, 0xff, 0xff, 0xb9, 0xfe, 0xff, 0xff, 0xff, 0xff, 0xaa, 0xab,
];

/// The compressed generator of G1.
///
/// Calls `bls12_381_plus::G1Affine::generator` and writes the point with `to_compressed`.
#[verifier::external_body]
fn g1_generator() -> (r: [u8; 48])
    ensures
        r@ == G1_GENERATOR@,
{
    bls12_381_plus::G1Affine::generator().to_compressed()
}

/// The compressed generator of G2.
///
/// Calls `bls12_381_plus::G2Affine::generator` and writes the point with `to_compressed`.
#[verifier::external_body]
fn g2_generator() -> (r: [u8; 96])
    ensures
        r@ == G2_GENERATOR@,
{
    bls12_381_plus::G2Affine::generator().to_compressed()
}

/// What is bound of the curve.
pub open spec fn curve_log() -> Seq<(Seq<char>, Seq<u8>)> {
    seq![
        ("curve name"@, encode_utf8("BLS12-381"@)),
        ("curve G1 generator"@, G1_GENERATOR@),
        ("curve G2 generator"@, G2_GENERATOR@),
        ("subgroup size"@, SUBGROUP_SIZE@),
        ("field modulus"@, FIELD_MODULUS@),
    ]
}

/// What is bound before any statement: the application, the curve, the nonce and the schema.
pub open spec fn opening_log(nonce: Seq<u8>, schema: Seq<Contribution>) -> Seq<
    (Seq<char>, Seq<u8>),
> {
    seq![("dom-sep"@, encode_utf8("credx presentation"@))] + curve_log() + seq![("nonce"@, nonce)]
        + transcript::contributed(schema)
}

/// Labels with the encodings that the suite gives of the claims under them, in order.
pub open spec fn claims_encoded<S: ProofSuite>(
    claims: OrderedMap<ClaimData>,
    shown: Seq<(Seq<char>, EncodingView)>,
) -> bool {
    &&& shown.len() == claims.listing().len()
    &&& forall|i: int|
        0 <= i < shown.len() ==> (#[trigger] shown[i]).0 == claims.listing()[i].0
            && suite::encoded::<S>(claims.listing()[i].1, shown[i].1)
}

/// What is bound of the first `n` disclosed claims of a statement.
pub open spec fn claims_log(claims: Seq<(Seq<char>, EncodingView)>, n: int) -> Seq<
    (Seq<char>, Seq<u8>),
>
    decreases n,
{
    if n <= 0 {
        seq![]
    } else {
        claims_log(claims, n - 1) + seq![
            ("disclosed message label"@, encode_utf8(claims[n - 1].0)),
            ("disclosed message index"@, transcript::uint_bytes((n - 1) as nat)),
            ("disclosed message value"@, claims[n - 1].1.bytes),
            ("disclosed message scalar"@, claims[n - 1].1.scalar.bytes@),
        ]
    }
}

/// What is bound of the disclosed claims of a statement.
pub open spec fn disclosed_log(id: Seq<char>, claims: Seq<(Seq<char>, EncodingView)>) -> Seq<
    (Seq<char>, Seq<u8>),
> {
    seq![
        ("disclosed messages from statement "@, encode_utf8(id)),
        ("disclosed messages length"@, transcript::uint_bytes(claims.len())),
    ] + claims_log(claims, claims.len() as int)
}

/// The number that is drawn as the challenge from a transcript that holds `log`.
pub open spec fn challenge_value(log: Seq<(Seq<char>, Seq<u8>)>) -> nat {
    scalar::le_value(
        transcript::drawn_bytes(log, "challenge bytes"@, 64),
    ) % scalar::scalar_modulus()
}

/// A text is short enough for a transcript.
pub open spec fn text_fits(text: Seq<char>) -> bool {
    encode_utf8(text).len() <= u32::MAX
}

/// The labels of disclosed claims are short enough for a transcript.
pub open spec fn labels_fit(claims: OrderedMap<ClaimData>) -> bool {
    forall|i: int| 0 <= i < claims.listing().len() ==> text_fits((#[trigger] claims.listing()[i]).0)
}

/// A short text of ASCII characters fits.
proof fn lemma_ascii_fits(text: Seq<char>)
    requires
        vstd::utf8::is_ascii_chars(text),
        text.len() <= u32::MAX,
    ensures
        text_fits(text),
{
    vstd::utf8::is_ascii_chars_encode_utf8(text);
}

/// What is bound of the first claims does not depend on later ones.
proof fn lemma_claims_log_prefix(
    before: Seq<(Seq<char>, EncodingView)>,
    after: Seq<(Seq<char>, EncodingView)>,
    n: int,
)
    requires
        0 <= n <= before.len() <= after.len(),
        before =~= after.take(before.len() as int),
    ensures
        claims_log(before, n) == claims_log(after, n),
    decreases n,
{
    if n > 0 {
        lemma_claims_log_prefix(before, after, n - 1);
        assert(before[n - 1] == after[n - 1]);
    }
}

impl Presentation {
    /// Binds the curve.
    pub(crate) fn add_curve_parameters_challenge_contribution(transcript: &mut Transcript)
        ensures
            transcript::transcript_log(*final(transcript)) == transcript::transcript_log(
                *old(transcript),
            ) + curve_log(),
    {
        let ghost before = transcript::transcript_log(*transcript);
        proof {
            reveal_strlit("BLS12-381");
            lemma_ascii_fits("BLS12-381"@);
        }
        transcript::append_message(transcript, "curve name", "BLS12-381".as_bytes());
        transcript::append_message(transcript, "curve G1 generator", g1_generator().as_slice());
        transcript::append_message(transcript, "curve G2 generator", g2_generator().as_slice());
        transcript::append_message(transcript, "subgroup size", SUBGROUP_SIZE.as_slice());
        transcript::append_message(transcript, "field modulus", FIELD_MODULUS.as_slice());
        assert(transcript::transcript_log(*transcript) =~= before + curve_log());
    }

    /// Binds the disclosed claims of a statement, as the suite encodes them.
    pub(crate) fn add_disclosed_messages_challenge_contribution<S: ProofSuite>(
        id: &String,
        dm: &OrderedMap<ClaimData>,
        transcript: &mut Transcript,
    ) -> (r: Ghost<Seq<(Seq<char>, EncodingView)>>)
        requires
            text_fits(id@),
            labels_fit(*dm),
        ensures
            claims_encoded::<S>(*dm, r@),
            transcript::transcript_log(*final(transcript)) == transcript::transcript_log(
                *old(transcript),
            ) + disclosed_log(id@, r@),
    {
        let ghost before = transcript::transcript_log(*transcript);
        let ghost mut claims: Seq<(Seq<char>, EncodingView)> = seq![];
        let n = dm.len();
        let ghost head = seq![
            ("disclosed messages from statement "@, encode_utf8(id@)),
            ("disclosed messages length"@, transcript::uint_bytes(n as nat)),
        ];
        transcript::append_message(
            transcript,
            "disclosed messages from statement ",
            id.as_str().as_bytes(),
        );
        transcript::append_number(transcript, "disclosed messages length", n);
        let mut i: usize = 0;
        assert(transcript::transcript_log(*transcript) =~= before + head + claims_log(claims, 0));
        while i < n
            invariant
                n == dm.listing().len(),
                labels_fit(*dm),
                i <= n,
                claims.len() == i,
                forall|j: int|
                    0 <= j < i ==> (#[trigger] claims[j]).0 == dm.listing()[j].0
                        && suite::encoded::<S>(dm.listing()[j].1, claims[j].1),
                transcript::transcript_log(*transcript) == before + head + claims_log(
                    claims,
                    i as int,
                ),
            decreases n - i,
        {
            let label = dm.key_at(i);
            let encoding = S::encode_claim(dm.value_at(i));
            assert(dm.listing()[i as int].0 == label@);
            let ghost earlier = claims;
            proof {
                assert(suite::encoded::<S>(dm.listing()[i as int].1, encoding@));
                claims = claims.push((label@, encoding@));
                lemma_claims_log_prefix(earlier, claims, i as int);
            }
            transcript::append_message(
                transcript,
                "disclosed message label",
                label.as_str().as_bytes(),
            );
            transcript::append_number(transcript, "disclosed message index", i);
            transcript::append_message(
                transcript,
                "disclosed message value",
                encoding.to_bytes().as_slice(),
            );
            transcript::append_message(
                transcript,
                "disclosed message scalar",
                encoding.to_scalar().bytes.as_slice(),
            );
            assert(transcript::transcript_log(*transcript) =~= before + head + claims_log(
                claims,
                i + 1,
            ));
            i = i + 1;
        }
        assert(transcript::transcript_log(*transcript) =~= before + disclosed_log(id@, claims));
        Ghost(claims)
    }

    /// A transcript that holds what is bound before any statement.
    pub(crate) fn open_transcript(nonce: &[u8], schema: &Vec<Contribution>) -> (r: Transcript)
        requires
            nonce@.len() <= u32::MAX,
        ensures
            transcript::transcript_log(r) == opening_log(nonce@, schema@),
    {
        proof {
            reveal_strlit("credx presentation");
            lemma_ascii_fits("credx presentation"@);
        }
        let mut transcript = transcript::new_transcript("credx presentation");
        Self::add_curve_parameters_challenge_contribution(&mut transcript);
        transcript::append_message(&mut transcript, "nonce", nonce);
        transcript::append_contributions(&mut transcript, schema);
        assert(transcript::transcript_log(transcript) =~= opening_log(nonce@, schema@));
        transcript
    }

    /// Draws the challenge.
    pub(crate) fn draw_challenge(transcript: Transcript) -> (r: Scalar)
        ensures
            r.value() == challenge_value(transcript::transcript_log(transcript)),
    {
        let okm = transcript::challenge_bytes(transcript, "challenge bytes");
        Scalar::from_bytes_wide(&okm)
    }
}

} // verus!
