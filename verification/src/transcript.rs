//! The Fiat-Shamir transcript: what is bound into the challenge of a presentation.
use vstd::prelude::*;
use vstd::utf8::encode_utf8;
use merlin::Transcript;

verus! {

/// The declaration of `merlin::Transcript`.
#[verifier::external_type_specification]
#[verifier::external_body]
pub struct ExTranscript(merlin::Transcript);

/// What a transcript holds: the messages appended to it so far, each with its label, in order.
pub uninterp spec fn transcript_log(transcript: Transcript) -> Seq<(Seq<char>, Seq<u8>)>;

/// The bytes that `merlin::Transcript::challenge_bytes` draws, under `label` and `len` of them,
/// from a transcript that holds `log`.
pub uninterp spec fn drawn_bytes(
    log: Seq<(Seq<char>, Seq<u8>)>,
    label: Seq<char>,
    len: nat,
) -> Seq<u8>;

/// A transcript that holds nothing but the name of its application.
///
/// Calls `merlin::Transcript::new`, which appends the name as a message under the label "dom-sep".
/// A name of more than `u32::MAX` bytes makes it panic.
#[verifier::external_body]
pub(crate) fn new_transcript(name: &'static str) -> (r: Transcript)
    requires
        encode_utf8(name@).len() <= u32::MAX,
    ensures
        transcript_log(r) == seq![("dom-sep"@, encode_utf8(name@))],
{
    Transcript::new(name.as_bytes())
}

/// Appends a message.
///
/// Calls `merlin::Transcript::append_message`, which adds the message with its label behind all
/// that came before. A message of more than `u32::MAX` bytes makes it panic.
#[verifier::external_body]
pub(crate) fn append_message(transcript: &mut Transcript, label: &'static str, message: &[u8])
    requires
        message@.len() <= u32::MAX,
    ensures
        transcript_log(*final(transcript)) == transcript_log(*old(transcript)).push(
            (label@, message@),
        ),
{
    transcript.append_message(label.as_bytes(), message);
}

/// Draws 64 bytes and ends the transcript.
///
/// Calls `merlin::Transcript::challenge_bytes`. The bytes are a function of the messages, of the
/// label and of how many bytes are asked for.
#[verifier::external_body]
pub(crate) fn challenge_bytes(transcript: Transcript, label: &'static str) -> (r: [u8; 64])
    ensures
        r@ == drawn_bytes(transcript_log(transcript), label@, 64),
{
    let mut transcript = transcript;
    let mut bytes = [0u8; 64];
    transcript.challenge_bytes(label.as_bytes(), &mut bytes);
    bytes
}

/// A number in groups of seven bits, the least significant group first; every byte but the last
/// has its highest bit set.
pub open spec fn uint_bytes(n: nat) -> Seq<u8>
    decreases n,
{
    if n < 128 {
        seq![n as u8]
    } else {
        seq![(n % 128 + 128) as u8] + uint_bytes(n / 128)
    }
}

/// The variable-length encoding of a number.
///
/// Calls `uint_zigzag::Uint::to_vec`, which writes groups of seven bits.
#[verifier::external_body]
pub(crate) fn uint_to_vec(n: usize) -> (r: Vec<u8>)
    ensures
        r@ == uint_bytes(n as nat),
{
    uint_zigzag::Uint::from(n).to_vec()
}

/// Numbers below the `k`-th power of 128 take at most `k` bytes.
proof fn lemma_uint_bytes_len(n: nat, k: nat)
    requires
        k >= 1,
        n < vstd::arithmetic::power::pow(128, k),
    ensures
        uint_bytes(n).len() <= k,
    decreases k,
{
    reveal(vstd::arithmetic::power::pow);
    if n >= 128 {
        assert(n / 128 < vstd::arithmetic::power::pow(128, (k - 1) as nat)) by (nonlinear_arith)
            requires
                n < 128 * vstd::arithmetic::power::pow(128, (k - 1) as nat),
        ;
        if k == 1 {
            assert(vstd::arithmetic::power::pow(128, 0) == 1);
        }
        lemma_uint_bytes_len(n / 128, (k - 1) as nat);
    }
}

/// Different numbers have different encodings.
pub proof fn lemma_uint_bytes_injective(a: nat, b: nat)
    requires
        uint_bytes(a) == uint_bytes(b),
    ensures
        a == b,
    decreases a,
{
    let x = uint_bytes(a);
    let y = uint_bytes(b);
    assert(x[0] == y[0]);
    if a >= 128 && b >= 128 {
        assert(uint_bytes(a / 128) =~= x.drop_first());
        assert(uint_bytes(b / 128) =~= y.drop_first());
        lemma_uint_bytes_injective(a / 128, b / 128);
    }
}

/// A message that a proof binds into the transcript, with its label.
#[derive(Debug)]
pub struct Contribution {
    label: &'static str,
    message: Vec<u8>,
}

impl Contribution {
    /// The message is short enough for a transcript.
    #[verifier::type_invariant]
    pub closed spec fn fits(self) -> bool {
        self.message@.len() <= u32::MAX
    }

    /// Label and message.
    pub closed spec fn entry(self) -> (Seq<char>, Seq<u8>) {
        (self.label@, self.message@)
    }

    /// A message of at most `u32::MAX` bytes under a label.
    pub fn new(label: &'static str, message: Vec<u8>) -> (r: Contribution)
        requires
            message@.len() <= u32::MAX,
        ensures
            r.entry() == (label@, message@),
    {
        Contribution { label, message }
    }
}

/// What a list of contributions adds to a transcript.
pub open spec fn contributed(contributions: Seq<Contribution>) -> Seq<(Seq<char>, Seq<u8>)> {
    contributions.map_values(|c: Contribution| c.entry())
}

/// Appends contributions in order.
pub(crate) fn append_contributions(transcript: &mut Transcript, contributions: &Vec<Contribution>)
    ensures
        transcript_log(*final(transcript)) == transcript_log(*old(transcript)) + contributed(
            contributions@,
        ),
{
    let ghost before = transcript_log(*transcript);
    let mut i: usize = 0;
    assert(before =~= before + contributed(contributions@).take(0));
    while i < contributions.len()
        invariant
            i <= contributions@.len(),
            transcript_log(*transcript) == before + contributed(contributions@).take(i as int),
        decreases contributions@.len() - i,
    {
        let c = &contributions[i];
        proof {
            use_type_invariant(c);
        }
        append_message(transcript, c.label, c.message.as_slice());
        proof {
            let all = contributed(contributions@);
            assert(all.take(i + 1) =~= all.take(i as int).push(all[i as int]));
            assert(transcript_log(*transcript) =~= before + all.take(i + 1));
        }
        i = i + 1;
    }
    assert(contributed(contributions@).take(i as int) =~= contributed(contributions@));
}

/// Appends a number under a label.
pub(crate) fn append_number(transcript: &mut Transcript, label: &'static str, n: usize)
    ensures
        transcript_log(*final(transcript)) == transcript_log(*old(transcript)).push(
            (label@, uint_bytes(n as nat)),
        ),
{
    let bytes = uint_to_vec(n);
    proof {
        assert(vstd::arithmetic::power::pow(128, 10) == 0x400000000000000000) by {
            reveal_with_fuel(vstd::arithmetic::power::pow, 11);
        }
        lemma_uint_bytes_len(n as nat, 10);
    }
    append_message(transcript, label, bytes.as_slice());
}

} // verus!
