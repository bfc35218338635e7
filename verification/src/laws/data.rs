//! What the data of presentations stand for.
use vstd::prelude::*;
use vstd::utf8::encode_utf8;
use crate::claim::ClaimData;
use crate::message::{HiddenMessage, ProofMessage};
use crate::ordered_map;
use crate::ordered_map::OrderedMap;
use crate::presentation;
use crate::proofs::PresentationProofs;
use crate::scalar;
use crate::scalar::Scalar;
use crate::transcript;

verus! {

/// Texts are ordered by their bytes: one comes before another exactly where it is a proper
/// beginning of the other, or has the smaller byte where they first differ.
pub proof fn texts_are_ordered_by_their_bytes(a: Seq<char>, b: Seq<char>)
    ensures
        ordered_map::text_before(a, b) <==> exists|n: int|
            0 <= n <= encode_utf8(a).len() && n < encode_utf8(b).len() && #[trigger] encode_utf8(
                a,
            ).take(n) == encode_utf8(b).take(n) && (n == encode_utf8(a).len() || encode_utf8(a)[n]
                < encode_utf8(b)[n]),
{
    lemma_bytes_before(encode_utf8(a), encode_utf8(b));
}

/// The same for bytes.
proof fn lemma_bytes_before(a: Seq<u8>, b: Seq<u8>)
    ensures
        ordered_map::bytes_before(a, b) <==> exists|n: int|
            0 <= n <= a.len() && n < b.len() && #[trigger] a.take(n) == b.take(n) && (n == a.len()
                || a[n] < b[n]),
    decreases a.len(),
{
    if a.len() > 0 && b.len() > 0 && a[0] == b[0] {
        let (x, y) = (a.drop_first(), b.drop_first());
        lemma_bytes_before(x, y);
        if ordered_map::bytes_before(x, y) {
            let n = choose|n: int|
                0 <= n <= x.len() && n < y.len() && #[trigger] x.take(n) == y.take(n) && (n
                    == x.len() || x[n] < y[n]);
            assert forall|i: int| 0 <= i < n + 1 implies a[i] == b[i] by {
                if i > 0 {
                    assert(x.take(n)[i - 1] == y.take(n)[i - 1]);
                }
            }
            assert(a.take(n + 1) =~= b.take(n + 1));
        }
        if exists|n: int|
            0 <= n <= a.len() && n < b.len() && #[trigger] a.take(n) == b.take(n) && (n == a.len()
                || a[n] < b[n]) {
            let n = choose|n: int|
                0 <= n <= a.len() && n < b.len() && #[trigger] a.take(n) == b.take(n) && (n
                    == a.len() || a[n] < b[n]);
            assert forall|i: int| 0 <= i < n - 1 implies x[i] == y[i] by {
                assert(a.take(n)[i + 1] == b.take(n)[i + 1]);
            }
            assert(x.take(n - 1) =~= y.take(n - 1));
        }
    } else if a.len() > 0 && b.len() > 0 {
        if a[0] < b[0] {
            assert(a.take(0) =~= b.take(0));
        }
        assert forall|n: int|
            0 < n <= a.len() && n < b.len() implies #[trigger] a.take(n) != b.take(n) by {
            assert(a.take(n)[0] == a[0] && b.take(n)[0] == b[0]);
        }
    } else if b.len() > 0 {
        assert(a.take(0) =~= b.take(0));
    }
}

/// A map has under a key the value that its listing has there, and nothing else.
pub proof fn maps_hold_what_they_list<V>(map: OrderedMap<V>, key: Seq<char>)
    requires
        map.wf(),
    ensures
        map@.dom().contains(key) <==> exists|i: int|
            0 <= i < map.listing().len() && (#[trigger] map.listing()[i]).0 == key,
        forall|i: int|
            0 <= i < map.listing().len() && (#[trigger] map.listing()[i]).0 == key ==> map@[key]
                == map.listing()[i].1,
        forall|i: int, j: int|
            0 <= i < j < map.listing().len() ==> ordered_map::text_before(
                (#[trigger] map.listing()[i]).0,
                (#[trigger] map.listing()[j]).0,
            ),
{
    assert forall|i: int|
        0 <= i < map.listing().len() && (#[trigger] map.listing()[i]).0 == key implies map@[key]
        == map.listing()[i].1 by {
        ordered_map::lemma_entry_found(map.listing(), i);
    }
}

/// A byte string spells the sum of its bytes, each with the weight of its place: one more byte
/// behind `n` others counts as many times as there are strings of `n` bytes.
pub proof fn bytes_spell_numbers(bytes: Seq<u8>, last: u8)
    ensures
        scalar::le_value(seq![]) == 0,
        scalar::le_value(bytes.push(last)) == scalar::le_value(bytes) + last
            * vstd::arithmetic::power::pow(256, bytes.len()),
    decreases bytes.len(),
{
    reveal(vstd::arithmetic::power::pow);
    let more = bytes.push(last);
    if bytes.len() == 0 {
        assert(more.drop_first() =~= seq![]);
        assert(scalar::le_value(more.drop_first()) == 0);
        assert(vstd::arithmetic::power::pow(256, 0) == 1);
    } else {
        let rest = bytes.drop_first();
        assert(more.drop_first() =~= rest.push(last));
        bytes_spell_numbers(rest, last);
        let p = vstd::arithmetic::power::pow(256, rest.len());
        assert(vstd::arithmetic::power::pow(256, bytes.len()) == 256 * p);
        assert(256 * (last * p) == last * (256 * p)) by (nonlinear_arith);
    }
}

/// A scalar is an element of the field exactly where its bytes spell a number below the order.
pub proof fn scalars_are_numbers_below_the_order(one: Scalar)
    ensures
        one.value() == scalar::le_value(one.bytes@),
        one.is_canonical() <==> scalar::le_value(one.bytes@)
            < 0x73eda753299d7d483339d80809a1d80553bda402fffe5bfeffffffff00000001nat,
{
}

/// Small numbers are written as one byte; of greater ones the lowest seven bits come first, with
/// the highest bit set, and then what is left of them.
pub proof fn numbers_are_written_in_groups_of_seven_bits(n: nat)
    ensures
        n < 128 ==> transcript::uint_bytes(n) == seq![n as u8],
        n >= 128 ==> transcript::uint_bytes(n).len() == transcript::uint_bytes(n / 128).len() + 1
            && transcript::uint_bytes(n)[0] == n % 128 + 128 && transcript::uint_bytes(n).skip(1)
            == transcript::uint_bytes(n / 128),
{
    if n >= 128 {
        assert(transcript::uint_bytes(n).skip(1) =~= transcript::uint_bytes(n / 128));
    }
}

/// Claims that say the same are of one sort and hold the same number or the same bytes.
pub proof fn claims_say_what_they_hold(a: ClaimData, b: ClaimData)
    ensures
        a@ == b@ <==> match (a, b) {
            (ClaimData::Number(x), ClaimData::Number(y)) => x.value == y.value,
            (ClaimData::Other(x), ClaimData::Other(y)) => x@ == y@,
            _ => false,
        },
{
}

/// Disclosed claims are shown one by one, each with its label and with what it says.
pub proof fn disclosed_claims_are_shown_one_by_one(claims: OrderedMap<ClaimData>, i: int)
    requires
        0 <= i < claims.listing().len(),
    ensures
        presentation::claims_shown(claims).len() == claims.listing().len(),
        presentation::claims_shown(claims)[i] == (claims.listing()[i].0, claims.listing()[i].1@),
{
}

/// Proofs that say the same are of one kind and have the same id and the same body.
pub proof fn proofs_say_what_they_hold(a: PresentationProofs, b: PresentationProofs)
    ensures
        a.says_the_same(b) <==> match (a, b) {
            (PresentationProofs::Signature(p), PresentationProofs::Signature(q)) => p.id@ == q.id@
                && p.body@ == q.body@,
            (
                PresentationProofs::AccumulatorSetMembership(p),
                PresentationProofs::AccumulatorSetMembership(q),
            ) => p.id@ == q.id@ && p.body@ == q.body@,
            (PresentationProofs::Equality(p), PresentationProofs::Equality(q)) => p.id@ == q.id@
                && p.body@ == q.body@,
            (PresentationProofs::Commitment(p), PresentationProofs::Commitment(q)) => p.id@
                == q.id@ && p.body@ == q.body@,
            (
                PresentationProofs::VerifiableEncryption(p),
                PresentationProofs::VerifiableEncryption(q),
            ) => p.id@ == q.id@ && p.body@ == q.body@,
            (PresentationProofs::Range(p), PresentationProofs::Range(q)) => p.id@ == q.id@
                && p.body@ == q.body@,
            _ => false,
        },
        match a {
            PresentationProofs::Signature(p) => a.inner() == p,
            PresentationProofs::AccumulatorSetMembership(p) => a.inner() == p,
            PresentationProofs::Equality(p) => a.inner() == p,
            PresentationProofs::Commitment(p) => a.inner() == p,
            PresentationProofs::VerifiableEncryption(p) => a.inner() == p,
            PresentationProofs::Range(p) => a.inner() == p,
        },
{
}

/// A message in a proof is what it was made with, and it has a shared blinder exactly where it was
/// made with one.
pub proof fn messages_are_what_they_are_made_with(message: ProofMessage)
    ensures
        match message {
            ProofMessage::Revealed(m) => message.message() == m && !message.is_shared(),
            ProofMessage::Hidden(HiddenMessage::ProofSpecificBlinding(m)) => message.message() == m
                && !message.is_shared(),
            ProofMessage::Hidden(HiddenMessage::ExternalBlinding(m, b)) => message.message() == m
                && message.is_shared() && message.shared_blinder() == b,
        },
{
}

} // verus!
