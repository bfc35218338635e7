//! Which claims are linked, and with what each of them takes part in the proofs.
use vstd::prelude::*;
use crate::claim::{ClaimEncoding, EncodingView};
use crate::credential::Credential;
use crate::linking;
use crate::message::{HiddenMessage, ProofMessage};
use crate::message_types;
use crate::ordered_map;
use crate::scalar::Scalar;
use crate::statement::Statements;
use crate::suite;
use crate::suite::ProofSuite;

verus! {

/// Two claims that one statement of several claims names are linked.
pub proof fn claims_of_one_statement_are_linked(
    signatures: Seq<(Seq<char>, Statements)>,
    predicates: Seq<(Seq<char>, Statements)>,
    k: int,
    i: int,
    j: int,
    x: (int, int),
    y: (int, int),
)
    requires
        0 <= k < predicates.len(),
        predicates[k].1.references().len() > 1,
        0 <= i < predicates[k].1.references().len(),
        0 <= j < predicates[k].1.references().len(),
        0 <= x.0 < signatures.len(),
        0 <= y.0 < signatures.len(),
        predicates[k].1.references()[i].0 == signatures[x.0].0,
        predicates[k].1.references()[i].1 == x.1,
        predicates[k].1.references()[j].0 == signatures[y.0].0,
        predicates[k].1.references()[j].1 == y.1,
    ensures
        linking::are_linked(signatures, predicates, x, y),
{
    assert(linking::ties(signatures, predicates[k].1, x));
    assert(linking::ties(signatures, predicates[k].1, y));
    assert(linking::are_compared(signatures, predicates, x, y));
    linking::lemma_linked(signatures, predicates, x, y);
}

/// Links do not lead out of a set of claims that no statement of several claims leads out of.
pub proof fn links_lead_no_further_than_statements(
    signatures: Seq<(Seq<char>, Statements)>,
    predicates: Seq<(Seq<char>, Statements)>,
    inside: Set<(int, int)>,
    a: (int, int),
    b: (int, int),
)
    requires
        linking::are_linked(signatures, predicates, a, b),
        inside.contains(a),
        forall|k: int, i: int, j: int, x: (int, int), y: (int, int)|
            #![trigger predicates[k].1.references()[i], predicates[k].1.references()[j],
                inside.contains(x), inside.contains(y)]
            0 <= k < predicates.len() && predicates[k].1.references().len() > 1 && 0 <= i
                < predicates[k].1.references().len() && 0 <= j
                < predicates[k].1.references().len() && 0 <= x.0 < signatures.len() && 0 <= y.0
                < signatures.len() && predicates[k].1.references()[i].0 == signatures[x.0].0
                && predicates[k].1.references()[i].1 == x.1
                && predicates[k].1.references()[j].0 == signatures[y.0].0
                && predicates[k].1.references()[j].1 == y.1 && inside.contains(x)
                ==> inside.contains(y),
    ensures
        inside.contains(b),
{
    let chain = choose|chain: Seq<(int, int)>| #[trigger]
        linking::is_chain(signatures, predicates, chain) && chain.first() == a && chain.last()
            == b;
    lemma_chain_stays(signatures, predicates, inside, chain, chain.len() - 1);
}

/// The same for the claim at `n` of a chain.
proof fn lemma_chain_stays(
    signatures: Seq<(Seq<char>, Statements)>,
    predicates: Seq<(Seq<char>, Statements)>,
    inside: Set<(int, int)>,
    chain: Seq<(int, int)>,
    n: int,
)
    requires
        linking::is_chain(signatures, predicates, chain),
        inside.contains(chain[0]),
        forall|k: int, i: int, j: int, x: (int, int), y: (int, int)|
            #![trigger predicates[k].1.references()[i], predicates[k].1.references()[j],
                inside.contains(x), inside.contains(y)]
            0 <= k < predicates.len() && predicates[k].1.references().len() > 1 && 0 <= i
                < predicates[k].1.references().len() && 0 <= j
                < predicates[k].1.references().len() && 0 <= x.0 < signatures.len() && 0 <= y.0
                < signatures.len() && predicates[k].1.references()[i].0 == signatures[x.0].0
                && predicates[k].1.references()[i].1 == x.1
                && predicates[k].1.references()[j].0 == signatures[y.0].0
                && predicates[k].1.references()[j].1 == y.1 && inside.contains(x)
                ==> inside.contains(y),
        0 <= n < chain.len(),
    ensures
        inside.contains(chain[n]),
    decreases n,
{
    if n > 0 {
        lemma_chain_stays(signatures, predicates, inside, chain, n - 1);
        let (x, y) = (chain[n - 1], chain[n - 1 + 1]);
        assert(linking::are_compared(signatures, predicates, x, y));
        let k = choose|k: int|
            0 <= k < predicates.len() && linking::ties(
                signatures,
                (#[trigger] predicates[k]).1,
                x,
            ) && linking::ties(signatures, predicates[k].1, y);
        let references = predicates[k].1.references();
        let i = choose|i: int|
            0 <= i < references.len() && (#[trigger] references[i]).0 == signatures[x.0].0
                && references[i].1 == x.1;
        let j = choose|j: int|
            0 <= j < references.len() && (#[trigger] references[j]).0 == signatures[y.0].0
                && references[j].1 == y.1;
        assert(predicates[k].1.references()[i] == references[i]);
        assert(predicates[k].1.references()[j] == references[j]);
        assert(inside.contains(x));
        assert(inside.contains(y) || !inside.contains(y));
    }
}

/// How a claim takes part in the proofs, by the first of the claims that it is linked with: where
/// all of them are disclosed, it is revealed with the message of the first; else, where a predicate
/// speaks of it, it is hidden with the message and the blinder of the first; else it is hidden with
/// its own message and a blinder of its own proof.
pub proof fn claims_take_part_as_the_first_that_they_are_linked_with(
    credentials: Map<Seq<char>, Credential>,
    signatures: Seq<(Seq<char>, Statements)>,
    predicates: Seq<(Seq<char>, Statements)>,
    scalars: Map<Seq<char>, Seq<Scalar>>,
    blinders: Map<Seq<char>, Seq<Scalar>>,
    a: (int, int),
) -> (b: (int, int))
    requires
        ordered_map::ascending(signatures),
        0 <= a.0 < signatures.len(),
        0 <= a.1 < credentials[signatures[a.0].0].claims@.len(),
    ensures
        linking::are_linked(signatures, predicates, a, b),
        forall|c: (int, int)| #[trigger]
            linking::are_linked(signatures, predicates, a, c) ==> b.0 < c.0 || (b.0 == c.0 && b.1
                <= c.1),
        match message_types::proof_messages(
            credentials,
            signatures,
            predicates,
            scalars,
            blinders,
        )[signatures[a.0].0][a.1] {
            ProofMessage::Revealed(m) => {
                &&& m == scalars[signatures[b.0].0][b.1]
                &&& forall|c: (int, int)| #[trigger]
                    linking::are_linked(signatures, predicates, a, c)
                        ==> signatures[c.0].1->Signature_0.discloses(c.1)
            },
            ProofMessage::Hidden(HiddenMessage::ExternalBlinding(m, blinder)) => {
                &&& m == scalars[signatures[b.0].0][b.1]
                &&& blinder == blinders[signatures[b.0].0][b.1]
                &&& exists|c: (int, int)| #[trigger]
                    linking::are_linked(signatures, predicates, a, c)
                        && !signatures[c.0].1->Signature_0.discloses(c.1)
                &&& exists|k: int, j: int|
                    0 <= k < predicates.len() && 0 <= j < predicates[k].1.references().len() && (
                    #[trigger] predicates[k].1.references()[j]).0 == signatures[a.0].0
                        && predicates[k].1.references()[j].1 == a.1
            },
            ProofMessage::Hidden(HiddenMessage::ProofSpecificBlinding(m)) => {
                &&& m == scalars[signatures[a.0].0][a.1]
                &&& exists|c: (int, int)| #[trigger]
                    linking::are_linked(signatures, predicates, a, c)
                        && !signatures[c.0].1->Signature_0.discloses(c.1)
                &&& forall|k: int, j: int|
                    0 <= k < predicates.len() && 0 <= j < predicates[k].1.references().len() ==> !((
                    #[trigger] predicates[k].1.references()[j]).0 == signatures[a.0].0
                        && predicates[k].1.references()[j].1 == a.1)
            },
        },
{
    ordered_map::lemma_entry_found(signatures, a.0);
    let b = linking::leader(signatures, predicates, a);
    linking::lemma_leader(signatures, predicates, a);
    assert forall|c: (int, int)| #[trigger]
        linking::are_linked(signatures, predicates, a, c) implies b.0 < c.0 || (b.0 == c.0 && b.1
        <= c.1) by {
        assert(!linking::place_before(c, b));
    }
    let message = message_types::proof_messages(
        credentials,
        signatures,
        predicates,
        scalars,
        blinders,
    )[signatures[a.0].0][a.1];
    assert(message == message_types::proof_message(signatures, predicates, scalars, blinders, a));
    if linking::is_open(signatures, predicates, a) {
        assert forall|c: (int, int)| #[trigger]
            linking::are_linked(
                signatures,
                predicates,
                a,
                c,
            ) implies signatures[c.0].1->Signature_0.discloses(c.1) by {
            assert(!linking::is_hidden(signatures, c));
        }
    } else {
        let c = choose|c: (int, int)| #[trigger]
            linking::are_linked(signatures, predicates, a, c) && linking::is_hidden(signatures, c);
        assert(linking::are_linked(signatures, predicates, a, c)
            && !signatures[c.0].1->Signature_0.discloses(c.1));
    }
    b
}

/// The message with which a claim takes part in the proofs is the scalar of the suite's encoding of
/// the first of the claims that it is linked with.
pub proof fn messages_are_encodings_of_first_claims<S: ProofSuite>(
    credentials: Map<Seq<char>, Credential>,
    signatures: Seq<(Seq<char>, Statements)>,
    predicates: Seq<(Seq<char>, Statements)>,
    draws: Seq<Scalar>,
    messages: Map<Seq<char>, Seq<ProofMessage>>,
    a: (int, int),
) -> (r: ((int, int), ClaimEncoding))
    requires
        ordered_map::ascending(signatures),
        message_types::signatures_are_held(credentials, signatures),
        message_types::references_resolve(credentials, predicates),
        message_types::has_message_types::<S>(credentials, signatures, predicates, draws, messages),
        0 <= a.0 < signatures.len(),
        0 <= a.1 < credentials[signatures[a.0].0].claims@.len(),
    ensures
        linking::are_linked(signatures, predicates, a, r.0),
        forall|c: (int, int)| #[trigger]
            linking::are_linked(signatures, predicates, a, c) ==> (r.0).0 < c.0 || ((r.0).0 == c.0
                && (r.0).1 <= c.1),
        0 <= (r.0).0 < signatures.len(),
        0 <= (r.0).1 < credentials[signatures[(r.0).0].0].claims@.len(),
        call_ensures(
            S::encode_claim,
            (&credentials[signatures[(r.0).0].0].claims@[(r.0).1],),
            r.1,
        ),
        match messages[signatures[a.0].0][a.1] {
            ProofMessage::Revealed(m) => m == r.1@.scalar,
            ProofMessage::Hidden(HiddenMessage::ExternalBlinding(m, _)) => m == r.1@.scalar,
            ProofMessage::Hidden(HiddenMessage::ProofSpecificBlinding(m)) => m == r.1@.scalar,
        },
{
    let (scalars, blinders) = choose|
        scalars: Map<Seq<char>, Seq<Scalar>>,
        blinders: Map<Seq<char>, Seq<Scalar>>,
    |
        message_types::is_per_claim(credentials, signatures, scalars)
            && message_types::scalars_are_encoded::<S>(credentials, signatures, scalars)
            && message_types::is_per_claim(credentials, signatures, blinders)
            && message_types::blinders_are_drawn(signatures, predicates, blinders, draws)
            && messages == #[trigger] message_types::proof_messages(
            credentials,
            signatures,
            predicates,
            scalars,
            blinders,
        );
    let b = claims_take_part_as_the_first_that_they_are_linked_with(
        credentials,
        signatures,
        predicates,
        scalars,
        blinders,
        a,
    );
    linking::lemma_linked_is_tied(signatures, predicates, a, b);
    if a != b {
        lemma_tied_is_held(credentials, signatures, predicates, a);
        lemma_tied_is_held(credentials, signatures, predicates, b);
    }
    assert(message_types::scalar_given::<S>(
        credentials[signatures[b.0].0].claims@[b.1],
        scalars[signatures[b.0].0][b.1],
    ));
    let claim = credentials[signatures[b.0].0].claims@[b.1];
    let view = choose|e: EncodingView| #[trigger]
        suite::encoded::<S>(claim, e) && e.scalar == scalars[signatures[b.0].0][b.1];
    let e = choose|e: ClaimEncoding| #[trigger]
        call_ensures(S::encode_claim, (&claim,), e) && e@ == view;
    (b, e)
}

/// A claim that a statement of several claims speaks of is there, and is spoken of.
proof fn lemma_tied_is_held(
    credentials: Map<Seq<char>, Credential>,
    signatures: Seq<(Seq<char>, Statements)>,
    predicates: Seq<(Seq<char>, Statements)>,
    b: (int, int),
)
    requires
        message_types::signatures_are_held(credentials, signatures),
        message_types::references_resolve(credentials, predicates),
        exists|k: int|
            0 <= k < predicates.len() && linking::ties(signatures, (#[trigger] predicates[k]).1, b),
    ensures
        0 <= b.0 < signatures.len(),
        0 <= b.1 < credentials[signatures[b.0].0].claims@.len(),
        exists|k: int, j: int|
            0 <= k < predicates.len() && 0 <= j < predicates[k].1.references().len() && (
            #[trigger] predicates[k].1.references()[j]).0 == signatures[b.0].0
                && predicates[k].1.references()[j].1 == b.1,
{
    let k = choose|k: int|
        0 <= k < predicates.len() && linking::ties(signatures, (#[trigger] predicates[k]).1, b);
    let references = predicates[k].1.references();
    let j = choose|j: int|
        0 <= j < references.len() && (#[trigger] references[j]).0 == signatures[b.0].0
            && references[j].1 == b.1;
    assert(message_types::reference_resolves(
        credentials,
        predicates,
        predicates[k].1.references()[j],
    ));
    assert(credentials.dom().contains(signatures[b.0].0));
}

/// No claim that is linked with `a` comes before it, by signature statement and then by index.
pub open spec fn comes_first(
    signatures: Seq<(Seq<char>, Statements)>,
    predicates: Seq<(Seq<char>, Statements)>,
    a: (int, int),
) -> bool {
    forall|c: (int, int)| #[trigger]
        linking::are_linked(signatures, predicates, a, c) ==> a.0 < c.0 || (a.0 == c.0 && a.1
            <= c.1)
}

/// Blinders are drawn for the hidden claims that predicates speak of, one for each in order of
/// their signature statements and of their indices, and nothing else is drawn; and the claims that
/// are linked share the one that was drawn for the first of them.
pub proof fn one_blinder_is_drawn_for_each_shared_claim<S: ProofSuite>(
    credentials: Map<Seq<char>, Credential>,
    signatures: Seq<(Seq<char>, Statements)>,
    predicates: Seq<(Seq<char>, Statements)>,
    draws: Seq<Scalar>,
    messages: Map<Seq<char>, Seq<ProofMessage>>,
) -> (places: Seq<(int, int)>)
    requires
        ordered_map::ascending(signatures),
        message_types::has_message_types::<S>(credentials, signatures, predicates, draws, messages),
    ensures
        places.len() == draws.len(),
        forall|i: int, j: int|
            0 <= i < j < places.len() ==> (#[trigger] places[i]).0 < (#[trigger] places[j]).0 || (
            places[i].0 == places[j].0 && places[i].1 < places[j].1),
        forall|a: (int, int)| #[trigger]
            places.contains(a) <==> 0 <= a.0 < signatures.len() && 0 <= a.1
                < credentials[signatures[a.0].0].claims@.len() && (
            messages[signatures[a.0].0][a.1] matches ProofMessage::Hidden(
                HiddenMessage::ExternalBlinding(_, _),
            )),
        forall|j: int|
            0 <= j < draws.len() ==> (#[trigger] draws[j]).is_drawn() && (comes_first(
                signatures,
                predicates,
                places[j],
            ) ==> (match messages[signatures[places[j].0].0][places[j].1] {
                ProofMessage::Hidden(HiddenMessage::ExternalBlinding(_, b)) => b == draws[j],
                _ => false,
            })),
{
    let (scalars, blinders) = choose|
        scalars: Map<Seq<char>, Seq<Scalar>>,
        blinders: Map<Seq<char>, Seq<Scalar>>,
    |
        message_types::is_per_claim(credentials, signatures, scalars)
            && message_types::scalars_are_encoded::<S>(credentials, signatures, scalars)
            && message_types::is_per_claim(credentials, signatures, blinders)
            && message_types::blinders_are_drawn(signatures, predicates, blinders, draws)
            && messages == #[trigger] message_types::proof_messages(
            credentials,
            signatures,
            predicates,
            scalars,
            blinders,
        );
    let n = signatures.len() as int;
    let places = lemma_drawn_places(credentials, signatures, predicates, blinders, n);
    assert forall|a: (int, int)| #[trigger] places.contains(a) <==> (0 <= a.0 < signatures.len()
        && 0 <= a.1 < credentials[signatures[a.0].0].claims@.len()
        && (messages[signatures[a.0].0][a.1] matches ProofMessage::Hidden(
        HiddenMessage::ExternalBlinding(_, _),
    ))) by {
        if 0 <= a.0 < signatures.len() && 0 <= a.1
            < credentials[signatures[a.0].0].claims@.len() {
            ordered_map::lemma_entry_found(signatures, a.0);
        }
    }
    assert forall|j: int| 0 <= j < draws.len() implies (#[trigger] draws[j]).is_drawn() && (
    comes_first(signatures, predicates, places[j]) ==> (match messages[
    signatures[places[j].0].0][places[j].1] {
        ProofMessage::Hidden(HiddenMessage::ExternalBlinding(_, b)) => b == draws[j],
        _ => false,
    })) by {
        let a = places[j];
        assert(places.contains(a));
        ordered_map::lemma_entry_found(signatures, a.0);
        if comes_first(signatures, predicates, a) {
            linking::lemma_linked(signatures, predicates, a, a);
            assert(linking::is_led_by(signatures, predicates, a, a));
            linking::lemma_leader_unique(signatures, predicates, a, a);
            assert(messages[signatures[a.0].0][a.1] == message_types::proof_message(
                signatures,
                predicates,
                scalars,
                blinders,
                a,
            ));
        }
    }
    places
}

/// The places of the shared claims of the first `n` signature statements, in order, with what is
/// drawn for them.
proof fn lemma_drawn_places(
    credentials: Map<Seq<char>, Credential>,
    signatures: Seq<(Seq<char>, Statements)>,
    predicates: Seq<(Seq<char>, Statements)>,
    blinders: Map<Seq<char>, Seq<Scalar>>,
    n: int,
) -> (places: Seq<(int, int)>)
    requires
        0 <= n <= signatures.len(),
        message_types::is_per_claim(credentials, signatures, blinders),
    ensures
        ({
            let draws = message_types::shared_draws(signatures, predicates, blinders, n);
            &&& places.len() == draws.len()
            &&& forall|i: int, j: int|
                0 <= i < j < places.len() ==> (#[trigger] places[i]).0 < (#[trigger] places[j]).0
                    || (places[i].0 == places[j].0 && places[i].1 < places[j].1)
            &&& forall|a: (int, int)| #[trigger]
                places.contains(a) <==> 0 <= a.0 < n && 0 <= a.1
                    < credentials[signatures[a.0].0].claims@.len() && message_types::is_shared(
                    signatures,
                    predicates,
                    a,
                )
            &&& forall|j: int|
                0 <= j < places.len() ==> #[trigger] draws[j]
                    == blinders[signatures[places[j].0].0][places[j].1]
        }),
    decreases n,
{
    if n == 0 {
        seq![]
    } else {
        let before = lemma_drawn_places(credentials, signatures, predicates, blinders, n - 1);
        let k = n - 1;
        let own = blinders[signatures[k].0];
        assert(blinders.dom().contains(signatures[k].0));
        let more = lemma_own_places(signatures, predicates, own, k, own.len() as int);
        let places = before + more;
        let d = message_types::shared_draws(signatures, predicates, blinders, n - 1);
        let e = message_types::own_draws(signatures, predicates, own, k, own.len() as int);
        assert forall|q: int| 0 <= q < before.len() implies (#[trigger] before[q]).0 < k by {
            assert(before.contains(before[q]));
        }
        assert forall|q: int| 0 <= q < more.len() implies (#[trigger] more[q]).0 == k by {
            assert(more.contains(more[q]));
        }
        lemma_places_ascend(before, more, k);
        assert forall|a: (int, int)| #[trigger] places.contains(a) <==> (0 <= a.0 < n && 0 <= a.1
            < credentials[signatures[a.0].0].claims@.len() && message_types::is_shared(
            signatures,
            predicates,
            a,
        )) by {
            lemma_in_either(before, more, a);
            assert(before.contains(a) || !before.contains(a));
            assert(more.contains(a) || !more.contains(a));
        }
        assert forall|j: int| 0 <= j < places.len() implies #[trigger] (d + e)[j]
            == blinders[signatures[places[j].0].0][places[j].1] by {
            if j < before.len() {
                assert(d[j] == blinders[signatures[before[j].0].0][before[j].1]);
            } else {
                assert(more[j - before.len()].0 == k);
                assert(e[j - before.len()] == own[more[j - before.len()].1]);
            }
        }
        places
    }
}

/// What is in either of two lists is in both together.
proof fn lemma_in_either(x: Seq<(int, int)>, y: Seq<(int, int)>, a: (int, int))
    ensures
        (x + y).contains(a) <==> x.contains(a) || y.contains(a),
{
    if (x + y).contains(a) {
        let q = choose|q: int| 0 <= q < (x + y).len() && (x + y)[q] == a;
        if q < x.len() {
            assert(x[q] == a);
        } else {
            assert(y[q - x.len()] == a);
        }
    }
    if x.contains(a) {
        let q = choose|q: int| 0 <= q < x.len() && x[q] == a;
        assert((x + y)[q] == a);
    }
    if y.contains(a) {
        let q = choose|q: int| 0 <= q < y.len() && y[q] == a;
        assert((x + y)[x.len() + q] == a);
    }
}

/// Places of later signature statements come behind those of earlier ones.
proof fn lemma_places_ascend(x: Seq<(int, int)>, y: Seq<(int, int)>, k: int)
    requires
        forall|i: int, j: int|
            0 <= i < j < x.len() ==> (#[trigger] x[i]).0 < (#[trigger] x[j]).0 || (x[i].0 == x[j].0
                && x[i].1 < x[j].1),
        forall|i: int, j: int| 0 <= i < j < y.len() ==> (#[trigger] y[i]).1 < (#[trigger] y[j]).1,
        forall|q: int| 0 <= q < x.len() ==> (#[trigger] x[q]).0 < k,
        forall|q: int| 0 <= q < y.len() ==> (#[trigger] y[q]).0 == k,
    ensures
        forall|i: int, j: int|
            0 <= i < j < (x + y).len() ==> (#[trigger] (x + y)[i]).0 < (#[trigger] (x + y)[j]).0
                || ((x + y)[i].0 == (x + y)[j].0 && (x + y)[i].1 < (x + y)[j].1),
{
    let n = x.len();
    assert forall|i: int, j: int| 0 <= i < j < (x + y).len() implies (#[trigger] (x + y)[i]).0 < (
    #[trigger] (x + y)[j]).0 || ((x + y)[i].0 == (x + y)[j].0 && (x + y)[i].1 < (x + y)[j].1) by {
        if j < n {
            assert((x + y)[i] == x[i] && (x + y)[j] == x[j]);
        } else if i < n {
            assert((x + y)[i] == x[i] && (x + y)[j] == y[j - n]);
        } else {
            assert((x + y)[i] == y[i - n] && (x + y)[j] == y[j - n]);
        }
    }
}

/// The same for the first `n` claims of one signature statement.
proof fn lemma_own_places(
    signatures: Seq<(Seq<char>, Statements)>,
    predicates: Seq<(Seq<char>, Statements)>,
    own: Seq<Scalar>,
    k: int,
    n: int,
) -> (places: Seq<(int, int)>)
    requires
        0 <= n <= own.len(),
    ensures
        ({
            let draws = message_types::own_draws(signatures, predicates, own, k, n);
            &&& places.len() == draws.len()
            &&& forall|i: int, j: int|
                0 <= i < j < places.len() ==> (#[trigger] places[i]).1 < (#[trigger] places[j]).1
            &&& forall|a: (int, int)| #[trigger]
                places.contains(a) <==> a.0 == k && 0 <= a.1 < n && message_types::is_shared(
                    signatures,
                    predicates,
                    a,
                )
            &&& forall|j: int| 0 <= j < places.len() ==> #[trigger] draws[j] == own[places[j].1]
        }),
    decreases n,
{
    if n == 0 {
        seq![]
    } else {
        let before = lemma_own_places(signatures, predicates, own, k, n - 1);
        let last = (k, n - 1);
        if message_types::is_shared(signatures, predicates, last) {
            let places = before.push(last);
            assert forall|i: int, j: int| 0 <= i < j < places.len() implies (
            #[trigger] places[i]).1 < (#[trigger] places[j]).1 by {
                assert(before.contains(before[i]));
            }
            assert forall|a: (int, int)| #[trigger] places.contains(a) <==> (a.0 == k && 0 <= a.1
                < n && message_types::is_shared(signatures, predicates, a)) by {
                if places.contains(a) && a != last {
                    let q = choose|q: int| 0 <= q < places.len() && places[q] == a;
                    assert(before[q] == a);
                    assert(before.contains(a));
                }
                if before.contains(a) {
                    let q = choose|q: int| 0 <= q < before.len() && before[q] == a;
                    assert(places[q] == a);
                }
                assert(places[before.len() as int] == last);
            }
            places
        } else {
            before
        }
    }
}

} // verus!
