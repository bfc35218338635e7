//! How claims take part in the proofs.
use vstd::prelude::*;
use crate::credential::Credential;
use crate::linking;
use crate::message::ProofMessage;
use crate::message_types;
use crate::ordered_map;
use crate::scalar::Scalar;
use crate::statement::Statements;
use crate::suite::ProofSuite;

verus! {

/// A claim is revealed exactly where all claims that comparisons link it with are disclosed. So a
/// claim that its signature statement does not disclose is never revealed, and one that no
/// statement compares with another is revealed exactly where it is disclosed.
pub proof fn claims_are_revealed_with_all_that_they_are_linked_with<S: ProofSuite>(
    credentials: Map<Seq<char>, Credential>,
    signatures: Seq<(Seq<char>, Statements)>,
    predicates: Seq<(Seq<char>, Statements)>,
    draws: Seq<Scalar>,
    messages: Map<Seq<char>, Seq<ProofMessage>>,
    id: Seq<char>,
    index: int,
)
    requires
        message_types::has_message_types::<S>(credentials, signatures, predicates, draws, messages),
        ordered_map::has_key(signatures, id),
        0 <= index < credentials[id].claims@.len(),
    ensures
        ({
            let place = (ordered_map::key_index(signatures, id), index);
            let disclosed = ordered_map::map_of(signatures)[id]->Signature_0.discloses(index);
            &&& messages[id][index] is Revealed <==> linking::is_open(signatures, predicates, place)
            &&& !disclosed ==> !(messages[id][index] is Revealed)
            &&& (forall|k: int|
                0 <= k < predicates.len() ==> !linking::ties(
                    signatures,
                    (#[trigger] predicates[k]).1,
                    place,
                )) ==> (messages[id][index] is Revealed <==> disclosed)
        }),
{
    let place = (ordered_map::key_index(signatures, id), index);
    message_types::lemma_message_types::<S>(credentials, signatures, predicates, draws, messages);
    assert(messages.dom().contains(id));
    assert(messages[id][index] is Revealed == message_types::revealed_claims(
        credentials,
        signatures,
        predicates,
    )[id][index]);
    linking::lemma_linked(signatures, predicates, place, place);
    linking::lemma_open(signatures, predicates, place, place);
    if forall|k: int|
        0 <= k < predicates.len() ==> !linking::ties(
            signatures,
            (#[trigger] predicates[k]).1,
            place,
        ) {
        assert forall|b: (int, int)| #[trigger]
            linking::are_linked(signatures, predicates, place, b) implies b == place by {
            linking::lemma_linked_is_tied(signatures, predicates, place, b);
        }
    }
}

/// A hidden claim has a blinder that proofs share exactly where a statement speaks of it; else only
/// the proof of its own signature knows its blinder.
pub proof fn hidden_claims_are_shared_where_statements_speak_of_them<S: ProofSuite>(
    credentials: Map<Seq<char>, Credential>,
    signatures: Seq<(Seq<char>, Statements)>,
    predicates: Seq<(Seq<char>, Statements)>,
    draws: Seq<Scalar>,
    messages: Map<Seq<char>, Seq<ProofMessage>>,
    id: Seq<char>,
    index: int,
)
    requires
        message_types::has_message_types::<S>(credentials, signatures, predicates, draws, messages),
        ordered_map::has_key(signatures, id),
        0 <= index < credentials[id].claims@.len(),
        messages[id][index] is Hidden,
    ensures
        messages[id][index].is_shared() <==> message_types::is_referenced(predicates, id, index),
{
    let k = ordered_map::key_index(signatures, id);
    assert(signatures[k].0 == id);
}

/// The claims that a statement of several claims speaks of take part as one: all of them revealed,
/// with one message, or all of them hidden, with one message and one blinder, whatever other
/// statements compare.
pub proof fn compared_claims_share_their_message<S: ProofSuite>(
    credentials: Map<Seq<char>, Credential>,
    signatures: Seq<(Seq<char>, Statements)>,
    predicates: Seq<(Seq<char>, Statements)>,
    draws: Seq<Scalar>,
    messages: Map<Seq<char>, Seq<ProofMessage>>,
    k: int,
    i: int,
    j: int,
)
    requires
        message_types::signatures_are_held(credentials, signatures),
        message_types::shared_claims_are_signed(signatures, predicates),
        message_types::references_resolve(credentials, predicates),
        message_types::has_message_types::<S>(credentials, signatures, predicates, draws, messages),
        0 <= k < predicates.len(),
        predicates[k].1.references().len() > 1,
        0 <= i < predicates[k].1.references().len(),
        0 <= j < predicates[k].1.references().len(),
    ensures
        ({
            let (a, b) = (predicates[k].1.references()[i], predicates[k].1.references()[j]);
            &&& messages[a.0][a.1 as int] is Revealed || messages[a.0][a.1 as int].is_shared()
            &&& messages[a.0][a.1 as int] == messages[b.0][b.1 as int]
        }),
{
    let references = predicates[k].1.references();
    let (a, b) = (references[i], references[j]);
    let x = (ordered_map::key_index(signatures, a.0), a.1 as int);
    let y = (ordered_map::key_index(signatures, b.0), b.1 as int);
    lemma_tied(credentials, signatures, predicates, k, i);
    lemma_tied(credentials, signatures, predicates, k, j);
    assert(linking::are_compared(signatures, predicates, x, y));
    linking::lemma_linked(signatures, predicates, x, y);
    linking::lemma_linked_share_leader(signatures, predicates, x, y);
    linking::lemma_open(signatures, predicates, x, y);
}

/// A statement of several claims ties the claim of each of its references.
proof fn lemma_tied(
    credentials: Map<Seq<char>, Credential>,
    signatures: Seq<(Seq<char>, Statements)>,
    predicates: Seq<(Seq<char>, Statements)>,
    k: int,
    i: int,
)
    requires
        message_types::signatures_are_held(credentials, signatures),
        message_types::shared_claims_are_signed(signatures, predicates),
        message_types::references_resolve(credentials, predicates),
        0 <= k < predicates.len(),
        predicates[k].1.references().len() > 1,
        0 <= i < predicates[k].1.references().len(),
    ensures
        ({
            let a = predicates[k].1.references()[i];
            let place = (ordered_map::key_index(signatures, a.0), a.1 as int);
            &&& ordered_map::has_key(signatures, a.0)
            &&& a.1 < credentials[a.0].claims@.len()
            &&& signatures[place.0].0 == a.0
            &&& linking::ties(signatures, predicates[k].1, place)
            &&& message_types::is_referenced(predicates, a.0, a.1 as int)
        }),
{
    let a = predicates[k].1.references()[i];
    assert(ordered_map::has_key(signatures, a.0));
    let p = ordered_map::key_index(signatures, a.0);
    assert(signatures[p].0 == a.0);
    assert(credentials.dom().contains(signatures[p].0));
    assert(message_types::reference_resolves(
        credentials,
        predicates,
        predicates[k].1.references()[i],
    ));
    assert(linking::speaks_of(signatures, predicates[k].1, (p, a.1 as int)));
    assert(ordered_map::map_of(signatures)[a.0] == signatures[p].1);
}

/// A claim that no statement compares with another takes part with its own message and its
/// own blinder.
pub proof fn claims_apart_keep_their_messages(
    credentials: Map<Seq<char>, Credential>,
    signatures: Seq<(Seq<char>, Statements)>,
    predicates: Seq<(Seq<char>, Statements)>,
    scalars: Map<Seq<char>, Seq<Scalar>>,
    blinders: Map<Seq<char>, Seq<Scalar>>,
    id: Seq<char>,
    index: int,
)
    requires
        ordered_map::has_key(signatures, id),
        0 <= index < credentials[id].claims@.len(),
        forall|k: int|
            0 <= k < predicates.len() ==> !linking::ties(
                signatures,
                (#[trigger] predicates[k]).1,
                (ordered_map::key_index(signatures, id), index),
            ),
    ensures
        ({
            let message = message_types::proof_messages(
                credentials,
                signatures,
                predicates,
                scalars,
                blinders,
            )[id][index];
            &&& message.message() == scalars[id][index]
            &&& message.is_shared() ==> message.shared_blinder() == blinders[id][index]
        }),
{
    let a = (ordered_map::key_index(signatures, id), index);
    assert(signatures[a.0].0 == id);
    linking::lemma_leader(signatures, predicates, a);
    linking::lemma_linked_is_tied(
        signatures,
        predicates,
        a,
        linking::leader(signatures, predicates, a),
    );
}

/// The claims that are shared have leaders that are shared.
proof fn lemma_leader_is_shared(
    credentials: Map<Seq<char>, Credential>,
    signatures: Seq<(Seq<char>, Statements)>,
    predicates: Seq<(Seq<char>, Statements)>,
    a: (int, int),
)
    requires
        message_types::signatures_are_held(credentials, signatures),
        message_types::references_resolve(credentials, predicates),
        0 <= a.0 < signatures.len(),
        0 <= a.1 < credentials[signatures[a.0].0].claims@.len(),
        message_types::is_shared(signatures, predicates, a),
    ensures
        ({
            let l = linking::leader(signatures, predicates, a);
            &&& 0 <= l.0 < signatures.len()
            &&& 0 <= l.1 < credentials[signatures[l.0].0].claims@.len()
            &&& linking::are_linked(signatures, predicates, a, l)
            &&& message_types::is_shared(signatures, predicates, l)
        }),
{
    let l = linking::leader(signatures, predicates, a);
    linking::lemma_leader(signatures, predicates, a);
    linking::lemma_linked_is_tied(signatures, predicates, a, l);
    linking::lemma_open(signatures, predicates, a, l);
    if l != a {
        let k = choose|k: int|
            0 <= k < predicates.len() && linking::ties(signatures, (#[trigger] predicates[k]).1, l);
        let references = predicates[k].1.references();
        let j = choose|j: int|
            0 <= j < references.len() && (#[trigger] references[j]).0 == signatures[l.0].0
                && references[j].1 == l.1;
        assert(message_types::reference_resolves(
            credentials,
            predicates,
            predicates[k].1.references()[j],
        ));
        assert(credentials.dom().contains(signatures[l.0].0));
        assert(message_types::is_referenced(predicates, signatures[l.0].0, l.1));
    }
}

/// Every blinder that proofs share was drawn. Claims that comparisons do not link have draws of
/// their own, in the order of the first claims that they are linked with; claims that they link
/// share one.
pub proof fn shared_blinders_have_draws_of_their_own<S: ProofSuite>(
    credentials: Map<Seq<char>, Credential>,
    signatures: Seq<(Seq<char>, Statements)>,
    predicates: Seq<(Seq<char>, Statements)>,
    draws: Seq<Scalar>,
    messages: Map<Seq<char>, Seq<ProofMessage>>,
    a: (int, int),
    b: (int, int),
) -> (r: (int, int))
    requires
        message_types::signatures_are_held(credentials, signatures),
        message_types::references_resolve(credentials, predicates),
        ordered_map::ascending(signatures),
        message_types::has_message_types::<S>(credentials, signatures, predicates, draws, messages),
        0 <= a.0 < signatures.len(),
        0 <= a.1 < credentials[signatures[a.0].0].claims@.len(),
        0 <= b.0 < signatures.len(),
        0 <= b.1 < credentials[signatures[b.0].0].claims@.len(),
        messages[signatures[a.0].0][a.1].is_shared(),
        messages[signatures[b.0].0][b.1].is_shared(),
    ensures
        0 <= r.0 < draws.len(),
        0 <= r.1 < draws.len(),
        draws[r.0] == messages[signatures[a.0].0][a.1].shared_blinder(),
        draws[r.1] == messages[signatures[b.0].0][b.1].shared_blinder(),
        draws[r.0].is_drawn(),
        draws[r.1].is_drawn(),
        r.0 == r.1 <==> linking::are_linked(signatures, predicates, a, b),
        r.0 < r.1 <==> linking::place_before(
            linking::leader(signatures, predicates, a),
            linking::leader(signatures, predicates, b),
        ),
{
    let (scalars, blinders) = choose|
        scalars: Map<Seq<char>, Seq<Scalar>>,
        blinders: Map<Seq<char>, Seq<Scalar>>,
    |
        message_types::is_per_claim(credentials, signatures, scalars)
            && message_types::scalars_are_encoded::<S>(credentials, signatures, scalars)
            && message_types::is_per_claim(credentials, signatures, blinders)
            && message_types::blinders_are_drawn(signatures, predicates, blinders, draws)
            && messages == #[trigger] message_types::proof_messages(
            credentials,
            signatures,
            predicates,
            scalars,
            blinders,
        );
    let n = signatures.len() as int;
    let l = linking::leader(signatures, predicates, a);
    let m = linking::leader(signatures, predicates, b);
    ordered_map::lemma_entry_found(signatures, a.0);
    ordered_map::lemma_entry_found(signatures, b.0);
    lemma_leader_is_shared(credentials, signatures, predicates, a);
    lemma_leader_is_shared(credentials, signatures, predicates, b);
    assert(blinders.dom().contains(signatures[l.0].0));
    assert(blinders.dom().contains(signatures[m.0].0));
    message_types::lemma_shared_draw(signatures, predicates, blinders, l, n);
    message_types::lemma_shared_draw(signatures, predicates, blinders, m, n);
    if linking::place_before(l, m) {
        message_types::lemma_draws_ordered(signatures, predicates, blinders, l, m);
    }
    if linking::place_before(m, l) {
        message_types::lemma_draws_ordered(signatures, predicates, blinders, m, l);
    }
    if linking::are_linked(signatures, predicates, a, b) {
        linking::lemma_linked_share_leader(signatures, predicates, a, b);
    }
    if l == m {
        linking::lemma_linked_symmetric(signatures, predicates, b, m);
        linking::lemma_linked_transitive(signatures, predicates, a, l, b);
    }
    (
        message_types::draw_position(signatures, predicates, blinders, l),
        message_types::draw_position(signatures, predicates, blinders, m),
    )
}

/// A statement that speaks of another statement, and that no other statement speaks of, is no error
/// and changes no message: with it and without it the same references resolve, and the same
/// messages come of the same encodings and blinders.
pub proof fn statements_about_statements_change_no_message<S: ProofSuite>(
    credentials: Map<Seq<char>, Credential>,
    signatures: Seq<(Seq<char>, Statements)>,
    predicates: Seq<(Seq<char>, Statements)>,
    k: int,
    scalars: Map<Seq<char>, Seq<Scalar>>,
    blinders: Map<Seq<char>, Seq<Scalar>>,
    draws: Seq<Scalar>,
    messages: Map<Seq<char>, Seq<ProofMessage>>,
)
    requires
        message_types::signatures_are_held(credentials, signatures),
        0 <= k < predicates.len(),
        predicates[k].1.references().len() == 1,
        ordered_map::has_key(predicates.remove(k), predicates[k].1.references()[0].0),
        !credentials.dom().contains(predicates[k].1.references()[0].0),
        forall|l: int, j: int|
            0 <= l < predicates.len() && l != k && 0 <= j < predicates[l].1.references().len()
                ==> (#[trigger] predicates[l].1.references()[j]).0 != predicates[k].0,
    ensures
        message_types::references_resolve(credentials, predicates)
            <==> message_types::references_resolve(credentials, predicates.remove(k)),
        message_types::proof_messages(credentials, signatures, predicates, scalars, blinders)
            == message_types::proof_messages(
            credentials,
            signatures,
            predicates.remove(k),
            scalars,
            blinders,
        ),
        message_types::has_message_types::<S>(credentials, signatures, predicates, draws, messages)
            <==> message_types::has_message_types::<S>(
            credentials,
            signatures,
            predicates.remove(k),
            draws,
            messages,
        ),
{
    let fewer = predicates.remove(k);
    lemma_resolve_without(credentials, predicates, k);
    lemma_messages_without(credentials, signatures, predicates, k, scalars, blinders);
    assert forall|scalars: Map<Seq<char>, Seq<Scalar>>, blinders: Map<Seq<char>, Seq<Scalar>>|
        #![trigger message_types::proof_messages(
            credentials,
            signatures,
            predicates,
            scalars,
            blinders,
        )]
        #![trigger message_types::proof_messages(credentials, signatures, fewer, scalars, blinders)]
        {
            &&& message_types::proof_messages(
                credentials,
                signatures,
                predicates,
                scalars,
                blinders,
            ) == message_types::proof_messages(credentials, signatures, fewer, scalars, blinders)
            &&& message_types::blinders_are_drawn(signatures, predicates, blinders, draws)
                == message_types::blinders_are_drawn(signatures, fewer, blinders, draws)
        } by {
        lemma_messages_without(credentials, signatures, predicates, k, scalars, blinders);
    }
}

/// Where each entry but one stands without it.
spec fn without(k: int, l: int) -> int {
    if l < k {
        l
    } else {
        l - 1
    }
}

/// With a statement about another statement and without it, the same references resolve.
proof fn lemma_resolve_without(
    credentials: Map<Seq<char>, Credential>,
    predicates: Seq<(Seq<char>, Statements)>,
    k: int,
)
    requires
        0 <= k < predicates.len(),
        predicates[k].1.references().len() == 1,
        ordered_map::has_key(predicates.remove(k), predicates[k].1.references()[0].0),
        !credentials.dom().contains(predicates[k].1.references()[0].0),
        forall|l: int, j: int|
            0 <= l < predicates.len() && l != k && 0 <= j < predicates[l].1.references().len()
                ==> (#[trigger] predicates[l].1.references()[j]).0 != predicates[k].0,
    ensures
        message_types::references_resolve(credentials, predicates)
            <==> message_types::references_resolve(credentials, predicates.remove(k)),
{
    let fewer = predicates.remove(k);
    assert forall|id: Seq<char>| id != predicates[k].0 implies (#[trigger] ordered_map::has_key(
        predicates,
        id,
    )) == ordered_map::has_key(fewer, id) by {
        if ordered_map::has_key(predicates, id) {
            let l = ordered_map::key_index(predicates, id);
            assert(fewer[without(k, l)] == predicates[l]);
        }
        if ordered_map::has_key(fewer, id) {
            let l = ordered_map::key_index(fewer, id);
            assert(predicates[if l < k {
                l
            } else {
                l + 1
            }] == fewer[l]);
        }
    }
    if message_types::references_resolve(credentials, predicates) {
        assert forall|l: int, j: int|
            0 <= l < fewer.len() && 0 <= j < fewer[l].1.references().len()
            implies message_types::reference_resolves(
            credentials,
            fewer,
            #[trigger] fewer[l].1.references()[j],
        ) by {
            let m = if l < k {
                l
            } else {
                l + 1
            };
            assert(fewer[l] == predicates[m]);
            assert(message_types::reference_resolves(
                credentials,
                predicates,
                predicates[m].1.references()[j],
            ));
        }
    }
    if message_types::references_resolve(credentials, fewer) {
        assert forall|l: int, j: int|
            0 <= l < predicates.len() && 0 <= j < predicates[l].1.references().len()
            implies message_types::reference_resolves(
            credentials,
            predicates,
            #[trigger] predicates[l].1.references()[j],
        ) by {
            if l == k {
                let id = predicates[k].1.references()[0].0;
                let m = ordered_map::key_index(fewer, id);
                assert(predicates[if m < k {
                    m
                } else {
                    m + 1
                }] == fewer[m]);
            } else {
                assert(fewer[without(k, l)] == predicates[l]);
                assert(message_types::reference_resolves(
                    credentials,
                    fewer,
                    fewer[without(k, l)].1.references()[j],
                ));
            }
        }
    }
}

/// With a statement about another statement and without it, the same claims are spoken of and the
/// same messages come out.
proof fn lemma_messages_without(
    credentials: Map<Seq<char>, Credential>,
    signatures: Seq<(Seq<char>, Statements)>,
    predicates: Seq<(Seq<char>, Statements)>,
    k: int,
    scalars: Map<Seq<char>, Seq<Scalar>>,
    blinders: Map<Seq<char>, Seq<Scalar>>,
)
    requires
        message_types::signatures_are_held(credentials, signatures),
        0 <= k < predicates.len(),
        predicates[k].1.references().len() == 1,
        !credentials.dom().contains(predicates[k].1.references()[0].0),
    ensures
        message_types::proof_messages(credentials, signatures, predicates, scalars, blinders)
            == message_types::proof_messages(
            credentials,
            signatures,
            predicates.remove(k),
            scalars,
            blinders,
        ),
        message_types::shared_draws(signatures, predicates, blinders, signatures.len() as int)
            == message_types::shared_draws(
            signatures,
            predicates.remove(k),
            blinders,
            signatures.len() as int,
        ),
{
    let fewer = predicates.remove(k);
    assert forall|a: (int, int), b: (int, int)|
        #![trigger linking::are_compared(signatures, predicates, a, b)]
        #![trigger linking::are_compared(signatures, fewer, a, b)]
        linking::are_compared(signatures, predicates, a, b) == linking::are_compared(
            signatures,
            fewer,
            a,
            b,
        ) by {
        if linking::are_compared(signatures, predicates, a, b) {
            let l = choose|l: int|
                0 <= l < predicates.len() && linking::ties(
                    signatures,
                    (#[trigger] predicates[l]).1,
                    a,
                ) && linking::ties(signatures, predicates[l].1, b);
            assert(fewer[without(k, l)] == predicates[l]);
        }
        if linking::are_compared(signatures, fewer, a, b) {
            let l = choose|l: int|
                0 <= l < fewer.len() && linking::ties(signatures, (#[trigger] fewer[l]).1, a)
                    && linking::ties(signatures, fewer[l].1, b);
            assert(predicates[if l < k {
                l
            } else {
                l + 1
            }] == fewer[l]);
        }
    }
    assert forall|p: int, i: int| 0 <= p < signatures.len() implies (
    #[trigger] message_types::is_referenced(predicates, signatures[p].0, i))
        == message_types::is_referenced(fewer, signatures[p].0, i) by {
        lemma_referenced_without(credentials, signatures, predicates, k, p, i);
    }
    let x = message_types::proof_messages(credentials, signatures, predicates, scalars, blinders);
    let y = message_types::proof_messages(credentials, signatures, fewer, scalars, blinders);
    assert forall|id: Seq<char>| ordered_map::has_key(
        signatures,
        id,
    ) implies x[id] == #[trigger] y[id] by {
        let p = ordered_map::key_index(signatures, id);
        assert(signatures[p].0 == id);
        assert forall|i: int| 0 <= i < credentials[id].claims@.len() implies x[id][i]
            == y[id][i] by {
            linking::lemma_same_comparisons(signatures, predicates, fewer, (p, i));
            assert(message_types::is_referenced(predicates, signatures[p].0, i)
                == message_types::is_referenced(fewer, signatures[p].0, i));
        }
        assert(x[id] =~= y[id]);
    }
    assert(x =~= y);
    assert forall|p: int, i: int|
        0 <= p < signatures.len() && 0 <= i < blinders[signatures[p].0].len() implies (
    #[trigger] message_types::is_shared(signatures, predicates, (p, i)))
        == message_types::is_shared(signatures, fewer, (p, i)) by {
        linking::lemma_same_comparisons(signatures, predicates, fewer, (p, i));
        assert(message_types::is_referenced(predicates, signatures[p].0, i)
            == message_types::is_referenced(fewer, signatures[p].0, i));
    }
    message_types::lemma_same_draws(
        signatures,
        predicates,
        fewer,
        blinders,
        signatures.len() as int,
    );
}

/// With a statement about another statement and without it, the same claims are spoken of.
proof fn lemma_referenced_without(
    credentials: Map<Seq<char>, Credential>,
    signatures: Seq<(Seq<char>, Statements)>,
    predicates: Seq<(Seq<char>, Statements)>,
    k: int,
    p: int,
    i: int,
)
    requires
        message_types::signatures_are_held(credentials, signatures),
        0 <= k < predicates.len(),
        predicates[k].1.references().len() == 1,
        !credentials.dom().contains(predicates[k].1.references()[0].0),
        0 <= p < signatures.len(),
    ensures
        message_types::is_referenced(predicates, signatures[p].0, i)
            == message_types::is_referenced(predicates.remove(k), signatures[p].0, i),
{
    let fewer = predicates.remove(k);
    let id = signatures[p].0;
    assert(credentials.dom().contains(signatures[p].0));
    if message_types::is_referenced(predicates, id, i) {
        let (l, j) = choose|l: int, j: int|
            0 <= l < predicates.len() && 0 <= j < predicates[l].1.references().len()
                && (#[trigger] predicates[l].1.references()[j]).0 == id
                && predicates[l].1.references()[j].1 == i;
        assert(fewer[without(k, l)] == predicates[l]);
        assert(fewer[without(k, l)].1.references()[j].0 == id);
    }
    if message_types::is_referenced(fewer, id, i) {
        let (l, j) = choose|l: int, j: int|
            0 <= l < fewer.len() && 0 <= j < fewer[l].1.references().len()
                && (#[trigger] fewer[l].1.references()[j]).0 == id
                && fewer[l].1.references()[j].1 == i;
        let m = if l < k {
            l
        } else {
            l + 1
        };
        assert(predicates[m] == fewer[l]);
        assert(predicates[m].1.references()[j].0 == id);
    }
}

} // verus!
