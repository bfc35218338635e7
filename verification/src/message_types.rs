//! How the claims of credentials take part in the proofs of a presentation: revealed, hidden behind
//! a blinder that proofs share, or known to the proof of their signature alone.
use vstd::prelude::*;
use crate::claim::{ClaimData, EncodingView};
use crate::credential::Credential;
use crate::linking;
use crate::message::{HiddenMessage, ProofMessage};
use crate::ordered_map;
use crate::ordered_map::OrderedMap;
use crate::scalar::Scalar;
use crate::statement::Statements;
use crate::suite;
use crate::suite::ProofSuite;

verus! {

/// The signature statements among `statements`, in order.
pub open spec fn signatures_of(statements: Seq<(Seq<char>, Statements)>) -> Seq<
    (Seq<char>, Statements),
> {
    statements.filter(|e: (Seq<char>, Statements)| e.1 is Signature)
}

/// The statements among `statements` that are not about a signature, in order.
pub open spec fn predicates_of(statements: Seq<(Seq<char>, Statements)>) -> Seq<
    (Seq<char>, Statements),
> {
    statements.filter(|e: (Seq<char>, Statements)| !(e.1 is Signature))
}

/// Each part of the statements holds its own kind alone.
pub proof fn lemma_parts(statements: Seq<(Seq<char>, Statements)>)
    ensures
        forall|k: int|
            0 <= k < signatures_of(statements).len() ==> (
            #[trigger] signatures_of(statements)[k]).1 is Signature,
        forall|k: int|
            0 <= k < predicates_of(statements).len() ==> !((
            #[trigger] predicates_of(statements)[k]).1 is Signature),
    decreases statements.len(),
{
    reveal(Seq::filter);
    if statements.len() > 0 {
        lemma_parts(statements.drop_last());
    }
}

/// The entries of a map that borrows its statements.
pub open spec fn borrowed(statements: OrderedMap<&Statements>) -> Seq<(Seq<char>, Statements)> {
    statements.listing().map_values(|e: (Seq<char>, &Statements)| (e.0, *e.1))
}

/// Borrowing the values of a map leaves its keys.
pub(crate) proof fn lemma_borrowed_keys(statements: OrderedMap<&Statements>, id: Seq<char>)
    ensures
        ordered_map::has_key(borrowed(statements), id) == statements@.dom().contains(id),
{
    let all = borrowed(statements);
    if ordered_map::has_key(all, id) {
        let i = ordered_map::key_index(all, id);
        assert(statements.listing()[i].0 == id);
    }
    if statements@.dom().contains(id) {
        let i = ordered_map::key_index(statements.listing(), id);
        assert(all[i].0 == id);
    }
}

/// Borrowing the values of a map leaves the order of its keys.
pub(crate) proof fn lemma_borrowed_ascending(statements: OrderedMap<&Statements>)
    requires
        statements.wf(),
    ensures
        ordered_map::ascending(borrowed(statements)),
{
    let all = borrowed(statements);
    assert forall|i: int, j: int| 0 <= i < j < all.len() implies ordered_map::text_before(
        #[trigger] all[i].0,
        #[trigger] all[j].0,
    ) by {
        assert(all[i].0 == statements.listing()[i].0);
        assert(all[j].0 == statements.listing()[j].0);
    }
}

/// The values of a map of lists, each as a sequence.
pub open spec fn lists<T>(map: OrderedMap<Vec<T>>) -> Map<Seq<char>, Seq<T>> {
    map@.map_values(|v: Vec<T>| v@)
}

/// A reference is to a claim of a credential, or to a predicate.
pub open spec fn reference_resolves(
    credentials: Map<Seq<char>, Credential>,
    predicates: Seq<(Seq<char>, Statements)>,
    reference: (Seq<char>, usize),
) -> bool {
    if credentials.dom().contains(reference.0) {
        reference.1 < credentials[reference.0].claims@.len()
    } else {
        ordered_map::has_key(predicates, reference.0)
    }
}

/// Every claim that a predicate speaks of is a claim of a credential, or the predicate speaks of
/// another predicate.
pub open spec fn references_resolve(
    credentials: Map<Seq<char>, Credential>,
    predicates: Seq<(Seq<char>, Statements)>,
) -> bool {
    forall|k: int, j: int|
        0 <= k < predicates.len() && 0 <= j < predicates[k].1.references().len()
            ==> reference_resolves(
            credentials,
            predicates,
            #[trigger] predicates[k].1.references()[j],
        )
}

/// A predicate speaks of the claim at `index` of the credential `id`.
pub open spec fn is_referenced(
    predicates: Seq<(Seq<char>, Statements)>,
    id: Seq<char>,
    index: int,
) -> bool {
    exists|k: int, j: int|
        0 <= k < predicates.len() && 0 <= j < predicates[k].1.references().len()
            && (#[trigger] predicates[k].1.references()[j]).0 == id
            && predicates[k].1.references()[j].1 == index
}

/// The flags say of every claim of every credential whether a predicate speaks of it.
pub open spec fn flags_references(
    flags: OrderedMap<Vec<bool>>,
    credentials: OrderedMap<Credential>,
    predicates: Seq<(Seq<char>, Statements)>,
) -> bool {
    &&& flags@.dom() == credentials@.dom()
    &&& forall|id: Seq<char>| #[trigger]
        flags@.dom().contains(id) ==> flags@[id]@ =~= Seq::new(
            credentials@[id].claims@.len(),
            |i: int| is_referenced(predicates, id, i),
        )
}

/// The statements are about signatures, each of a credential that is held.
pub open spec fn signatures_are_held(
    credentials: Map<Seq<char>, Credential>,
    signatures: Seq<(Seq<char>, Statements)>,
) -> bool {
    forall|k: int|
        0 <= k < signatures.len() ==> (#[trigger] signatures[k]).1 is Signature
            && credentials.dom().contains(signatures[k].0)
}

/// Each credential has a signature statement, and each of its claims has a label there.
pub open spec fn claims_are_labelled(
    credentials: Map<Seq<char>, Credential>,
    signatures: Seq<(Seq<char>, Statements)>,
) -> bool {
    forall|k: int, i: int|
        0 <= k < signatures.len() && 0 <= i < credentials[signatures[k].0].claims@.len() ==> (
        #[trigger] signatures[k].1->Signature_0.issuer.schema.label(i)) is Some
}

/// Predicates that speak of several claims speak of claims of signatures alone.
pub open spec fn shared_claims_are_signed(
    signatures: Seq<(Seq<char>, Statements)>,
    predicates: Seq<(Seq<char>, Statements)>,
) -> bool {
    forall|k: int, j: int|
        0 <= k < predicates.len() && 0 <= j < predicates[k].1.references().len()
            && predicates[k].1.references().len() > 1 ==> ordered_map::has_key(
            signatures,
            (#[trigger] predicates[k].1.references()[j]).0,
        )
}

/// There is a value for every claim of every credential.
pub open spec fn is_per_claim<T>(
    credentials: Map<Seq<char>, Credential>,
    signatures: Seq<(Seq<char>, Statements)>,
    table: Map<Seq<char>, Seq<T>>,
) -> bool {
    forall|k: int|
        0 <= k < signatures.len() ==> table.dom().contains((#[trigger] signatures[k]).0)
            && table[signatures[k].0].len() == credentials[signatures[k].0].claims@.len()
}

/// The suite gives an encoding of the claim with this scalar.
pub open spec fn scalar_given<S: ProofSuite>(claim: ClaimData, scalar: Scalar) -> bool {
    exists|e: EncodingView| #[trigger] suite::encoded::<S>(claim, e) && e.scalar == scalar
}

/// Each scalar is that of an encoding that the suite gives of the claim.
pub open spec fn scalars_are_encoded<S: ProofSuite>(
    credentials: Map<Seq<char>, Credential>,
    signatures: Seq<(Seq<char>, Statements)>,
    scalars: Map<Seq<char>, Seq<Scalar>>,
) -> bool {
    forall|k: int, i: int|
        0 <= k < signatures.len() && 0 <= i < credentials[signatures[k].0].claims@.len()
            ==> scalar_given::<S>(
            credentials[signatures[k].0].claims@[i],
            #[trigger] scalars[signatures[k].0][i],
        )
}

/// The claim at `place` stays hidden, and a predicate speaks of it, so that proofs share its
/// blinder. A claim stays hidden where one of those that comparisons link it with is not disclosed.
pub open spec fn is_shared(
    signatures: Seq<(Seq<char>, Statements)>,
    predicates: Seq<(Seq<char>, Statements)>,
    place: (int, int),
) -> bool {
    !linking::is_open(signatures, predicates, place) && is_referenced(
        predicates,
        signatures[place.0].0,
        place.1,
    )
}

/// The blinders of those that are shared among the first `n` claims of the `k`-th signature
/// statement, in order.
pub open spec fn own_draws(
    signatures: Seq<(Seq<char>, Statements)>,
    predicates: Seq<(Seq<char>, Statements)>,
    blinders: Seq<Scalar>,
    k: int,
    n: int,
) -> Seq<Scalar>
    decreases n,
{
    if n <= 0 {
        seq![]
    } else {
        let before = own_draws(signatures, predicates, blinders, k, n - 1);
        if is_shared(signatures, predicates, (k, n - 1)) {
            before.push(blinders[n - 1])
        } else {
            before
        }
    }
}

/// The blinders of the claims of the first `n` signature statements that are shared, in order of
/// signature statements and then of indices.
pub open spec fn shared_draws(
    signatures: Seq<(Seq<char>, Statements)>,
    predicates: Seq<(Seq<char>, Statements)>,
    blinders: Map<Seq<char>, Seq<Scalar>>,
    n: int,
) -> Seq<Scalar>
    decreases n,
{
    if n <= 0 {
        seq![]
    } else {
        let own = blinders[signatures[n - 1].0];
        shared_draws(signatures, predicates, blinders, n - 1) + own_draws(
            signatures,
            predicates,
            own,
            n - 1,
            own.len() as int,
        )
    }
}

/// How many blinders of shared claims come before that of the claim at `place`.
pub open spec fn draw_position(
    signatures: Seq<(Seq<char>, Statements)>,
    predicates: Seq<(Seq<char>, Statements)>,
    blinders: Map<Seq<char>, Seq<Scalar>>,
    place: (int, int),
) -> int {
    let own = blinders[signatures[place.0].0];
    shared_draws(signatures, predicates, blinders, place.0).len() as int + own_draws(
        signatures,
        predicates,
        own,
        place.0,
        place.1,
    ).len() as int
}

/// The scalars that were drawn are the blinders of the shared claims, one for each of them in order
/// of signature statements and then of indices, and no other.
pub open spec fn blinders_are_drawn(
    signatures: Seq<(Seq<char>, Statements)>,
    predicates: Seq<(Seq<char>, Statements)>,
    blinders: Map<Seq<char>, Seq<Scalar>>,
    draws: Seq<Scalar>,
) -> bool {
    &&& draws == shared_draws(signatures, predicates, blinders, signatures.len() as int)
    &&& forall|i: int| 0 <= i < draws.len() ==> (#[trigger] draws[i]).is_drawn()
}

/// How the claim at `place` takes part in the proofs, with the message and the blinder of the first
/// claim that comparisons link it with: revealed where all claims that it is linked with are
/// disclosed; else, where a predicate speaks of it, behind the blinder; else, as it is linked with
/// itself alone, with a blinder of the proof's own.
pub open spec fn proof_message(
    signatures: Seq<(Seq<char>, Statements)>,
    predicates: Seq<(Seq<char>, Statements)>,
    scalars: Map<Seq<char>, Seq<Scalar>>,
    blinders: Map<Seq<char>, Seq<Scalar>>,
    place: (int, int),
) -> ProofMessage {
    let first = linking::leader(signatures, predicates, place);
    let id = signatures[first.0].0;
    if linking::is_open(signatures, predicates, place) {
        ProofMessage::Revealed(scalars[id][first.1])
    } else if is_shared(signatures, predicates, place) {
        ProofMessage::Hidden(
            HiddenMessage::ExternalBlinding(scalars[id][first.1], blinders[id][first.1]),
        )
    } else {
        ProofMessage::Hidden(
            HiddenMessage::ProofSpecificBlinding(scalars[signatures[place.0].0][place.1]),
        )
    }
}

/// How each claim of each credential takes part in the proofs of a presentation.
pub open spec fn proof_messages(
    credentials: Map<Seq<char>, Credential>,
    signatures: Seq<(Seq<char>, Statements)>,
    predicates: Seq<(Seq<char>, Statements)>,
    scalars: Map<Seq<char>, Seq<Scalar>>,
    blinders: Map<Seq<char>, Seq<Scalar>>,
) -> Map<Seq<char>, Seq<ProofMessage>> {
    Map::new(
        |id: Seq<char>| ordered_map::has_key(signatures, id),
        |id: Seq<char>|
            Seq::new(
                credentials[id].claims@.len(),
                |i: int|
                    proof_message(
                        signatures,
                        predicates,
                        scalars,
                        blinders,
                        (ordered_map::key_index(signatures, id), i),
                    ),
            ),
    )
}

/// Which claims of each credential a presentation reveals: those that are disclosed, together with
/// all claims that comparisons link them with.
pub open spec fn revealed_claims(
    credentials: Map<Seq<char>, Credential>,
    signatures: Seq<(Seq<char>, Statements)>,
    predicates: Seq<(Seq<char>, Statements)>,
) -> Map<Seq<char>, Seq<bool>> {
    Map::new(
        |id: Seq<char>| ordered_map::has_key(signatures, id),
        |id: Seq<char>|
            Seq::new(
                credentials[id].claims@.len(),
                |i: int|
                    linking::is_open(
                        signatures,
                        predicates,
                        (ordered_map::key_index(signatures, id), i),
                    ),
            ),
    )
}

/// The messages are those of the suite's encodings of the claims and of the scalars that were drawn
/// as blinders.
pub open spec fn has_message_types<S: ProofSuite>(
    credentials: Map<Seq<char>, Credential>,
    signatures: Seq<(Seq<char>, Statements)>,
    predicates: Seq<(Seq<char>, Statements)>,
    draws: Seq<Scalar>,
    messages: Map<Seq<char>, Seq<ProofMessage>>,
) -> bool {
    exists|scalars: Map<Seq<char>, Seq<Scalar>>, blinders: Map<Seq<char>, Seq<Scalar>>|
        is_per_claim(credentials, signatures, scalars) && scalars_are_encoded::<S>(
            credentials,
            signatures,
            scalars,
        ) && is_per_claim(credentials, signatures, blinders) && blinders_are_drawn(
            signatures,
            predicates,
            blinders,
            draws,
        ) && messages == #[trigger] proof_messages(
            credentials,
            signatures,
            predicates,
            scalars,
            blinders,
        )
}

/// There is a message for each claim, revealed exactly where all claims that it is linked with are
/// disclosed; a hidden claim that a predicate speaks of has a blinder that its proofs share.
pub proof fn lemma_message_types<S: ProofSuite>(
    credentials: Map<Seq<char>, Credential>,
    signatures: Seq<(Seq<char>, Statements)>,
    predicates: Seq<(Seq<char>, Statements)>,
    draws: Seq<Scalar>,
    messages: Map<Seq<char>, Seq<ProofMessage>>,
)
    requires
        has_message_types::<S>(credentials, signatures, predicates, draws, messages),
    ensures
        forall|id: Seq<char>| #[trigger]
            messages.dom().contains(id) <==> ordered_map::has_key(signatures, id),
        forall|id: Seq<char>| #[trigger]
            messages.dom().contains(id) ==> messages[id].len() == credentials[id].claims@.len(),
        forall|id: Seq<char>, i: int|
            messages.dom().contains(id) && 0 <= i < messages[id].len() ==> (
            #[trigger] messages[id][i] is Revealed) == revealed_claims(
                credentials,
                signatures,
                predicates,
            )[id][i],
        forall|id: Seq<char>, i: int|
            messages.dom().contains(id) && 0 <= i < messages[id].len() && is_referenced(
                predicates,
                id,
                i,
            ) ==> (#[trigger] messages[id][i]) is Revealed || messages[id][i].is_shared(),
{
    assert forall|id: Seq<char>, i: int|
        messages.dom().contains(id) && 0 <= i < messages[id].len() && is_referenced(
            predicates,
            id,
            i,
        ) implies (#[trigger] messages[id][i]) is Revealed || messages[id][i].is_shared() by {
        let k = ordered_map::key_index(signatures, id);
        assert(ordered_map::has_key(signatures, id));
        assert(signatures[k].0 == id);
    }
}

/// The blinder of a shared claim stands among those of the first `n` claims of its signature
/// statement.
proof fn lemma_own_draw(
    signatures: Seq<(Seq<char>, Statements)>,
    predicates: Seq<(Seq<char>, Statements)>,
    blinders: Seq<Scalar>,
    k: int,
    i: int,
    n: int,
)
    requires
        0 <= i < n,
        is_shared(signatures, predicates, (k, i)),
    ensures
        ({
            let at = own_draws(signatures, predicates, blinders, k, i).len() as int;
            let draws = own_draws(signatures, predicates, blinders, k, n);
            at < draws.len() && draws[at] == blinders[i]
        }),
    decreases n,
{
    if i < n - 1 {
        lemma_own_draw(signatures, predicates, blinders, k, i, n - 1);
    }
}

/// The blinder of a shared claim stands at its position among those of the claims of the first `n`
/// signature statements.
pub proof fn lemma_shared_draw(
    signatures: Seq<(Seq<char>, Statements)>,
    predicates: Seq<(Seq<char>, Statements)>,
    blinders: Map<Seq<char>, Seq<Scalar>>,
    place: (int, int),
    n: int,
)
    requires
        0 <= place.0 < n <= signatures.len(),
        0 <= place.1 < blinders[signatures[place.0].0].len(),
        is_shared(signatures, predicates, place),
    ensures
        ({
            let at = draw_position(signatures, predicates, blinders, place);
            let draws = shared_draws(signatures, predicates, blinders, n);
            0 <= at < draws.len() && draws[at] == blinders[signatures[place.0].0][place.1]
        }),
    decreases n,
{
    if place.0 < n - 1 {
        lemma_shared_draw(signatures, predicates, blinders, place, n - 1);
    } else {
        let own = blinders[signatures[place.0].0];
        lemma_own_draw(signatures, predicates, own, place.0, place.1, own.len() as int);
    }
}

/// The position of the blinder of a shared claim is before those of all later claims.
pub proof fn lemma_draws_ordered(
    signatures: Seq<(Seq<char>, Statements)>,
    predicates: Seq<(Seq<char>, Statements)>,
    blinders: Map<Seq<char>, Seq<Scalar>>,
    a: (int, int),
    b: (int, int),
)
    requires
        0 <= a.0 < signatures.len(),
        0 <= a.1 < blinders[signatures[a.0].0].len(),
        0 <= b.0 < signatures.len(),
        is_shared(signatures, predicates, a),
        linking::place_before(a, b),
    ensures
        draw_position(signatures, predicates, blinders, a) < draw_position(
            signatures,
            predicates,
            blinders,
            b,
        ),
{
    if a.0 == b.0 {
        lemma_own_draw(
            signatures,
            predicates,
            blinders[signatures[a.0].0],
            a.0,
            a.1,
            b.1,
        );
    } else {
        lemma_shared_draw(signatures, predicates, blinders, a, b.0);
    }
}

/// Where the same claims are shared, the same blinders are drawn.
pub proof fn lemma_same_draws(
    signatures: Seq<(Seq<char>, Statements)>,
    p: Seq<(Seq<char>, Statements)>,
    q: Seq<(Seq<char>, Statements)>,
    blinders: Map<Seq<char>, Seq<Scalar>>,
    n: int,
)
    requires
        n <= signatures.len(),
        forall|k: int, i: int|
            0 <= k < signatures.len() && 0 <= i < blinders[signatures[k].0].len() ==> (
            #[trigger] is_shared(signatures, p, (k, i))) == is_shared(signatures, q, (k, i)),
    ensures
        shared_draws(signatures, p, blinders, n) == shared_draws(signatures, q, blinders, n),
    decreases n,
{
    if n > 0 {
        lemma_same_draws(signatures, p, q, blinders, n - 1);
        let own = blinders[signatures[n - 1].0];
        lemma_same_own_draws(signatures, p, q, own, n - 1, own.len() as int);
    }
}

/// The same for the claims of one signature statement.
proof fn lemma_same_own_draws(
    signatures: Seq<(Seq<char>, Statements)>,
    p: Seq<(Seq<char>, Statements)>,
    q: Seq<(Seq<char>, Statements)>,
    blinders: Seq<Scalar>,
    k: int,
    n: int,
)
    requires
        n <= blinders.len(),
        forall|i: int|
            0 <= i < blinders.len() ==> (#[trigger] is_shared(signatures, p, (k, i)))
                == is_shared(signatures, q, (k, i)),
    ensures
        own_draws(signatures, p, blinders, k, n) == own_draws(signatures, q, blinders, k, n),
    decreases n,
{
    if n > 0 {
        lemma_same_own_draws(signatures, p, q, blinders, k, n - 1);
        assert(is_shared(signatures, p, (k, n - 1)) == is_shared(signatures, q, (k, n - 1)));
    }
}

} // verus!
