//! What the proof suite is asked for a presentation that is made, and what its answers become.
use vstd::prelude::*;
use merlin::Transcript;
use crate::claim::{ClaimData, ClaimEncoding, NumberClaim};
use crate::creation;
use crate::creation::{CreateRun, Step};
use crate::credential::Credential;
use crate::laws::challenges;
use crate::laws::presentations;
use crate::laws::statements;
use crate::linking;
use crate::message::{HiddenMessage, ProofMessage};
use crate::message_types;
use crate::ordered_map;
use crate::ordered_map::OrderedMap;
use crate::presentation::Presentation;
use crate::proofs::PresentationProofs;
use crate::scalar::Scalar;
use crate::statement::{PresentationSchema, Statements};
use crate::suite;
use crate::suite::{Committed, PresentationBuilder, ProofSuite};
use crate::transcript;
use crate::transcript::Contribution;

verus! {

/// The statement under an id stands in its part of the schema.
pub(crate) proof fn lemma_part(schema: PresentationSchema, id: Seq<char>) -> (k: int)
    requires
        schema.statements.wf(),
        schema.statements@.dom().contains(id),
    ensures
        schema.statements@[id] is Signature ==> {
            let signatures = message_types::signatures_of(schema.statements.listing());
            0 <= k < signatures.len() && signatures[k] == (id, schema.statements@[id])
                && ordered_map::key_index(signatures, id) == k
        },
        !(schema.statements@[id] is Signature) ==> {
            let predicates = message_types::predicates_of(schema.statements.listing());
            0 <= k < predicates.len() && predicates[k] == (id, schema.statements@[id])
                && ordered_map::key_index(predicates, id) == k
        },
{
    let all = schema.statements.listing();
    let signatures = message_types::signatures_of(all);
    let predicates = message_types::predicates_of(all);
    statements::lemma_members(all);
    let q = ordered_map::key_index(all, id);
    assert(all[q] == (id, schema.statements@[id]));
    assert(all.contains(all[q]));
    if schema.statements@[id] is Signature {
        assert(signatures.contains(all[q]));
        let k = choose|k: int| 0 <= k < signatures.len() && signatures[k] == all[q];
        ordered_map::lemma_entry_found(signatures, k);
        k
    } else {
        assert(predicates.contains(all[q]));
        let k = choose|k: int| 0 <= k < predicates.len() && predicates[k] == all[q];
        ordered_map::lemma_entry_found(predicates, k);
        k
    }
}

/// How many of the first `n` statements are not ranges.
pub open spec fn others_before(predicates: Seq<(Seq<char>, Statements)>, n: int) -> nat {
    predicates.take(n).filter(|e: (Seq<char>, Statements)| !(e.1 is Range)).len()
}

/// How many of the first `n` statements are ranges.
pub open spec fn ranges_before(predicates: Seq<(Seq<char>, Statements)>, n: int) -> nat {
    predicates.take(n).filter(|e: (Seq<char>, Statements)| e.1 is Range).len()
}

/// Where the proof of a statement stands among those of a presentation: first those of the ranges,
/// then those of the signatures, then all others, each in the order of their ids.
pub open spec fn proof_position(schema: PresentationSchema, id: Seq<char>) -> int {
    let signatures = message_types::signatures_of(schema.statements.listing());
    let predicates = message_types::predicates_of(schema.statements.listing());
    let ranges = ranges_before(predicates, predicates.len() as int) as int;
    match schema.statements@[id] {
        Statements::Range(_) => ranges_before(
            predicates,
            ordered_map::key_index(predicates, id),
        ) as int,
        Statements::Signature(_) => ranges + ordered_map::key_index(signatures, id),
        _ => ranges + signatures.len() as int + others_before(
            predicates,
            ordered_map::key_index(predicates, id),
        ) as int,
    }
}

/// No statement compares the claim at `index` of the credential `id` with another one.
pub open spec fn stands_alone(schema: PresentationSchema, id: Seq<char>, index: int) -> bool {
    forall|q: int|
        0 <= q < schema.statements.listing().len() ==> match (
        #[trigger] schema.statements.listing()[q]).1 {
            Statements::Equality(e) => {
                ||| e.ref_id_claim_index.listing().len() <= 1
                ||| forall|p: int|
                    0 <= p < e.ref_id_claim_index.listing().len() ==> !((
                    #[trigger] e.ref_id_claim_index.listing()[p]).0 == id
                        && e.ref_id_claim_index.listing()[p].1 == index)
            },
            _ => true,
        }
}

/// As many builders come of the first `n` statements as there are ranges among them, or others.
proof fn lemma_counted<S: ProofSuite>(
    predicates: Seq<(Seq<char>, Statements)>,
    steps: Seq<Step<S>>,
    ranges: bool,
    n: int,
)
    requires
        0 <= n <= predicates.len(),
        n <= steps.len(),
        forall|k: int|
            0 <= k < n ==> (#[trigger] steps[k] is Built) == (predicates[k].1 is Range == ranges),
    ensures
        creation::built(steps.take(n)).len() == if ranges {
            ranges_before(predicates, n)
        } else {
            others_before(predicates, n)
        },
    decreases n,
{
    reveal(Seq::filter);
    if n > 0 {
        lemma_counted(predicates, steps, ranges, n - 1);
        assert(steps.take(n).drop_last() =~= steps.take(n - 1));
        assert(predicates.take(n).drop_last() =~= predicates.take(n - 1));
        assert(steps.take(n).last() == steps[n - 1]);
        assert(predicates.take(n).last() == predicates[n - 1]);
    }
}

/// Each step of a run that ends well gives a builder: those of the signatures, those of the others
/// at the first stage, and those of the ranges at the second.
proof fn lemma_steps_built<S: ProofSuite>(
    credentials: OrderedMap<Credential>,
    schema: PresentationSchema,
    nonce: &[u8],
    run: CreateRun<S>,
    presentation: Presentation,
)
    requires
        creation::created(credentials, schema, nonce, run, Ok(presentation)),
    ensures
        ({
            let signatures = message_types::signatures_of(schema.statements.listing());
            let predicates = message_types::predicates_of(schema.statements.listing());
            &&& run.signature_steps.len() == signatures.len()
            &&& run.predicate_steps.len() == predicates.len()
            &&& run.range_steps.len() == predicates.len()
            &&& forall|k: int|
                0 <= k < signatures.len() ==> (#[trigger] run.signature_steps[k] is Built)
            &&& forall|k: int|
                0 <= k < predicates.len() ==> (#[trigger] run.predicate_steps[k] is Built) == !(
                predicates[k].1 is Range)
            &&& forall|k: int|
                0 <= k < predicates.len() ==> (#[trigger] run.range_steps[k] is Built) == (
                predicates[k].1 is Range)
            &&& creation::built(run.signature_steps).len() == signatures.len()
            &&& creation::built(run.range_steps).len() == ranges_before(
                predicates,
                predicates.len() as int,
            )
        }),
{
    let signatures = message_types::signatures_of(schema.statements.listing());
    let predicates = message_types::predicates_of(schema.statements.listing());
    message_types::lemma_parts(schema.statements.listing());
    assert forall|k: int| 0 <= k < signatures.len() implies (
    #[trigger] run.signature_steps[k] is Built) by {
        assert(creation::signature_step(
            credentials,
            run.messages,
            signatures[k],
            run.signature_steps[k],
        ));
        assert(!(run.signature_steps[k] is Failed));
    }
    assert forall|k: int| 0 <= k < predicates.len() implies (
    #[trigger] run.predicate_steps[k] is Built) == !(predicates[k].1 is Range) by {
        assert(creation::predicate_step(
            credentials,
            run.messages,
            nonce,
            predicates[k].1,
            run.predicate_steps[k],
        ));
        assert(!(run.predicate_steps[k] is Failed));
        assert(!(predicates[k].1 is Signature));
    }
    assert forall|k: int| 0 <= k < predicates.len() implies (
    #[trigger] run.range_steps[k] is Built) == (predicates[k].1 is Range) by {
        assert(!(run.range_steps[k] is Failed));
    }
    lemma_counted(predicates, run.range_steps, true, predicates.len() as int);
    assert(run.range_steps.take(predicates.len() as int) =~= run.range_steps);
    lemma_all_built(run.signature_steps);
}

/// Steps that all give a builder give as many builders.
proof fn lemma_all_built<S: ProofSuite>(steps: Seq<Step<S>>)
    requires
        forall|k: int| 0 <= k < steps.len() ==> (#[trigger] steps[k] is Built),
    ensures
        creation::built(steps).len() == steps.len(),
    decreases steps.len(),
{
    if steps.len() > 0 {
        assert forall|k: int| 0 <= k < steps.drop_last().len() implies (
        #[trigger] steps.drop_last()[k] is Built) by {
            assert(steps[k] is Built);
        }
        lemma_all_built(steps.drop_last());
        assert(steps[steps.len() - 1] is Built);
    }
}

/// Where the proof of the signature statement at `k` stands among the proofs.
proof fn lemma_signature_proved<S: ProofSuite>(
    credentials: OrderedMap<Credential>,
    schema: PresentationSchema,
    nonce: &[u8],
    run: CreateRun<S>,
    presentation: Presentation,
    k: int,
) -> (j: int)
    requires
        creation::created(credentials, schema, nonce, run, Ok(presentation)),
        0 <= k < message_types::signatures_of(schema.statements.listing()).len(),
    ensures
        run.signature_steps[k] is Built,
        0 <= j < run.proofs.len(),
        j == ranges_before(
            message_types::predicates_of(schema.statements.listing()),
            message_types::predicates_of(schema.statements.listing()).len() as int,
        ) + k,
        suite::proof_made(
            run.signature_steps[k]->Built_0,
            presentation.challenge,
            run.proofs[j],
        ),
{
    lemma_steps_built(credentials, schema, nonce, run, presentation);
    let r = creation::built(run.range_steps);
    let s = creation::built(run.signature_steps);
    let p = creation::built(run.predicate_steps);
    assert(run.signature_steps[k] is Built);
    let at = presentations::lemma_built_to(run.signature_steps, k);
    assert forall|i: int| 0 <= i < run.signature_steps.take(k).len() implies (
    #[trigger] run.signature_steps.take(k)[i] is Built) by {
        assert(run.signature_steps[i] is Built);
    }
    lemma_all_built(run.signature_steps.take(k));
    let j = r.len() + at;
    assert((r + s + p)[j] == s[at]);
    assert(suite::proof_made((r + s + p)[j], presentation.challenge, run.proofs[j]));
    j
}

/// Where the proof of the predicate at `k` stands among the proofs.
proof fn lemma_predicate_proved<S: ProofSuite>(
    credentials: OrderedMap<Credential>,
    schema: PresentationSchema,
    nonce: &[u8],
    run: CreateRun<S>,
    presentation: Presentation,
    k: int,
) -> (j: int)
    requires
        creation::created(credentials, schema, nonce, run, Ok(presentation)),
        0 <= k < message_types::predicates_of(schema.statements.listing()).len(),
    ensures
        0 <= j < run.proofs.len(),
        ({
            let signatures = message_types::signatures_of(schema.statements.listing());
            let predicates = message_types::predicates_of(schema.statements.listing());
            if predicates[k].1 is Range {
                &&& run.range_steps[k] is Built
                &&& j == ranges_before(predicates, k)
                &&& suite::proof_made(
                    run.range_steps[k]->Built_0,
                    presentation.challenge,
                    run.proofs[j],
                )
            } else {
                &&& run.predicate_steps[k] is Built
                &&& j == ranges_before(predicates, predicates.len() as int) + signatures.len()
                    + others_before(predicates, k)
                &&& suite::proof_made(
                    run.predicate_steps[k]->Built_0,
                    presentation.challenge,
                    run.proofs[j],
                )
            }
        }),
{
    let predicates = message_types::predicates_of(schema.statements.listing());
    lemma_steps_built(credentials, schema, nonce, run, presentation);
    let r = creation::built(run.range_steps);
    let s = creation::built(run.signature_steps);
    let p = creation::built(run.predicate_steps);
    if predicates[k].1 is Range {
        assert(run.range_steps[k] is Built);
        let at = presentations::lemma_built_to(run.range_steps, k);
        lemma_counted(predicates, run.range_steps, true, k);
        assert((r + s + p)[at] == r[at]);
        assert(suite::proof_made((r + s + p)[at], presentation.challenge, run.proofs[at]));
        at
    } else {
        assert(run.predicate_steps[k] is Built);
        let at = presentations::lemma_built_to(run.predicate_steps, k);
        lemma_counted(predicates, run.predicate_steps, false, k);
        let j = r.len() + s.len() + at;
        assert((r + s + p)[j] == p[at]);
        assert(suite::proof_made((r + s + p)[j], presentation.challenge, run.proofs[j]));
        j
    }
}

/// The possession of a credential is proved with its own signature: for a signature statement of a
/// presentation that is made, the suite has committed to that statement with the signature of the
/// credential under the id of the statement and with the messages of that credential, and a proof
/// of the presentation is what came of it.
pub proof fn signatures_are_proved_with_their_credentials<S: ProofSuite>(
    credentials: OrderedMap<Credential>,
    schema: PresentationSchema,
    nonce: &[u8],
    run: CreateRun<S>,
    presentation: Presentation,
    id: Seq<char>,
) -> (r: (S::SignatureBuilder, Vec<Contribution>, int))
    requires
        schema.statements.wf(),
        creation::created(credentials, schema, nonce, run, Ok(presentation)),
        schema.statements@.dom().contains(id),
        schema.statements@[id] is Signature,
    ensures
        call_ensures(
            S::commit_signature,
            (
                &schema.statements@[id]->Signature_0,
                &credentials@[id].signature,
                &run.messages@[id],
            ),
            Ok((Committed { builder: r.0, contributions: r.1 })),
        ),
        0 <= r.2 < run.proofs.len(),
        r.2 == proof_position(schema, id),
        call_ensures(
            <S::SignatureBuilder as PresentationBuilder>::gen_proof,
            (r.0, presentation.challenge),
            run.proofs[r.2],
        ),
        run.signature_steps[ordered_map::key_index(
            message_types::signatures_of(schema.statements.listing()),
            id,
        )] == Step::<S>::Built(suite::PresentationBuilders::Signature(r.0), r.1),
{
    let k = lemma_part(schema, id);
    let signatures = message_types::signatures_of(schema.statements.listing());
    let j = lemma_signature_proved(credentials, schema, nonce, run, presentation, k);
    assert(creation::signature_step(
        credentials,
        run.messages,
        signatures[k],
        run.signature_steps[k],
    ));
    match run.signature_steps[k]->Built_0 {
        suite::PresentationBuilders::Signature(b) => (b, run.signature_steps[k]->Built_1, j),
        _ => arbitrary(),
    }
}

/// The claim that a membership, a commitment or an encryption of a presentation that is made is
/// about is one of a credential, and its message is hidden behind a shared blinder.
proof fn lemma_subject<S: ProofSuite>(
    credentials: OrderedMap<Credential>,
    schema: PresentationSchema,
    nonce: &[u8],
    run: CreateRun<S>,
    presentation: Presentation,
    k: int,
) -> (r: (Scalar, Scalar))
    requires
        schema.statements.wf(),
        creation::is_answerable(credentials, schema),
        creation::created(credentials, schema, nonce, run, Ok(presentation)),
        0 <= k < message_types::predicates_of(schema.statements.listing()).len(),
        message_types::predicates_of(schema.statements.listing())[k].1.subject() is Some,
    ensures
        ({
            let (id, claim) =
                message_types::predicates_of(schema.statements.listing())[k].1.subject()->Some_0;
            &&& credentials@.dom().contains(id)
            &&& claim < credentials@[id].claims@.len()
            &&& run.messages@[id]@.len() == credentials@[id].claims@.len()
            &&& run.messages@[id]@[claim as int] == ProofMessage::Hidden(
                HiddenMessage::ExternalBlinding(r.0, r.1),
            )
        }),
{
    let signatures = message_types::signatures_of(schema.statements.listing());
    let predicates = message_types::predicates_of(schema.statements.listing());
    let subject = predicates[k].1.subject()->Some_0;
    let table = message_types::lists(run.messages);
    presentations::revealed_claims_are_not_proved_about(
        credentials,
        schema,
        nonce,
        run,
        presentation,
        k,
    );
    message_types::lemma_message_types::<S>(
        credentials@,
        signatures,
        predicates,
        run.draws,
        table,
    );
    assert(predicates[k].1.references()[0] == subject);
    assert(message_types::reference_resolves(
        credentials@,
        predicates,
        predicates[k].1.references()[0],
    ));
    assert(message_types::is_referenced(predicates, subject.0, subject.1 as int));
    assert(table.dom().contains(subject.0));
    let message = table[subject.0][subject.1 as int];
    assert(message == run.messages@[subject.0]@[subject.1 as int]);
    assert(message.is_shared());
    match message {
        ProofMessage::Hidden(HiddenMessage::ExternalBlinding(m, b)) => (m, b),
        _ => arbitrary(),
    }
}

/// A claim that no statement compares with another takes part in the proofs with the scalar of the
/// suite's encoding of that very claim.
pub proof fn claims_take_part_as_the_suite_encodes_them<S: ProofSuite>(
    credentials: OrderedMap<Credential>,
    schema: PresentationSchema,
    nonce: &[u8],
    run: CreateRun<S>,
    presentation: Presentation,
    id: Seq<char>,
    index: int,
) -> (e: ClaimEncoding)
    requires
        schema.statements.wf(),
        creation::created(credentials, schema, nonce, run, Ok(presentation)),
        schema.statements@.dom().contains(id),
        schema.statements@[id] is Signature,
        0 <= index < credentials@[id].claims@.len(),
        stands_alone(schema, id, index),
    ensures
        call_ensures(S::encode_claim, (&credentials@[id].claims@[index],), e),
        run.messages@[id]@.len() == credentials@[id].claims@.len(),
        match run.messages@[id]@[index] {
            ProofMessage::Revealed(m) => m == e@.scalar,
            ProofMessage::Hidden(HiddenMessage::ProofSpecificBlinding(m)) => m == e@.scalar,
            ProofMessage::Hidden(HiddenMessage::ExternalBlinding(m, _)) => m == e@.scalar,
        },
{
    let signatures = message_types::signatures_of(schema.statements.listing());
    let predicates = message_types::predicates_of(schema.statements.listing());
    let k = lemma_part(schema, id);
    let messages = message_types::lists(run.messages);
    lemma_stands_alone(schema, (k, index));
    let (scalars, blinders) = choose|
        scalars: Map<Seq<char>, Seq<Scalar>>,
        blinders: Map<Seq<char>, Seq<Scalar>>,
    |
        message_types::is_per_claim(credentials@, signatures, scalars)
            && message_types::scalars_are_encoded::<S>(credentials@, signatures, scalars)
            && message_types::is_per_claim(credentials@, signatures, blinders)
            && message_types::blinders_are_drawn(signatures, predicates, blinders, run.draws)
            && messages == #[trigger] message_types::proof_messages(
            credentials@,
            signatures,
            predicates,
            scalars,
            blinders,
        );
    let place = (k, index);
    let l = linking::leader(signatures, predicates, place);
    linking::lemma_leader(signatures, predicates, place);
    linking::lemma_linked_is_tied(signatures, predicates, place, l);
    assert(l == place);
    assert(ordered_map::has_key(signatures, id)) by {
        assert(signatures[k].0 == id);
    }
    assert(messages.dom().contains(id));
    assert(messages[id] == run.messages@[id]@);
    assert(message_types::scalar_given::<S>(
        credentials@[signatures[k].0].claims@[index],
        scalars[signatures[k].0][index],
    ));
    let view = choose|e: crate::claim::EncodingView| #[trigger]
        suite::encoded::<S>(credentials@[id].claims@[index], e) && e.scalar == scalars[id][index];
    choose|e: ClaimEncoding| #[trigger]
        call_ensures(S::encode_claim, (&credentials@[id].claims@[index],), e) && e@ == view
}

/// No predicate ties a claim that stands alone.
proof fn lemma_stands_alone(schema: PresentationSchema, place: (int, int))
    requires
        schema.statements.wf(),
        0 <= place.0 < message_types::signatures_of(schema.statements.listing()).len(),
        stands_alone(
            schema,
            message_types::signatures_of(schema.statements.listing())[place.0].0,
            place.1,
        ),
    ensures
        forall|k: int|
            0 <= k < message_types::predicates_of(schema.statements.listing()).len()
                ==> !linking::ties(
                message_types::signatures_of(schema.statements.listing()),
                (#[trigger] message_types::predicates_of(schema.statements.listing())[k]).1,
                place,
            ),
{
    let all = schema.statements.listing();
    let signatures = message_types::signatures_of(all);
    let predicates = message_types::predicates_of(all);
    statements::lemma_members(all);
    assert forall|k: int| 0 <= k < predicates.len() implies !linking::ties(
        signatures,
        (#[trigger] predicates[k]).1,
        place,
    ) by {
        assert(predicates.contains(predicates[k]));
        let q = choose|q: int| 0 <= q < all.len() && all[q] == predicates[k];
        assert(all[q].1 == predicates[k].1);
        if linking::ties(signatures, predicates[k].1, place) {
            let j = choose|j: int|
                0 <= j < predicates[k].1.references().len() && (
                #[trigger] predicates[k].1.references()[j]).0 == signatures[place.0].0
                    && predicates[k].1.references()[j].1 == place.1;
            if let Statements::Equality(e) = predicates[k].1 {
                assert(e.ref_id_claim_index.listing()[j].0 == signatures[place.0].0);
            }
        }
    }
}

/// A membership is proved of the claim that its statement names: for a membership statement of a
/// presentation that is made, the suite has committed to that statement with the credential that it
/// refers to, with the message that the claim that it names has in the proof of that credential's
/// signature, and with the nonce, and a proof of the presentation is what came of it.
pub proof fn memberships_are_proved_of_the_claims_they_name<S: ProofSuite>(
    credentials: OrderedMap<Credential>,
    schema: PresentationSchema,
    nonce: &[u8],
    run: CreateRun<S>,
    presentation: Presentation,
    id: Seq<char>,
) -> (r: (S::AccumulatorSetMembershipBuilder, Vec<Contribution>, int))
    requires
        schema.statements.wf(),
        creation::is_answerable(credentials, schema),
        creation::created(credentials, schema, nonce, run, Ok(presentation)),
        schema.statements@.dom().contains(id),
        schema.statements@[id] is AccumulatorSetMembership,
    ensures
        ({
            let a = schema.statements@[id]->AccumulatorSetMembership_0;
            &&& credentials@.dom().contains(a.reference_id@)
            &&& a.claim < credentials@[a.reference_id@].claims@.len()
            &&& run.messages@[a.reference_id@]@[a.claim as int] matches ProofMessage::Hidden(
                HiddenMessage::ExternalBlinding(_, _),
            )
            &&& call_ensures(
                S::commit_membership,
                (
                    &a,
                    &credentials@[a.reference_id@],
                    run.messages@[a.reference_id@]@[a.claim as int],
                    nonce,
                ),
                Ok((Committed { builder: r.0, contributions: r.1 })),
            )
        }),
        0 <= r.2 < run.proofs.len(),
        r.2 == proof_position(schema, id),
        call_ensures(
            <S::AccumulatorSetMembershipBuilder as PresentationBuilder>::gen_proof,
            (r.0, presentation.challenge),
            run.proofs[r.2],
        ),
        run.predicate_steps[ordered_map::key_index(
            message_types::predicates_of(schema.statements.listing()),
            id,
        )] == Step::<S>::Built(suite::PresentationBuilders::AccumulatorSetMembership(r.0), r.1),
{
    let k = lemma_part(schema, id);
    let predicates = message_types::predicates_of(schema.statements.listing());
    let j = lemma_predicate_proved(credentials, schema, nonce, run, presentation, k);
    let (m, b) = lemma_subject(credentials, schema, nonce, run, presentation, k);
    assert(creation::predicate_step(
        credentials,
        run.messages,
        nonce,
        predicates[k].1,
        run.predicate_steps[k],
    ));
    match run.predicate_steps[k]->Built_0 {
        suite::PresentationBuilders::AccumulatorSetMembership(b) => (
            b,
            run.predicate_steps[k]->Built_1,
            j,
        ),
        _ => arbitrary(),
    }
}

/// What is committed to is the claim that the statement names: for a commitment statement of a
/// presentation that is made, the suite has committed to that statement with the message and the
/// blinder that the claim has in the proof of its credential's signature, and a proof of the
/// presentation is what came of it. Where nothing compares the claim, the message is the scalar of
/// the suite's encoding of that claim.
pub proof fn commitments_are_to_the_claims_they_name<S: ProofSuite>(
    credentials: OrderedMap<Credential>,
    schema: PresentationSchema,
    nonce: &[u8],
    run: CreateRun<S>,
    presentation: Presentation,
    id: Seq<char>,
) -> (r: (Scalar, Scalar, S::CommitmentBuilder, Vec<Contribution>, int))
    requires
        schema.statements.wf(),
        creation::is_answerable(credentials, schema),
        creation::created(credentials, schema, nonce, run, Ok(presentation)),
        schema.statements@.dom().contains(id),
        schema.statements@[id] is Commitment,
    ensures
        ({
            let c = schema.statements@[id]->Commitment_0;
            &&& credentials@.dom().contains(c.reference_id@)
            &&& c.claim < credentials@[c.reference_id@].claims@.len()
            &&& run.messages@[c.reference_id@]@[c.claim as int] == ProofMessage::Hidden(
                HiddenMessage::ExternalBlinding(r.0, r.1),
            )
            &&& call_ensures(
                S::commit_commitment,
                (&c, r.0, r.1),
                Ok((Committed { builder: r.2, contributions: r.3 })),
            )
            &&& stands_alone(schema, c.reference_id@, c.claim as int) ==> exists|e: ClaimEncoding|
                #[trigger] call_ensures(
                    S::encode_claim,
                    (&credentials@[c.reference_id@].claims@[c.claim as int],),
                    e,
                ) && e@.scalar == r.0
        }),
        0 <= r.4 < run.proofs.len(),
        r.4 == proof_position(schema, id),
        call_ensures(
            <S::CommitmentBuilder as PresentationBuilder>::gen_proof,
            (r.2, presentation.challenge),
            run.proofs[r.4],
        ),
        run.predicate_steps[ordered_map::key_index(
            message_types::predicates_of(schema.statements.listing()),
            id,
        )] == Step::<S>::Built(suite::PresentationBuilders::Commitment(r.2), r.3),
{
    let k = lemma_part(schema, id);
    let predicates = message_types::predicates_of(schema.statements.listing());
    let c = schema.statements@[id]->Commitment_0;
    let j = lemma_predicate_proved(credentials, schema, nonce, run, presentation, k);
    let (m, b) = lemma_subject(credentials, schema, nonce, run, presentation, k);
    assert(creation::predicate_step(
        credentials,
        run.messages,
        nonce,
        predicates[k].1,
        run.predicate_steps[k],
    ));
    if stands_alone(schema, c.reference_id@, c.claim as int) {
        lemma_held(credentials, schema, c.reference_id@);
        let e = claims_take_part_as_the_suite_encodes_them(
            credentials,
            schema,
            nonce,
            run,
            presentation,
            c.reference_id@,
            c.claim as int,
        );
        assert(e@.scalar == m);
    }
    match run.predicate_steps[k]->Built_0 {
        suite::PresentationBuilders::Commitment(builder) => (
            m,
            b,
            builder,
            run.predicate_steps[k]->Built_1,
            j,
        ),
        _ => arbitrary(),
    }
}

/// The credentials of an answerable schema are those of its signature statements.
pub(crate) proof fn lemma_held(
    credentials: OrderedMap<Credential>,
    schema: PresentationSchema,
    id: Seq<char>,
)
    requires
        schema.statements.wf(),
        creation::is_answerable(credentials, schema),
    ensures
        credentials@.dom().contains(id) <==> schema.statements@.dom().contains(id)
            && schema.statements@[id] is Signature,
{
    statements::statements_are_parted(schema.statements.listing(), id);
}

/// What is encrypted is the claim that the statement names: for an encryption statement of a
/// presentation that is made, the suite has committed to that statement with the message and the
/// blinder that the claim has in the proof of its credential's signature, and a proof of the
/// presentation is what came of it. Where nothing compares the claim, the message is the scalar of
/// the suite's encoding of that claim.
pub proof fn encryptions_are_of_the_claims_they_name<S: ProofSuite>(
    credentials: OrderedMap<Credential>,
    schema: PresentationSchema,
    nonce: &[u8],
    run: CreateRun<S>,
    presentation: Presentation,
    id: Seq<char>,
) -> (r: (Scalar, Scalar, S::VerifiableEncryptionBuilder, Vec<Contribution>, int))
    requires
        schema.statements.wf(),
        creation::is_answerable(credentials, schema),
        creation::created(credentials, schema, nonce, run, Ok(presentation)),
        schema.statements@.dom().contains(id),
        schema.statements@[id] is VerifiableEncryption,
    ensures
        ({
            let v = schema.statements@[id]->VerifiableEncryption_0;
            &&& credentials@.dom().contains(v.reference_id@)
            &&& v.claim < credentials@[v.reference_id@].claims@.len()
            &&& run.messages@[v.reference_id@]@[v.claim as int] == ProofMessage::Hidden(
                HiddenMessage::ExternalBlinding(r.0, r.1),
            )
            &&& call_ensures(
                S::commit_encryption,
                (&v, r.0, r.1),
                Ok((Committed { builder: r.2, contributions: r.3 })),
            )
            &&& stands_alone(schema, v.reference_id@, v.claim as int) ==> exists|e: ClaimEncoding|
                #[trigger] call_ensures(
                    S::encode_claim,
                    (&credentials@[v.reference_id@].claims@[v.claim as int],),
                    e,
                ) && e@.scalar == r.0
        }),
        0 <= r.4 < run.proofs.len(),
        r.4 == proof_position(schema, id),
        call_ensures(
            <S::VerifiableEncryptionBuilder as PresentationBuilder>::gen_proof,
            (r.2, presentation.challenge),
            run.proofs[r.4],
        ),
        run.predicate_steps[ordered_map::key_index(
            message_types::predicates_of(schema.statements.listing()),
            id,
        )] == Step::<S>::Built(suite::PresentationBuilders::VerifiableEncryption(r.2), r.3),
{
    let k = lemma_part(schema, id);
    let predicates = message_types::predicates_of(schema.statements.listing());
    let v = schema.statements@[id]->VerifiableEncryption_0;
    let j = lemma_predicate_proved(credentials, schema, nonce, run, presentation, k);
    let (m, b) = lemma_subject(credentials, schema, nonce, run, presentation, k);
    assert(creation::predicate_step(
        credentials,
        run.messages,
        nonce,
        predicates[k].1,
        run.predicate_steps[k],
    ));
    if stands_alone(schema, v.reference_id@, v.claim as int) {
        lemma_held(credentials, schema, v.reference_id@);
        let e = claims_take_part_as_the_suite_encodes_them(
            credentials,
            schema,
            nonce,
            run,
            presentation,
            v.reference_id@,
            v.claim as int,
        );
        assert(e@.scalar == m);
    }
    match run.predicate_steps[k]->Built_0 {
        suite::PresentationBuilders::VerifiableEncryption(builder) => (
            m,
            b,
            builder,
            run.predicate_steps[k]->Built_1,
            j,
        ),
        _ => arbitrary(),
    }
}

/// An equality is proved of the credentials that are held: for an equality statement of a
/// presentation that is made, the suite has committed to that statement with all credentials, and a
/// proof of the presentation is what came of it.
pub proof fn equalities_are_proved_of_the_credentials<S: ProofSuite>(
    credentials: OrderedMap<Credential>,
    schema: PresentationSchema,
    nonce: &[u8],
    run: CreateRun<S>,
    presentation: Presentation,
    id: Seq<char>,
) -> (r: (S::EqualityBuilder, int))
    requires
        schema.statements.wf(),
        creation::created(credentials, schema, nonce, run, Ok(presentation)),
        schema.statements@.dom().contains(id),
        schema.statements@[id] is Equality,
    ensures
        call_ensures(
            S::commit_equality,
            (&schema.statements@[id]->Equality_0, &credentials),
            Ok(r.0),
        ),
        0 <= r.1 < run.proofs.len(),
        r.1 == proof_position(schema, id),
        call_ensures(
            <S::EqualityBuilder as PresentationBuilder>::gen_proof,
            (r.0, presentation.challenge),
            run.proofs[r.1],
        ),
        match run.predicate_steps[ordered_map::key_index(
            message_types::predicates_of(schema.statements.listing()),
            id,
        )] {
            Step::Built(builder, contributions) => builder
                == suite::PresentationBuilders::<S>::Equality(r.0) && contributions@.len() == 0,
            _ => false,
        },
{
    let k = lemma_part(schema, id);
    let predicates = message_types::predicates_of(schema.statements.listing());
    let j = lemma_predicate_proved(credentials, schema, nonce, run, presentation, k);
    assert(creation::predicate_step(
        credentials,
        run.messages,
        nonce,
        predicates[k].1,
        run.predicate_steps[k],
    ));
    match run.predicate_steps[k]->Built_0 {
        suite::PresentationBuilders::Equality(b) => (b, j),
        _ => arbitrary(),
    }
}

/// A range is proved of the number that the claim holds, next to its commitment: for a range
/// statement of a presentation that is made, the claim that it names is a number, the statement
/// that it refers to is a commitment, the suite has committed to the range with the builder of that
/// commitment, with that very number and with all that is bound before, and a proof of the
/// presentation is what came of it.
pub proof fn ranges_are_proved_of_the_numbers_they_name<S: ProofSuite>(
    credentials: OrderedMap<Credential>,
    schema: PresentationSchema,
    nonce: &[u8],
    run: CreateRun<S>,
    presentation: Presentation,
    id: Seq<char>,
) -> (r: (isize, Transcript, S::CommitmentBuilder, S::RangeBuilder, Vec<Contribution>, int))
    requires
        schema.statements.wf(),
        creation::is_answerable(credentials, schema),
        creation::created(credentials, schema, nonce, run, Ok(presentation)),
        schema.statements@.dom().contains(id),
        schema.statements@[id] is Range,
    ensures
        ({
            let range = schema.statements@[id]->Range_0;
            let claims = credentials@[range.signature_id@].claims@;
            let (value, transcript, commitment) = (r.0, r.1, r.2);
            &&& credentials@.dom().contains(range.signature_id@)
            &&& range.claim < claims.len()
            &&& claims[range.claim as int] == ClaimData::Number((NumberClaim { value }))
            &&& schema.statements@.dom().contains(range.reference_id@)
            &&& schema.statements@[range.reference_id@] is Commitment
            &&& exists|message: Scalar, blinder: Scalar, contributions: Vec<Contribution>|
                #![trigger call_ensures(
                    S::commit_commitment,
                    (&schema.statements@[range.reference_id@]->Commitment_0, message, blinder),
                    Ok((Committed { builder: commitment, contributions })),
                )]
                call_ensures(
                    S::commit_commitment,
                    (&schema.statements@[range.reference_id@]->Commitment_0, message, blinder),
                    Ok((Committed { builder: commitment, contributions })),
                ) && call_ensures(
                    <S::CommitmentBuilder as PresentationBuilder>::gen_proof,
                    (commitment, presentation.challenge),
                    run.proofs[proof_position(schema, range.reference_id@)],
                )
            &&& call_ensures(
                S::commit_range,
                (&range, &commitment, value, &transcript),
                Ok((Committed { builder: r.3, contributions: r.4 })),
            )
        }),
        0 <= r.5 < run.proofs.len(),
        r.5 == proof_position(schema, id),
        call_ensures(
            <S::RangeBuilder as PresentationBuilder>::gen_proof,
            (r.3, presentation.challenge),
            run.proofs[r.5],
        ),
        run.range_steps[ordered_map::key_index(
            message_types::predicates_of(schema.statements.listing()),
            id,
        )] == Step::<S>::Built(suite::PresentationBuilders::Range(r.3), r.4),
        transcript::transcript_log(r.1) == challenges::made_entries(
            schema,
            nonce@,
            run,
            ordered_map::key_index(
                message_types::predicates_of(schema.statements.listing()),
                id,
            ),
        ),
{
    let k = lemma_part(schema, id);
    let predicates = message_types::predicates_of(schema.statements.listing());
    let range = schema.statements@[id]->Range_0;
    let claims = credentials@[range.signature_id@].claims@;
    let j = lemma_predicate_proved(credentials, schema, nonce, run, presentation, k);
    let q = presentations::ranges_are_proved_next_to_their_commitments(
        credentials,
        schema,
        nonce,
        run,
        presentation,
        k,
    );
    let reference = range.reference_id@;
    statements::lemma_members(schema.statements.listing());
    statements::statements_are_parted(schema.statements.listing(), reference);
    assert(ordered_map::has_key(predicates, reference)) by {
        assert(predicates[q].0 == reference);
    }
    ordered_map::lemma_entry_found(predicates, q);
    assert(schema.statements@[reference] == predicates[q].1);
    let (m, b, commitment, contributions, at) = commitments_are_to_the_claims_they_name(
        credentials,
        schema,
        nonce,
        run,
        presentation,
        reference,
    );
    let number = claims[range.claim as int]->Number_0;
    assert(claims[range.claim as int] == ClaimData::Number(number));
    assert(!(run.range_steps[k] is Failed));
    assert(creation::range_step(
        credentials,
        creation::built(run.signature_steps) + creation::built(run.predicate_steps),
        creation::registry(
            predicates,
            run.predicate_steps,
            creation::built(run.signature_steps).len() as int,
            predicates.len() as int,
        ),
        creation::log_before_ranges(
            nonce@,
            message_types::signatures_of(schema.statements.listing()),
            run,
        ) + creation::joined(creation::step_pieces(run.range_steps.take(k))),
        predicates[k].1,
        run.range_steps[k],
    ));
    match run.range_steps[k]->Built_0 {
        suite::PresentationBuilders::Range(builder) => {
            let bound = run.range_steps[k]->Built_1;
            challenges::lemma_made_entries(schema, nonce@, run, k);
            let transcript = choose|transcript: Transcript|
                transcript::transcript_log(transcript) == challenges::made_entries(
                    schema,
                    nonce@,
                    run,
                    k,
                ) && #[trigger] call_ensures(
                    S::commit_range,
                    (&range, &commitment, number.value, &transcript),
                    Ok((Committed { builder, contributions: bound })),
                );
            (number.value, transcript, commitment, builder, bound, j)
        },
        _ => arbitrary(),
    }
}

/// A statement counts for those behind it.
proof fn lemma_count_grows(predicates: Seq<(Seq<char>, Statements)>, m: int, n: int)
    requires
        0 <= m <= n <= predicates.len(),
    ensures
        ranges_before(predicates, m) <= ranges_before(predicates, n),
        others_before(predicates, m) <= others_before(predicates, n),
        m < n && predicates[m].1 is Range ==> ranges_before(predicates, m) < ranges_before(
            predicates,
            n,
        ),
        m < n && !(predicates[m].1 is Range) ==> others_before(predicates, m) < others_before(
            predicates,
            n,
        ),
        ranges_before(predicates, n) + others_before(predicates, n) == n,
    decreases n,
{
    reveal(Seq::filter);
    if n > 0 {
        assert(predicates.take(n).drop_last() =~= predicates.take(n - 1));
        assert(predicates.take(n).last() == predicates[n - 1]);
        if m < n {
            lemma_count_grows(predicates, m, n - 1);
        } else {
            lemma_count_grows(predicates, n - 1, n - 1);
        }
    }
}

/// The proofs of a presentation that is made are as many as the statements, and come in order: the
/// ranges before the signatures, these before all others, and those of one sort in the order of
/// their ids.
pub proof fn proofs_come_in_order<S: ProofSuite>(
    credentials: OrderedMap<Credential>,
    schema: PresentationSchema,
    nonce: &[u8],
    run: CreateRun<S>,
    presentation: Presentation,
    a: Seq<char>,
    b: Seq<char>,
)
    requires
        schema.statements.wf(),
        creation::created(credentials, schema, nonce, run, Ok(presentation)),
        schema.statements@.dom().contains(a),
        schema.statements@.dom().contains(b),
    ensures
        run.proofs.len() == schema.statements.listing().len(),
        0 <= proof_position(schema, a) < run.proofs.len(),
        proof_position(schema, a) < proof_position(schema, b) <==> match (
            schema.statements@[a],
            schema.statements@[b],
        ) {
            (Statements::Range(_), Statements::Range(_)) => ordered_map::text_before(a, b),
            (Statements::Range(_), _) => true,
            (_, Statements::Range(_)) => false,
            (Statements::Signature(_), Statements::Signature(_)) => ordered_map::text_before(a, b),
            (Statements::Signature(_), _) => true,
            (_, Statements::Signature(_)) => false,
            _ => ordered_map::text_before(a, b),
        },
{
    let all = schema.statements.listing();
    let signatures = message_types::signatures_of(all);
    let predicates = message_types::predicates_of(all);
    let n = predicates.len() as int;
    let (i, j) = (lemma_part(schema, a), lemma_part(schema, b));
    statements::lemma_members(all);
    lemma_steps_built(credentials, schema, nonce, run, presentation);
    lemma_counted(predicates, run.predicate_steps, false, n);
    assert(run.predicate_steps.take(n) =~= run.predicate_steps);
    lemma_count_grows(predicates, n, n);
    ordered_map::lemma_text_order(a, b);
    ordered_map::lemma_text_order(b, a);
    if !(schema.statements@[a] is Signature) {
        lemma_count_grows(predicates, i, n);
    }
    if !(schema.statements@[b] is Signature) {
        lemma_count_grows(predicates, j, n);
    }
    if schema.statements@[a] is Signature == schema.statements@[b] is Signature {
        let part = if schema.statements@[a] is Signature {
            signatures
        } else {
            predicates
        };
        assert(part[i].0 == a && part[j].0 == b);
        if i < j {
            assert(ordered_map::text_before(part[i].0, part[j].0));
        }
        if j < i {
            assert(ordered_map::text_before(part[j].0, part[i].0));
        }
        if !(schema.statements@[a] is Signature) {
            if i <= j {
                lemma_count_grows(predicates, i, j);
            } else {
                lemma_count_grows(predicates, j, i);
            }
        }
    }
}

/// A proof bears an id, whatever its kind.
pub open spec fn bears(proof_given: PresentationProofs, id: Seq<char>) -> bool {
    match proof_given {
        PresentationProofs::Signature(p) => p.id@ == id,
        PresentationProofs::AccumulatorSetMembership(p) => p.id@ == id,
        PresentationProofs::Equality(p) => p.id@ == id,
        PresentationProofs::Commitment(p) => p.id@ == id,
        PresentationProofs::VerifiableEncryption(p) => p.id@ == id,
        PresentationProofs::Range(p) => p.id@ == id,
    }
}

/// A presentation that is made holds every proof under the id that the proof bears, whatever its
/// kind; of several with one id the last counts, and there is nothing else.
#[verifier::spinoff_prover]
pub proof fn proofs_are_collected_under_their_ids<S: ProofSuite>(
    credentials: OrderedMap<Credential>,
    schema: PresentationSchema,
    nonce: &[u8],
    run: CreateRun<S>,
    presentation: Presentation,
    id: Seq<char>,
)
    requires
        creation::created(credentials, schema, nonce, run, Ok(presentation)),
    ensures
        presentation.proofs@.dom().contains(id) <==> exists|j: int|
            0 <= j < run.proofs.len() && bears(#[trigger] run.proofs[j], id),
        forall|j: int|
            0 <= j < run.proofs.len() && bears(#[trigger] run.proofs[j], id) && (forall|m: int|
                j < m < run.proofs.len() ==> !bears(#[trigger] run.proofs[m], id))
                ==> presentation.proofs@[id] == run.proofs[j],
{
    presentations::lemma_collected_dom(run.proofs, id);
    assert forall|p: PresentationProofs| #[trigger] bears(p, id) == (p.inner().id@ == id) by {}
    if exists|j: int| 0 <= j < run.proofs.len() && (#[trigger] run.proofs[j]).inner().id@ == id {
        let j = choose|j: int|
            0 <= j < run.proofs.len() && (#[trigger] run.proofs[j]).inner().id@ == id;
        assert(bears(run.proofs[j], id));
    }
    assert forall|j: int|
        0 <= j < run.proofs.len() && bears(#[trigger] run.proofs[j], id) && (forall|m: int|
            j < m < run.proofs.len() ==> !bears(#[trigger] run.proofs[m], id)) implies
        presentation.proofs@[id] == run.proofs[j] by {
        lemma_last_counts(run.proofs, id, j);
    }
}

/// Of several proofs with one id the last is collected.
proof fn lemma_last_counts(proofs: Seq<PresentationProofs>, id: Seq<char>, j: int)
    requires
        0 <= j < proofs.len(),
        bears(proofs[j], id),
        forall|m: int| j < m < proofs.len() ==> !bears(#[trigger] proofs[m], id),
    ensures
        creation::collected(proofs)[id] == proofs[j],
    decreases proofs.len(),
{
    let n = proofs.len() - 1;
    assert(proofs[n] == proofs.last());
    if j < n {
        assert(!bears(proofs[n], id));
        let before = proofs.drop_last();
        assert forall|m: int| j < m < before.len() implies !bears(#[trigger] before[m], id) by {
            assert(!bears(proofs[m], id));
        }
        assert(before[j] == proofs[j]);
        lemma_last_counts(before, id, j);
        assert(proofs.last().inner().id@ != id);
    }
}

} // verus!
