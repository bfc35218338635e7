//! What presentations that are made or accepted are like.
use vstd::prelude::*;
use crate::challenge;
use crate::creation;
use crate::creation::{CreateRun, Step};
use crate::credential::Credential;
use crate::error::CredxResult;
use crate::laws::statements;
use crate::linking;
use crate::message_types;
use crate::ordered_map;
use crate::ordered_map::OrderedMap;
use crate::presentation::Presentation;
use crate::proofs::PresentationProofs;
use crate::scalar::Scalar;
use crate::statement;
use crate::statement::{EqualityStatement, PresentationSchema, Statements};
use crate::suite;
use crate::suite::{Committed, ProofSuite};
use crate::transcript::Contribution;
use crate::verification;
use crate::verification::{Check, VerifyRun};
use crate::verifiers;
use crate::verifiers::ProofVerifiers;

verus! {

/// A proof is of the kind of a statement.
pub open spec fn is_of_kind(statement: Statements, proof: PresentationProofs) -> bool {
    match statement {
        Statements::Signature(_) => proof is Signature,
        Statements::AccumulatorSetMembership(_) => proof is AccumulatorSetMembership,
        Statements::Equality(_) => proof is Equality,
        Statements::Commitment(_) => proof is Commitment,
        Statements::VerifiableEncryption(_) => proof is VerifiableEncryption,
        Statements::Range(_) => proof is Range,
    }
}

/// A presentation that is made proves memberships, commitments and encryptions only of claims of
/// its credentials, and of none that it reveals.
pub proof fn revealed_claims_are_not_proved_about<S: ProofSuite>(
    credentials: OrderedMap<Credential>,
    schema: PresentationSchema,
    nonce: &[u8],
    run: CreateRun<S>,
    presentation: Presentation,
    k: int,
)
    requires
        creation::is_answerable(credentials, schema),
        creation::created(credentials, schema, nonce, run, Ok(presentation)),
        0 <= k < message_types::predicates_of(schema.statements.listing()).len(),
    ensures
        creation::subject_is_held(
            credentials,
            message_types::predicates_of(schema.statements.listing())[k].1,
        ),
        !creation::subject_is_revealed(
            message_types::revealed_claims(
                credentials@,
                message_types::signatures_of(schema.statements.listing()),
                message_types::predicates_of(schema.statements.listing()),
            ),
            message_types::predicates_of(schema.statements.listing())[k].1,
        ),
{
    let signatures = message_types::signatures_of(schema.statements.listing());
    let predicates = message_types::predicates_of(schema.statements.listing());
    let table = message_types::lists(run.messages);
    message_types::lemma_message_types::<S>(
        credentials@,
        signatures,
        predicates,
        run.draws,
        table,
    );
    if let Some(subject) = predicates[k].1.subject() {
        assert(creation::predicate_step(
            credentials,
            run.messages,
            nonce,
            predicates[k].1,
            run.predicate_steps[k],
        ));
        assert(!(run.predicate_steps[k] is Failed));
        assert(credentials@.dom().contains(subject.0));
        assert(predicates[k].1.references()[0] == subject);
        assert(message_types::reference_resolves(
            credentials@,
            predicates,
            predicates[k].1.references()[0],
        ));
        assert(table.dom().contains(subject.0));
        assert(table[subject.0][subject.1 as int] == run.messages@[subject.0]@[subject.1 as int]);
    }
}

/// A presentation that is made discloses of each credential, as the credential has them, exactly
/// the claims for which its signature statement and those of all claims that they are linked with
/// ask. So nothing is disclosed that is not asked for, and what is asked for and compared with
/// nothing is disclosed.
pub proof fn what_is_asked_for_is_disclosed<S: ProofSuite>(
    credentials: OrderedMap<Credential>,
    schema: PresentationSchema,
    nonce: &[u8],
    run: CreateRun<S>,
    presentation: Presentation,
    k: int,
    label: Seq<char>,
)
    requires
        schema.statements.wf(),
        creation::created(credentials, schema, nonce, run, Ok(presentation)),
        0 <= k < message_types::signatures_of(schema.statements.listing()).len(),
    ensures
        ({
            let signatures = message_types::signatures_of(schema.statements.listing());
            let predicates = message_types::predicates_of(schema.statements.listing());
            let (id, statement) = signatures[k];
            let asked = statement->Signature_0;
            let claims = credentials@[id].claims@;
            let shown = presentation.disclosed_messages@[id]@;
            &&& shown.dom().contains(label) <==> exists|i: int|
                0 <= i < claims.len() && #[trigger] asked.issuer.schema.label(i) == Some(label)
                    && linking::is_open(signatures, predicates, (k, i))
            &&& shown.dom().contains(label) ==> asked.disclosed@.dom().contains(label)
                && shown[label]@ == claims[asked.issuer.schema.claim_indices@[label] as int]@
            &&& forall|i: int|
                0 <= i < claims.len() && #[trigger] asked.issuer.schema.label(i) == Some(label)
                    && asked.disclosed@.dom().contains(label) && (forall|j: int|
                    0 <= j < predicates.len() ==> !linking::ties(
                        signatures,
                        (#[trigger] predicates[j]).1,
                        (k, i),
                    )) ==> shown.dom().contains(label)
        }),
{
    let signatures = message_types::signatures_of(schema.statements.listing());
    let predicates = message_types::predicates_of(schema.statements.listing());
    let revealed = message_types::revealed_claims(credentials@, signatures, predicates);
    let id = signatures[k].0;
    let asked = signatures[k].1->Signature_0;
    let claims = credentials@[id].claims@;
    statements::lemma_members(schema.statements.listing());
    ordered_map::lemma_entry_found(signatures, k);
    assert(presentation.disclosed_messages@[id] == run.disclosed[k]);
    let shown = creation::shown_map(run.disclosed[k]);
    assert(shown == creation::disclosure(asked, credentials@[id], revealed[id]));
    assert(shown.dom().contains(label) <==> presentation.disclosed_messages@[id]@.dom().contains(
        label,
    ));
    if shown.dom().contains(label) {
        let i = choose|i: int|
            0 <= i < claims.len() && revealed[id][i] && #[trigger] asked.issuer.schema.label(i)
                == Some(label);
        assert(linking::is_open(signatures, predicates, (k, i)));
        linking::lemma_linked(signatures, predicates, (k, i), (k, i));
        linking::lemma_open(signatures, predicates, (k, i), (k, i));
        assert(asked.discloses(i));
        assert(presentation.disclosed_messages@[id]@[label]@ == shown[label]);
    }
    assert forall|i: int|
        0 <= i < claims.len() && #[trigger] asked.issuer.schema.label(i) == Some(label)
            && linking::is_open(signatures, predicates, (k, i)) implies shown.dom().contains(
        label,
    ) by {
        assert(revealed[id][i]);
    }
    assert forall|i: int|
        0 <= i < claims.len() && #[trigger] asked.issuer.schema.label(i) == Some(label)
            && asked.disclosed@.dom().contains(label) && (forall|j: int|
            0 <= j < predicates.len() ==> !linking::ties(
                signatures,
                (#[trigger] predicates[j]).1,
                (k, i),
            )) implies shown.dom().contains(label) by {
        assert(asked.discloses(i));
        assert forall|b: (int, int)| #[trigger]
            linking::are_linked(signatures, predicates, (k, i), b) implies !linking::is_hidden(
            signatures,
            b,
        ) by {
            linking::lemma_linked_is_tied(signatures, predicates, (k, i), b);
        }
        assert(revealed[id][i]);
    }
}

/// Two sets of credentials have the same claims wherever the signature statements disclose them.
pub open spec fn agree_on_disclosed(
    a: OrderedMap<Credential>,
    b: OrderedMap<Credential>,
    signatures: Seq<(Seq<char>, Statements)>,
) -> bool {
    forall|k: int|
        0 <= k < signatures.len() ==> {
            let id = (#[trigger] signatures[k]).0;
            &&& a@[id].claims@.len() == b@[id].claims@.len()
            &&& forall|i: int|
                0 <= i < a@[id].claims@.len() && signatures[k].1->Signature_0.discloses(i) ==> (
                #[trigger] a@[id].claims@[i])@ == b@[id].claims@[i]@
        }
}

/// Each proof that a builder of the run gives bears the id under which the schema lists its
/// statement.
pub open spec fn proofs_bear_ids<S: ProofSuite>(
    schema: PresentationSchema,
    run: CreateRun<S>,
    challenge: Scalar,
) -> bool {
    let signatures = message_types::signatures_of(schema.statements.listing());
    let predicates = message_types::predicates_of(schema.statements.listing());
    &&& steps_bear_ids(signatures, run.signature_steps, challenge)
    &&& steps_bear_ids(predicates, run.predicate_steps, challenge)
    &&& steps_bear_ids(predicates, run.range_steps, challenge)
}

/// The same for the steps of one stage.
pub open spec fn steps_bear_ids<S: ProofSuite>(
    entries: Seq<(Seq<char>, Statements)>,
    steps: Seq<Step<S>>,
    challenge: Scalar,
) -> bool {
    forall|k: int, proof: PresentationProofs|
        #![trigger suite::proof_made(steps[k]->Built_0, challenge, proof)]
        0 <= k < steps.len() && steps[k] is Built && suite::proof_made(
            steps[k]->Built_0,
            challenge,
            proof,
        ) ==> proof.inner().id@ == entries[k].0
}

/// A presentation that is made has a proof for each statement of the schema, ranges among them, and
/// no other, wherever proofs bear the ids of their statements.
pub proof fn every_statement_has_its_proof<S: ProofSuite>(
    credentials: OrderedMap<Credential>,
    schema: PresentationSchema,
    nonce: &[u8],
    run: CreateRun<S>,
    presentation: Presentation,
    id: Seq<char>,
)
    requires
        schema.statements.wf(),
        creation::created(credentials, schema, nonce, run, Ok(presentation)),
        proofs_bear_ids(schema, run, presentation.challenge),
    ensures
        presentation.proofs@.dom().contains(id) <==> schema.statements@.dom().contains(id),
{
    let all = schema.statements.listing();
    let signatures = message_types::signatures_of(all);
    let predicates = message_types::predicates_of(all);
    statements::lemma_members(all);
    message_types::lemma_parts(all);
    let r = creation::built(run.range_steps);
    let s = creation::built(run.signature_steps);
    let p = creation::built(run.predicate_steps);
    let builders = r + s + p;
    lemma_collected_dom(run.proofs, id);
    if presentation.proofs@.dom().contains(id) {
        let j = choose|j: int|
            0 <= j < run.proofs.len() && (#[trigger] run.proofs[j]).inner().id@ == id;
        assert(suite::proof_made(builders[j], presentation.challenge, run.proofs[j]));
        if j < r.len() {
            let k = lemma_built_from(run.range_steps, j);
            assert(builders[j] == run.range_steps[k]->Built_0);
            assert(predicates.contains(predicates[k]));
            lemma_listed(all, predicates[k]);
        } else if j < r.len() + s.len() {
            let k = lemma_built_from(run.signature_steps, j - r.len());
            assert(builders[j] == run.signature_steps[k]->Built_0);
            assert(signatures.contains(signatures[k]));
            lemma_listed(all, signatures[k]);
        } else {
            let k = lemma_built_from(run.predicate_steps, j - r.len() - s.len());
            assert(builders[j] == run.predicate_steps[k]->Built_0);
            assert(predicates.contains(predicates[k]));
            lemma_listed(all, predicates[k]);
        }
    }
    if schema.statements@.dom().contains(id) {
        let q = ordered_map::key_index(all, id);
        assert(all[q].0 == id);
        assert(all.contains(all[q]));
        if all[q].1 is Signature {
            assert(signatures.contains(all[q]));
            let k = choose|k: int| 0 <= k < signatures.len() && signatures[k] == all[q];
            assert(creation::signature_step(
                credentials,
                run.messages,
                signatures[k],
                run.signature_steps[k],
            ));
            let j = r.len() + lemma_built_to(run.signature_steps, k);
            assert(builders[j] == run.signature_steps[k]->Built_0);
            assert(suite::proof_made(builders[j], presentation.challenge, run.proofs[j]));
        } else {
            assert(predicates.contains(all[q]));
            let k = choose|k: int| 0 <= k < predicates.len() && predicates[k] == all[q];
            assert(creation::predicate_step(
                credentials,
                run.messages,
                nonce,
                predicates[k].1,
                run.predicate_steps[k],
            ));
            if all[q].1 is Range {
                assert(!(run.range_steps[k] is Failed));
                let j = lemma_built_to(run.range_steps, k);
                assert(builders[j] == run.range_steps[k]->Built_0);
                assert(suite::proof_made(builders[j], presentation.challenge, run.proofs[j]));
            } else {
                assert(!(run.predicate_steps[k] is Failed));
                let j = r.len() + s.len() + lemma_built_to(run.predicate_steps, k);
                assert(builders[j] == run.predicate_steps[k]->Built_0);
                assert(suite::proof_made(builders[j], presentation.challenge, run.proofs[j]));
            }
        }
    }
}

/// An entry of the listing has its key there.
proof fn lemma_listed(all: Seq<(Seq<char>, Statements)>, entry: (Seq<char>, Statements))
    requires
        all.contains(entry),
    ensures
        ordered_map::has_key(all, entry.0),
{
    let q = choose|q: int| 0 <= q < all.len() && all[q] == entry;
    assert(all[q].0 == entry.0);
}

/// The step that has given a builder.
proof fn lemma_built_from<S: ProofSuite>(steps: Seq<Step<S>>, j: int) -> (k: int)
    requires
        0 <= j < creation::built(steps).len(),
    ensures
        0 <= k < steps.len(),
        steps[k] is Built,
        steps[k]->Built_0 == creation::built(steps)[j],
    decreases steps.len(),
{
    let before = creation::built(steps.drop_last());
    if j < before.len() {
        lemma_built_from(steps.drop_last(), j)
    } else {
        steps.len() - 1
    }
}

/// Where the builder that a step has given stands.
pub(crate) proof fn lemma_built_to<S: ProofSuite>(steps: Seq<Step<S>>, k: int) -> (j: int)
    requires
        0 <= k < steps.len(),
        steps[k] is Built,
    ensures
        0 <= j < creation::built(steps).len(),
        j == creation::built(steps.take(k)).len(),
        steps[k]->Built_0 == creation::built(steps)[j],
    decreases steps.len(),
{
    if k < steps.len() - 1 {
        let j = lemma_built_to(steps.drop_last(), k);
        assert(steps.drop_last().take(k) =~= steps.take(k));
        j
    } else {
        assert(steps.take(k) =~= steps.drop_last());
        creation::built(steps.drop_last()).len() as int
    }
}

/// Proofs are collected under the ids that they bear, and no others.
pub(crate) proof fn lemma_collected_dom(proofs: Seq<PresentationProofs>, id: Seq<char>)
    ensures
        creation::collected(proofs).dom().contains(id) <==> exists|j: int|
            0 <= j < proofs.len() && (#[trigger] proofs[j]).inner().id@ == id,
    decreases proofs.len(),
{
    if proofs.len() > 0 {
        let before = proofs.drop_last();
        lemma_collected_dom(before, id);
        assert(proofs[proofs.len() - 1] == proofs.last());
        if exists|j: int| 0 <= j < before.len() && (#[trigger] before[j]).inner().id@ == id {
            let j = choose|j: int|
                0 <= j < before.len() && (#[trigger] before[j]).inner().id@ == id;
            assert(proofs[j].inner().id@ == id);
        }
        if exists|j: int| 0 <= j < proofs.len() && (#[trigger] proofs[j]).inner().id@ == id {
            let j = choose|j: int|
                0 <= j < proofs.len() && (#[trigger] proofs[j]).inner().id@ == id;
            if j < before.len() {
                assert(before[j].inner().id@ == id);
            }
        }
    }
}

/// Claims that are not disclosed leave no trace in what is disclosed: presentations for one schema,
/// of credentials that agree on the disclosed claims, disclose the same.
pub proof fn undisclosed_claims_leave_no_trace<S: ProofSuite>(
    schema: PresentationSchema,
    credentials_a: OrderedMap<Credential>,
    nonce_a: &[u8],
    run_a: CreateRun<S>,
    a: Presentation,
    credentials_b: OrderedMap<Credential>,
    nonce_b: &[u8],
    run_b: CreateRun<S>,
    b: Presentation,
    id: Seq<char>,
)
    requires
        schema.statements.wf(),
        forall|k: int|
            0 <= k < message_types::signatures_of(schema.statements.listing()).len() ==> (
            #[trigger] message_types::signatures_of(
                schema.statements.listing(),
            )[k]).1->Signature_0.issuer.schema.claim_indices.wf(),
        creation::created(credentials_a, schema, nonce_a, run_a, Ok(a)),
        creation::created(credentials_b, schema, nonce_b, run_b, Ok(b)),
        agree_on_disclosed(
            credentials_a,
            credentials_b,
            message_types::signatures_of(schema.statements.listing()),
        ),
    ensures
        a.disclosed_messages@.dom().contains(id) <==> b.disclosed_messages@.dom().contains(id),
        a.disclosed_messages@.dom().contains(id) ==> creation::shown_map(
            a.disclosed_messages@[id],
        ) == creation::shown_map(b.disclosed_messages@[id]),
{
    let signatures = message_types::signatures_of(schema.statements.listing());
    let predicates = message_types::predicates_of(schema.statements.listing());
    if a.disclosed_messages@.dom().contains(id) {
        statements::lemma_members(schema.statements.listing());
        let k = ordered_map::key_index(signatures, id);
        assert(signatures[k].0 == id);
        assert(ordered_map::has_key(signatures, id));
        let asked = signatures[k].1->Signature_0;
        let x = creation::shown_map(run_a.disclosed[k]);
        let y = creation::shown_map(run_b.disclosed[k]);
        let p = credentials_a@[id].claims@;
        let q = credentials_b@[id].claims@;
        let revealed_a = message_types::revealed_claims(
            credentials_a@,
            signatures,
            predicates,
        )[id];
        let revealed_b = message_types::revealed_claims(
            credentials_b@,
            signatures,
            predicates,
        )[id];
        assert(revealed_a =~= revealed_b);
        assert(x == creation::disclosure(asked, credentials_a@[id], revealed_a));
        assert(y == creation::disclosure(asked, credentials_b@[id], revealed_b));
        assert forall|label: Seq<char>| x.dom().contains(label) implies #[trigger] x[label]
            == y[label] by {
            let i = choose|i: int|
                0 <= i < p.len() && revealed_a[i] && #[trigger] asked.issuer.schema.label(i)
                    == Some(label);
            statement::lemma_label_index(asked, i);
            linking::lemma_linked(signatures, predicates, (k, i), (k, i));
            linking::lemma_open(signatures, predicates, (k, i), (k, i));
            assert(p[i]@ == q[i]@);
        }
        assert(x.dom() =~= y.dom());
        assert(x =~= y);
    }
}

/// Nor do they leave one in the ids of the proofs: any two presentations for one schema have proofs
/// under the same ids, wherever proofs bear the ids of their statements.
pub proof fn claims_leave_no_trace_in_the_ids_of_proofs<S: ProofSuite>(
    schema: PresentationSchema,
    credentials_a: OrderedMap<Credential>,
    nonce_a: &[u8],
    run_a: CreateRun<S>,
    a: Presentation,
    credentials_b: OrderedMap<Credential>,
    nonce_b: &[u8],
    run_b: CreateRun<S>,
    b: Presentation,
    id: Seq<char>,
)
    requires
        schema.statements.wf(),
        creation::created(credentials_a, schema, nonce_a, run_a, Ok(a)),
        creation::created(credentials_b, schema, nonce_b, run_b, Ok(b)),
        proofs_bear_ids(schema, run_a, a.challenge),
        proofs_bear_ids(schema, run_b, b.challenge),
    ensures
        a.proofs@.dom().contains(id) <==> b.proofs@.dom().contains(id),
{
    every_statement_has_its_proof(credentials_a, schema, nonce_a, run_a, a, id);
    every_statement_has_its_proof(credentials_b, schema, nonce_b, run_b, b, id);
}

/// A range statement is proved next to the builder of the commitment that it refers to, about a
/// number of the credential, after all statements that are not ranges.
pub proof fn ranges_are_proved_next_to_their_commitments<S: ProofSuite>(
    credentials: OrderedMap<Credential>,
    schema: PresentationSchema,
    nonce: &[u8],
    run: CreateRun<S>,
    presentation: Presentation,
    k: int,
) -> (j: int)
    requires
        creation::created(credentials, schema, nonce, run, Ok(presentation)),
        0 <= k < message_types::predicates_of(schema.statements.listing()).len(),
        message_types::predicates_of(schema.statements.listing())[k].1 is Range,
    ensures
        ({
            let signatures = message_types::signatures_of(schema.statements.listing());
            let predicates = message_types::predicates_of(schema.statements.listing());
            let range = predicates[k].1->Range_0;
            let credential = credentials@[range.signature_id@];
            &&& 0 <= j < predicates.len()
            &&& predicates[j].0 == range.reference_id@
            &&& predicates[j].1 is Commitment
            &&& run.predicate_steps[j] is Built
            &&& run.predicate_steps[j]->Built_0 is Commitment
            &&& range.claim < credential.claims@.len()
            &&& credential.claims@[range.claim as int] is Number
            &&& run.range_steps[k] is Built
            &&& run.range_steps[k]->Built_0 is Range
            &&& suite::range_committed(
                range,
                run.predicate_steps[j]->Built_0,
                credential,
                creation::log_before_ranges(nonce@, signatures, run) + creation::joined(
                    creation::step_pieces(run.range_steps.take(k)),
                ),
                Ok(
                    Committed {
                        builder: run.range_steps[k]->Built_0->Range_0,
                        contributions: run.range_steps[k]->Built_1,
                    },
                ),
            )
        }),
{
    let predicates = message_types::predicates_of(schema.statements.listing());
    let range = predicates[k].1->Range_0;
    let s = creation::built(run.signature_steps);
    let p = creation::built(run.predicate_steps);
    let registry = creation::registry(
        predicates,
        run.predicate_steps,
        s.len() as int,
        predicates.len() as int,
    );
    assert(!(run.range_steps[k] is Failed));
    assert(registry.dom().contains(range.reference_id@));
    let j = lemma_registered(
        predicates,
        run.predicate_steps,
        s.len() as int,
        predicates.len() as int,
        range.reference_id@,
    );
    let at = lemma_built_to(run.predicate_steps, j);
    assert((s + p)[s.len() + at] == p[at]);
    assert(creation::predicate_step(
        credentials,
        run.messages,
        nonce,
        predicates[j].1,
        run.predicate_steps[j],
    ));
    j
}

/// What is registered under an id is the place of the builder of a statement of that id.
pub(crate) proof fn lemma_registered<S: ProofSuite>(
    predicates: Seq<(Seq<char>, Statements)>,
    steps: Seq<Step<S>>,
    base: int,
    n: int,
    id: Seq<char>,
) -> (j: int)
    requires
        creation::registry(predicates, steps, base, n).dom().contains(id),
    ensures
        0 <= j < n,
        predicates[j].0 == id,
        steps[j] is Built,
        creation::registry(predicates, steps, base, n)[id] == base + creation::built(
            steps.take(j),
        ).len(),
    decreases n,
{
    if steps[n - 1] is Built && predicates[n - 1].0 == id {
        n - 1
    } else {
        lemma_registered(predicates, steps, base, n - 1, id)
    }
}

/// The proofs of a presentation that is made stand under the ids that they bear.
pub proof fn proofs_stand_under_their_ids<S: ProofSuite>(
    credentials: OrderedMap<Credential>,
    schema: PresentationSchema,
    nonce: &[u8],
    run: CreateRun<S>,
    presentation: Presentation,
    id: Seq<char>,
)
    requires
        creation::created(credentials, schema, nonce, run, Ok(presentation)),
        presentation.proofs@.dom().contains(id),
    ensures
        presentation.proofs@[id].inner().id@ == id,
{
    lemma_collected_ids(run.proofs);
}

/// Proofs are collected under the ids that they bear.
proof fn lemma_collected_ids(proofs: Seq<PresentationProofs>)
    ensures
        forall|id: Seq<char>| #[trigger]
            creation::collected(proofs).dom().contains(id) ==> creation::collected(
                proofs,
            )[id].inner().id@ == id,
    decreases proofs.len(),
{
    if proofs.len() > 0 {
        let before = creation::collected(proofs.drop_last());
        lemma_collected_ids(proofs.drop_last());
        assert forall|id: Seq<char>| #[trigger]
            creation::collected(proofs).dom().contains(id) implies creation::collected(
            proofs,
        )[id].inner().id@ == id by {
            if id != proofs.last().inner().id@ {
                assert(before.dom().contains(id));
            }
        }
    }
}

/// A statement with a verifier has it among all verifiers.
proof fn lemma_one_matched(
    schema: &PresentationSchema,
    proofs: &OrderedMap<PresentationProofs>,
    nonce: &[u8],
    entries: Seq<(Seq<char>, Statements)>,
    k: int,
) -> (m: int)
    requires
        0 <= k < entries.len(),
        verification::matched(schema, proofs, nonce, entries[k]) is Some,
    ensures
        0 <= m < verification::all_matched(schema, proofs, nonce, entries).len(),
        Some(verification::all_matched(schema, proofs, nonce, entries)[m])
            == verification::matched(schema, proofs, nonce, entries[k]),
    decreases entries.len(),
{
    let before = entries.drop_last();
    if k == entries.len() - 1 {
        verification::all_matched(schema, proofs, nonce, before).len() as int
    } else {
        lemma_one_matched(schema, proofs, nonce, before, k)
    }
}

/// A presentation that is accepted has for every statement a proof of its kind, accepted by the
/// suite; there is no range among the statements.
pub proof fn accepted_presentations_prove_their_statements<S: ProofSuite>(
    presentation: Presentation,
    schema: &PresentationSchema,
    nonce: &[u8],
    run: VerifyRun,
    id: Seq<char>,
)
    requires
        schema.statements.wf(),
        verification::verified::<S>(presentation, schema, nonce, run, Ok(())),
        schema.statements@.dom().contains(id),
    ensures
        presentation.proofs@.dom().contains(id),
        is_of_kind(schema.statements@[id], presentation.proofs@[id]),
        !(schema.statements@[id] is Range),
        verifiers::proof_checked::<S>(
            verification::matched(
                schema,
                &presentation.proofs,
                nonce,
                (id, schema.statements@[id]),
            )->0,
            presentation.challenge,
            Ok(()),
        ),
{
    let all = schema.statements.listing();
    let signatures = message_types::signatures_of(all);
    let predicates = message_types::predicates_of(all);
    let proofs = &presentation.proofs;
    let entry = (id, schema.statements@[id]);
    let s = verification::all_matched(schema, proofs, nonce, signatures);
    let p = verification::all_matched(schema, proofs, nonce, predicates);
    statements::lemma_members(all);
    let q = ordered_map::key_index(all, id);
    assert(all[q] == entry);
    assert(all.contains(entry));
    if entry.1 is Signature {
        assert(signatures.contains(entry));
        let k = choose|k: int| 0 <= k < signatures.len() && signatures[k] == entry;
        assert(!(run.signature_checks[k] is Failed));
        let m = lemma_one_matched(schema, proofs, nonce, signatures, k);
        assert((s + p)[m] == s[m]);
        assert(run.verdicts[m] is Ok);
        assert(run.verdicts[m]->Ok_0 == ());
    } else {
        assert(predicates.contains(entry));
        let k = choose|k: int| 0 <= k < predicates.len() && predicates[k] == entry;
        assert(!(run.predicate_checks[k] is Failed));
        let m = lemma_one_matched(schema, proofs, nonce, predicates, k);
        assert((s + p)[s.len() + m] == p[m]);
        assert(run.verdicts[s.len() + m] is Ok);
        assert(run.verdicts[s.len() + m]->Ok_0 == ());
    }
}

/// Two presentations have the same under every id that the schema asks for.
pub open spec fn agree_on_what_is_asked_for(
    schema: &PresentationSchema,
    a: Presentation,
    b: Presentation,
) -> bool {
    let signatures = message_types::signatures_of(schema.statements.listing());
    &&& a.challenge == b.challenge
    &&& forall|id: Seq<char>|
        ordered_map::has_key(schema.statements.listing(), id) ==> {
            &&& #[trigger] a.proofs@.dom().contains(id) <==> b.proofs@.dom().contains(id)
            &&& a.proofs@.dom().contains(id) ==> a.proofs@[id] == b.proofs@[id]
        }
    &&& forall|k: int|
        0 <= k < signatures.len() ==> {
            let id = (#[trigger] signatures[k]).1->Signature_0.id@;
            &&& a.disclosed_messages@.dom().contains(id) <==> b.disclosed_messages@.dom().contains(
                id,
            )
            &&& a.disclosed_messages@.dom().contains(id) ==> a.disclosed_messages@[id]
                == b.disclosed_messages@[id]
        }
}

/// The suite answers the same about an equality statement whichever of the two maps of proofs it is
/// given.
pub open spec fn compares_the_same<S: ProofSuite>(
    schema: &PresentationSchema,
    a: &OrderedMap<PresentationProofs>,
    b: &OrderedMap<PresentationProofs>,
    challenge: Scalar,
) -> bool {
    &&& forall|statement: EqualityStatement, reply: CredxResult<Vec<Contribution>>|
        #![trigger call_ensures(
            S::equality_contribution,
            (&statement, schema, a, challenge),
            reply,
        )]
        #![trigger call_ensures(
            S::equality_contribution,
            (&statement, schema, b, challenge),
            reply,
        )]
        call_ensures(S::equality_contribution, (&statement, schema, a, challenge), reply)
            == call_ensures(S::equality_contribution, (&statement, schema, b, challenge), reply)
    &&& forall|statement: EqualityStatement, reply: CredxResult<()>|
        #![trigger call_ensures(S::verify_equality, (&statement, schema, a, challenge), reply)]
        #![trigger call_ensures(S::verify_equality, (&statement, schema, b, challenge), reply)]
        call_ensures(S::verify_equality, (&statement, schema, a, challenge), reply) == call_ensures(
            S::verify_equality,
            (&statement, schema, b, challenge),
            reply,
        )
}

/// Only what the schema asks for is read: presentations that have the same under the ids that the
/// schema asks for are verified with the same outcomes, wherever the suite compares claims the same
/// with the proofs of either.
pub proof fn only_what_is_asked_for_is_read<S: ProofSuite>(
    schema: &PresentationSchema,
    nonce: &[u8],
    a: Presentation,
    b: Presentation,
    run: VerifyRun,
    result: CredxResult<()>,
)
    requires
        schema.statements.wf(),
        agree_on_what_is_asked_for(schema, a, b),
        compares_the_same::<S>(schema, &a.proofs, &b.proofs, a.challenge),
    ensures
        verification::disclosures_are_there(
            a,
            message_types::signatures_of(schema.statements.listing()),
        ) == verification::disclosures_are_there(
            b,
            message_types::signatures_of(schema.statements.listing()),
        ),
        verification::disclosures_are_there(
            a,
            message_types::signatures_of(schema.statements.listing()),
        ) ==> (verification::verified::<S>(a, schema, nonce, run, result)
            <==> verification::verified::<S>(b, schema, nonce, run, result)),
{
    let all = schema.statements.listing();
    let signatures = message_types::signatures_of(all);
    statements::lemma_members(all);
    assert forall|k: int| 0 <= k < signatures.len() implies {
        &&& verification::has_signature(a, (#[trigger] signatures[k]).0)
            == verification::has_signature(b, signatures[k].0)
        &&& verification::disclosure_is_there(a, signatures[k].1)
            == verification::disclosure_is_there(b, signatures[k].1)
    } by {
        assert(signatures.contains(signatures[k]));
        lemma_listed(all, signatures[k]);
        assert(a.proofs@.dom().contains(signatures[k].0) == b.proofs@.dom().contains(
            signatures[k].0,
        ));
    }
    if verification::disclosures_are_there(a, signatures) {
        lemma_there_one_way(signatures, a, b);
        lemma_read_one_way::<S>(schema, nonce, a, b, run, result);
        lemma_read_one_way::<S>(schema, nonce, b, a, run, result);
    }
    if verification::disclosures_are_there(b, signatures) {
        lemma_there_one_way(signatures, b, a);
    }
}

/// Where two presentations have the same, the disclosed claims are there in the one if they are in
/// the other.
proof fn lemma_there_one_way(
    signatures: Seq<(Seq<char>, Statements)>,
    a: Presentation,
    b: Presentation,
)
    requires
        forall|k: int|
            0 <= k < signatures.len() ==> {
                &&& verification::has_signature(a, (#[trigger] signatures[k]).0)
                    == verification::has_signature(b, signatures[k].0)
                &&& verification::disclosure_is_there(a, signatures[k].1)
                    == verification::disclosure_is_there(b, signatures[k].1)
            },
        verification::disclosures_are_there(a, signatures),
    ensures
        verification::disclosures_are_there(b, signatures),
{
    assert forall|k: int|
        0 <= k < signatures.len() && (forall|j: int|
            0 <= j <= k ==> verification::has_signature(
                b,
                (#[trigger] signatures[j]).0,
            )) implies verification::disclosure_is_there(b, (#[trigger] signatures[k]).1) by {
        assert forall|j: int| 0 <= j <= k implies verification::has_signature(
            a,
            (#[trigger] signatures[j]).0,
        ) by {
            assert(verification::has_signature(b, signatures[j].0));
        }
    }
}

/// Two verifiers get the same answers.
spec fn are_answered_alike<S: ProofSuite>(
    a: ProofVerifiers<'_>,
    b: ProofVerifiers<'_>,
    challenge: Scalar,
) -> bool {
    &&& forall|reply: CredxResult<Vec<Contribution>>|
        #![trigger verifiers::contribution_given::<S>(a, challenge, reply)]
        #![trigger verifiers::contribution_given::<S>(b, challenge, reply)]
        verifiers::contribution_given::<S>(a, challenge, reply)
            == verifiers::contribution_given::<S>(b, challenge, reply)
    &&& forall|reply: CredxResult<()>|
        #![trigger verifiers::proof_checked::<S>(a, challenge, reply)]
        #![trigger verifiers::proof_checked::<S>(b, challenge, reply)]
        verifiers::proof_checked::<S>(a, challenge, reply) == verifiers::proof_checked::<S>(
            b,
            challenge,
            reply,
        )
}

/// The verifiers of a statement of the schema for the one presentation and for the other are there
/// or not alike, and get the same answers.
proof fn lemma_matched_alike<S: ProofSuite>(
    schema: &PresentationSchema,
    nonce: &[u8],
    a: Presentation,
    b: Presentation,
    entry: (Seq<char>, Statements),
)
    requires
        agree_on_what_is_asked_for(schema, a, b),
        compares_the_same::<S>(schema, &a.proofs, &b.proofs, a.challenge),
        schema.statements.listing().contains(entry),
    ensures
        ({
            let x = verification::matched(schema, &a.proofs, nonce, entry);
            let y = verification::matched(schema, &b.proofs, nonce, entry);
            &&& x is Some <==> y is Some
            &&& x is Some ==> are_answered_alike::<S>(x->0, y->0, a.challenge)
        }),
{
    lemma_listed(schema.statements.listing(), entry);
    assert(a.proofs@.dom().contains(entry.0) == b.proofs@.dom().contains(entry.0));
}

/// The verifiers of statements of the schema get the same answers, one by one.
proof fn lemma_all_matched_alike<S: ProofSuite>(
    schema: &PresentationSchema,
    nonce: &[u8],
    a: Presentation,
    b: Presentation,
    entries: Seq<(Seq<char>, Statements)>,
)
    requires
        agree_on_what_is_asked_for(schema, a, b),
        compares_the_same::<S>(schema, &a.proofs, &b.proofs, a.challenge),
        forall|k: int|
            0 <= k < entries.len() ==> schema.statements.listing().contains(#[trigger] entries[k]),
    ensures
        ({
            let x = verification::all_matched(schema, &a.proofs, nonce, entries);
            let y = verification::all_matched(schema, &b.proofs, nonce, entries);
            &&& x.len() == y.len()
            &&& forall|m: int|
                0 <= m < x.len() ==> are_answered_alike::<S>(#[trigger] x[m], y[m], a.challenge)
        }),
    decreases entries.len(),
{
    if entries.len() > 0 {
        let before = entries.drop_last();
        assert forall|k: int| 0 <= k < before.len() implies schema.statements.listing().contains(
            #[trigger] before[k],
        ) by {
            assert(before[k] == entries[k]);
        }
        lemma_all_matched_alike::<S>(schema, nonce, a, b, before);
        assert(entries[entries.len() - 1] == entries.last());
        lemma_matched_alike::<S>(schema, nonce, a, b, entries.last());
        let x = verification::all_matched(schema, &a.proofs, nonce, entries);
        let y = verification::all_matched(schema, &b.proofs, nonce, entries);
        let p = verification::all_matched(schema, &a.proofs, nonce, before);
        let q = verification::all_matched(schema, &b.proofs, nonce, before);
        assert forall|m: int| 0 <= m < x.len() implies are_answered_alike::<S>(
            #[trigger] x[m],
            y[m],
            a.challenge,
        ) by {
            if m < p.len() {
                assert(x[m] == p[m] && y[m] == q[m]);
                assert(are_answered_alike::<S>(p[m], q[m], a.challenge));
            }
        }
    }
}

/// What comes of the one presentation can come of the other.
proof fn lemma_read_one_way<S: ProofSuite>(
    schema: &PresentationSchema,
    nonce: &[u8],
    a: Presentation,
    b: Presentation,
    run: VerifyRun,
    result: CredxResult<()>,
)
    requires
        schema.statements.wf(),
        agree_on_what_is_asked_for(schema, a, b),
        compares_the_same::<S>(schema, &a.proofs, &b.proofs, a.challenge),
        verification::disclosures_are_there(
            a,
            message_types::signatures_of(schema.statements.listing()),
        ),
    ensures
        verification::verified::<S>(a, schema, nonce, run, result) ==> verification::verified::<S>(
            b,
            schema,
            nonce,
            run,
            result,
        ),
{
    if verification::verified::<S>(a, schema, nonce, run, result) {
        let all = schema.statements.listing();
        let signatures = message_types::signatures_of(all);
        let predicates = message_types::predicates_of(all);
        statements::lemma_members(all);
        message_types::lemma_parts(all);
        assert forall|k: int| 0 <= k < signatures.len() implies all.contains(
            #[trigger] signatures[k],
        ) by {
            assert(signatures.contains(signatures[k]));
        }
        assert forall|k: int| 0 <= k < predicates.len() implies all.contains(
            #[trigger] predicates[k],
        ) by {
            assert(predicates.contains(predicates[k]));
        }
        lemma_checks_alike::<S>(schema, nonce, a, b, signatures, run.signature_checks);
        lemma_checks_alike::<S>(schema, nonce, a, b, predicates, run.predicate_checks);
        lemma_all_matched_alike::<S>(schema, nonce, a, b, signatures);
        lemma_all_matched_alike::<S>(schema, nonce, a, b, predicates);
        let x = verification::all_matched(schema, &a.proofs, nonce, signatures)
            + verification::all_matched(schema, &a.proofs, nonce, predicates);
        let y = verification::all_matched(schema, &b.proofs, nonce, signatures)
            + verification::all_matched(schema, &b.proofs, nonce, predicates);
        assert forall|k: int| 0 <= k < run.verdicts.len() implies verifiers::proof_checked::<S>(
            y[k],
            b.challenge,
            #[trigger] run.verdicts[k],
        ) by {
            assert(verifiers::proof_checked::<S>(x[k], a.challenge, run.verdicts[k]));
            assert(are_answered_alike::<S>(x[k], y[k], a.challenge));
        }
        assert(verification::verdicts_given::<S>(y, b.challenge, run.verdicts));
        assert forall|k: int|
            0 <= k < run.shown.len() && verification::has_signature(b, signatures[k].0)
            implies challenge::claims_encoded::<S>(
            verification::disclosed_for(b, signatures[k].1),
            #[trigger] run.shown[k],
        ) by {
            lemma_listed(all, signatures[k]);
            assert(a.proofs@.dom().contains(signatures[k].0) == b.proofs@.dom().contains(
                signatures[k].0,
            ));
            assert(verification::has_signature(a, signatures[k].0));
            assert forall|j: int| 0 <= j <= k implies verification::has_signature(
                a,
                (#[trigger] signatures[j]).0,
            ) by {
                if j < k {
                    assert(!(run.signature_checks[j] is Failed));
                    assert(verification::statement_check::<S>(
                        schema,
                        a,
                        nonce,
                        signatures[j],
                        run.signature_checks[j],
                    ));
                }
            }
            assert(verification::disclosure_is_there(a, signatures[k].1));
            assert(challenge::claims_encoded::<S>(
                verification::disclosed_for(a, signatures[k].1),
                run.shown[k],
            ));
        }
        assert(verification::disclosures_encoded::<S>(b, signatures, run.shown));
    }
}

/// The checks of the one presentation can be those of the other.
proof fn lemma_checks_alike<S: ProofSuite>(
    schema: &PresentationSchema,
    nonce: &[u8],
    a: Presentation,
    b: Presentation,
    entries: Seq<(Seq<char>, Statements)>,
    checks: Seq<Check>,
)
    requires
        agree_on_what_is_asked_for(schema, a, b),
        compares_the_same::<S>(schema, &a.proofs, &b.proofs, a.challenge),
        forall|k: int|
            0 <= k < entries.len() ==> schema.statements.listing().contains(#[trigger] entries[k]),
        verification::checks_made::<S>(schema, a, nonce, entries, checks),
    ensures
        verification::checks_made::<S>(schema, b, nonce, entries, checks),
{
    assert forall|k: int| 0 <= k < checks.len() implies verification::statement_check::<S>(
        schema,
        b,
        nonce,
        entries[k],
        #[trigger] checks[k],
    ) by {
        assert(verification::statement_check::<S>(schema, a, nonce, entries[k], checks[k]));
        lemma_matched_alike::<S>(schema, nonce, a, b, entries[k]);
    }
}

} // verus!
