//! That presentations that are made are accepted.
use vstd::prelude::*;
use crate::challenge;
use crate::claim::{ClaimData, EncodingView};
use crate::creation;
use crate::creation::{CreateRun, Step};
use crate::credential::Credential;
use crate::error::CredxResult;
use crate::laws::binding;
use crate::laws::presentations;
use crate::laws::statements;
use crate::message_types;
use crate::ordered_map;
use crate::ordered_map::OrderedMap;
use crate::presentation::Presentation;
use crate::proofs::PresentationProofs;
use crate::statement::{PresentationSchema, Statements};
use crate::suite;
use crate::suite::ProofSuite;
use crate::transcript;
use crate::transcript::Contribution;
use crate::verification;
use crate::verification::{Check, VerifyRun};
use crate::verifiers;

verus! {

/// The suite encodes a claim always in the same way.
pub open spec fn encodes_the_same<S: ProofSuite>() -> bool {
    forall|claim: ClaimData, a: EncodingView, b: EncodingView|
        #![trigger suite::encoded::<S>(claim, a), suite::encoded::<S>(claim, b)]
        suite::encoded::<S>(claim, a) && suite::encoded::<S>(claim, b) ==> a == b
}

/// There is no range among the statements.
pub open spec fn has_no_range(schema: PresentationSchema) -> bool {
    forall|k: int|
        0 <= k < schema.statements.listing().len() ==> !((
        #[trigger] schema.statements.listing()[k]).1 is Range)
}

/// The suite is true to a commitment that it made for a statement: the proof bears the id of the
/// statement and is of its kind, what the proof contributes is what the commitment contributed, and
/// the proof is accepted.
pub open spec fn is_true_to<S: ProofSuite>(
    schema: &PresentationSchema,
    presentation: Presentation,
    nonce: &[u8],
    entry: (Seq<char>, Statements),
    step: Step<S>,
) -> bool {
    step matches Step::Built(builder, bound) ==> {
        &&& forall|proof: PresentationProofs| #[trigger]
            suite::proof_made(builder, presentation.challenge, proof) ==> proof.inner().id@
                == entry.0 && presentations::is_of_kind(entry.1, proof)
        &&& verification::matched(schema, &presentation.proofs, nonce, entry) matches Some(v) ==> {
            &&& forall|reply: CredxResult<Vec<Contribution>>| #[trigger]
                verifiers::contribution_given::<S>(v, presentation.challenge, reply) ==> reply is Ok
                    && transcript::contributed(reply->Ok_0@) == transcript::contributed(bound@)
            &&& forall|reply: CredxResult<()>| #[trigger]
                verifiers::proof_checked::<S>(v, presentation.challenge, reply) ==> reply is Ok
        }
    }
}

/// The suite is true to all commitments of a run.
pub open spec fn is_true_to_run<S: ProofSuite>(
    schema: &PresentationSchema,
    presentation: Presentation,
    nonce: &[u8],
    run: CreateRun<S>,
) -> bool {
    let signatures = message_types::signatures_of(schema.statements.listing());
    let predicates = message_types::predicates_of(schema.statements.listing());
    &&& forall|k: int|
        0 <= k < signatures.len() ==> is_true_to(
            schema,
            presentation,
            nonce,
            #[trigger] signatures[k],
            run.signature_steps[k],
        )
    &&& forall|k: int|
        0 <= k < predicates.len() ==> is_true_to(
            schema,
            presentation,
            nonce,
            #[trigger] predicates[k],
            run.predicate_steps[k],
        )
}

/// Signature statements have the ids under which the schema lists them.
pub open spec fn signatures_bear_their_ids(schema: PresentationSchema) -> bool {
    let signatures = message_types::signatures_of(schema.statements.listing());
    forall|k: int|
        0 <= k < signatures.len() ==> (#[trigger] signatures[k]).1->Signature_0.id@
            == signatures[k].0
}

/// Proofs with different ids are all collected.
proof fn lemma_all_collected(proofs: Seq<PresentationProofs>)
    requires
        forall|i: int, j: int|
            0 <= i < j < proofs.len() ==> (#[trigger] proofs[i]).inner().id@ != (
            #[trigger] proofs[j]).inner().id@,
    ensures
        forall|j: int|
            0 <= j < proofs.len() ==> creation::collected(proofs).dom().contains(
                (#[trigger] proofs[j]).inner().id@,
            ) && creation::collected(proofs)[proofs[j].inner().id@] == proofs[j],
    decreases proofs.len(),
{
    if proofs.len() > 0 {
        let before = proofs.drop_last();
        lemma_all_collected(before);
        assert forall|j: int| 0 <= j < proofs.len() implies creation::collected(
            proofs,
        ).dom().contains((#[trigger] proofs[j]).inner().id@) && creation::collected(
            proofs,
        )[proofs[j].inner().id@] == proofs[j] by {
            if j < before.len() {
                assert(before[j] == proofs[j]);
                assert(proofs[j].inner().id@ != proofs[proofs.len() - 1].inner().id@);
            }
        }
    }
}

/// Where every step has given a builder, the builders are those of the steps.
proof fn lemma_all_built<S: ProofSuite>(steps: Seq<Step<S>>)
    requires
        forall|k: int| 0 <= k < steps.len() ==> #[trigger] steps[k] is Built,
    ensures
        creation::built(steps).len() == steps.len(),
        forall|k: int|
            0 <= k < steps.len() ==> creation::built(steps)[k] == (#[trigger] steps[k])->Built_0,
    decreases steps.len(),
{
    if steps.len() > 0 {
        let before = steps.drop_last();
        assert forall|k: int| 0 <= k < before.len() implies #[trigger] before[k] is Built by {
            assert(steps[k] is Built);
        }
        lemma_all_built(before);
        assert(steps[steps.len() - 1] is Built);
        assert forall|k: int| 0 <= k < steps.len() implies creation::built(steps)[k] == (
        #[trigger] steps[k])->Built_0 by {
            if k < before.len() {
                assert(before[k] == steps[k]);
            }
        }
    }
}

/// Steps that pass over all statements give no builders and bind nothing.
proof fn lemma_none_built<S: ProofSuite>(steps: Seq<Step<S>>)
    requires
        forall|k: int| 0 <= k < steps.len() ==> #[trigger] steps[k] is Skipped,
    ensures
        creation::built(steps).len() == 0,
        creation::joined(creation::step_pieces(steps)).len() == 0,
    decreases steps.len(),
{
    if steps.len() > 0 {
        let before = steps.drop_last();
        assert forall|k: int| 0 <= k < before.len() implies #[trigger] before[k] is Skipped by {
            assert(steps[k] is Skipped);
        }
        lemma_none_built(before);
        assert(steps[steps.len() - 1] is Skipped);
        assert(creation::step_pieces(steps).drop_last() =~= creation::step_pieces(before));
    }
}

/// Where every statement has a verifier, the verifiers are those of the statements.
proof fn lemma_every_one_matched(
    schema: &PresentationSchema,
    proofs: &OrderedMap<PresentationProofs>,
    nonce: &[u8],
    entries: Seq<(Seq<char>, Statements)>,
)
    requires
        forall|k: int|
            0 <= k < entries.len() ==> verification::matched(
                schema,
                proofs,
                nonce,
                #[trigger] entries[k],
            ) is Some,
    ensures
        verification::all_matched(schema, proofs, nonce, entries).len() == entries.len(),
        forall|k: int|
            0 <= k < entries.len() ==> Some(
                verification::all_matched(schema, proofs, nonce, entries)[k],
            ) == verification::matched(schema, proofs, nonce, #[trigger] entries[k]),
    decreases entries.len(),
{
    if entries.len() > 0 {
        let before = entries.drop_last();
        assert forall|k: int| 0 <= k < before.len() implies verification::matched(
            schema,
            proofs,
            nonce,
            #[trigger] before[k],
        ) is Some by {
            assert(before[k] == entries[k]);
        }
        lemma_every_one_matched(schema, proofs, nonce, before);
        assert(entries[entries.len() - 1] == entries.last());
        assert forall|k: int| 0 <= k < entries.len() implies Some(
            verification::all_matched(schema, proofs, nonce, entries)[k],
        ) == verification::matched(schema, proofs, nonce, #[trigger] entries[k]) by {
            if k < before.len() {
                assert(before[k] == entries[k]);
            }
        }
    }
}

/// What a run and its presentation come to where the suite is true to its commitments and there are
/// no ranges: every statement has its builder, and its verifier under its id.
proof fn lemma_proofs_match<S: ProofSuite>(
    credentials: OrderedMap<Credential>,
    schema: PresentationSchema,
    nonce: &[u8],
    run: CreateRun<S>,
    presentation: Presentation,
)
    requires
        schema.statements.wf(),
        creation::created(credentials, schema, nonce, run, Ok(presentation)),
        is_true_to_run(&schema, presentation, nonce, run),
        has_no_range(schema),
    ensures
        forall|k: int|
            0 <= k < run.signature_steps.len() ==> #[trigger] run.signature_steps[k] is Built,
        forall|k: int|
            0 <= k < run.predicate_steps.len() ==> #[trigger] run.predicate_steps[k] is Built,
        forall|k: int|
            0 <= k < run.range_steps.len() ==> #[trigger] run.range_steps[k] is Skipped,
        forall|k: int|
            0 <= k < message_types::signatures_of(schema.statements.listing()).len()
                ==> verification::matched(
                &schema,
                &presentation.proofs,
                nonce,
                #[trigger] message_types::signatures_of(schema.statements.listing())[k],
            ) is Some,
        forall|k: int|
            0 <= k < message_types::predicates_of(schema.statements.listing()).len()
                ==> verification::matched(
                &schema,
                &presentation.proofs,
                nonce,
                #[trigger] message_types::predicates_of(schema.statements.listing())[k],
            ) is Some,
{
    let all = schema.statements.listing();
    let signatures = message_types::signatures_of(all);
    let predicates = message_types::predicates_of(all);
    statements::lemma_members(all);
    message_types::lemma_parts(all);
    assert forall|k: int| 0 <= k < predicates.len() implies !((
    #[trigger] predicates[k]).1 is Range) by {
        assert(predicates.contains(predicates[k]));
        let q = choose|q: int| 0 <= q < all.len() && all[q] == predicates[k];
        assert(!(all[q].1 is Range));
    }
    assert forall|k: int| 0 <= k < run.signature_steps.len() implies #[trigger]
        run.signature_steps[k] is Built by {
        assert(creation::signature_step(
            credentials,
            run.messages,
            signatures[k],
            run.signature_steps[k],
        ));
    }
    assert forall|k: int| 0 <= k < run.predicate_steps.len() implies #[trigger]
        run.predicate_steps[k] is Built by {
        assert(creation::predicate_step(
            credentials,
            run.messages,
            nonce,
            predicates[k].1,
            run.predicate_steps[k],
        ));
        assert(!(predicates[k].1 is Range));
    }
    assert forall|k: int| 0 <= k < run.range_steps.len() implies #[trigger]
        run.range_steps[k] is Skipped by {
        assert(!(predicates[k].1 is Range));
    }
    lemma_all_built(run.signature_steps);
    lemma_all_built(run.predicate_steps);
    lemma_none_built(run.range_steps);
    let entries = signatures + predicates;
    let steps = run.signature_steps + run.predicate_steps;
    let builders = creation::built(run.range_steps) + creation::built(run.signature_steps)
        + creation::built(run.predicate_steps);
    assert forall|j: int| 0 <= j < entries.len() implies {
        &&& (#[trigger] run.proofs[j]).inner().id@ == entries[j].0
        &&& presentations::is_of_kind(entries[j].1, run.proofs[j])
    } by {
        if j < signatures.len() {
            assert(entries[j] == signatures[j]);
            assert(builders[j] == run.signature_steps[j]->Built_0);
            assert(is_true_to(
                &schema,
                presentation,
                nonce,
                signatures[j],
                run.signature_steps[j],
            ));
        } else {
            let k = j - signatures.len();
            assert(entries[j] == predicates[k]);
            assert(builders[j] == run.predicate_steps[k]->Built_0);
            assert(is_true_to(
                &schema,
                presentation,
                nonce,
                predicates[k],
                run.predicate_steps[k],
            ));
        }
        assert(suite::proof_made(builders[j], presentation.challenge, run.proofs[j]));
    }
    assert forall|i: int, j: int| 0 <= i < j < run.proofs.len() implies (
    #[trigger] run.proofs[i]).inner().id@ != (#[trigger] run.proofs[j]).inner().id@ by {
        lemma_ids_differ(all, i, j);
    }
    lemma_all_collected(run.proofs);
    assert forall|k: int| 0 <= k < signatures.len() implies verification::matched(
        &schema,
        &presentation.proofs,
        nonce,
        #[trigger] signatures[k],
    ) is Some by {
        assert(entries[k] == signatures[k]);
        assert(run.proofs[k].inner().id@ == entries[k].0);
    }
    assert forall|k: int| 0 <= k < predicates.len() implies verification::matched(
        &schema,
        &presentation.proofs,
        nonce,
        #[trigger] predicates[k],
    ) is Some by {
        assert(entries[signatures.len() + k] == predicates[k]);
        assert(run.proofs[signatures.len() + k].inner().id@ == entries[signatures.len() + k].0);
    }
}

/// No two statements, of either part, have one id.
proof fn lemma_ids_differ(all: Seq<(Seq<char>, Statements)>, i: int, j: int)
    requires
        ordered_map::ascending(all),
        0 <= i < j < all.len(),
    ensures
        ({
            let entries = message_types::signatures_of(all) + message_types::predicates_of(all);
            entries.len() == all.len() && entries[i].0 != entries[j].0
        }),
{
    let signatures = message_types::signatures_of(all);
    let predicates = message_types::predicates_of(all);
    let entries = signatures + predicates;
    statements::lemma_members(all);
    ordered_map::lemma_text_order(entries[i].0, entries[j].0);
    if j < signatures.len() {
        assert(ordered_map::text_before(signatures[i].0, signatures[j].0));
    } else if i >= signatures.len() {
        assert(ordered_map::text_before(
            predicates[i - signatures.len()].0,
            predicates[j - signatures.len()].0,
        ));
    } else {
        let (a, b) = (signatures[i], predicates[j - signatures.len()]);
        assert(signatures.contains(a) && predicates.contains(b));
        let p = choose|p: int| 0 <= p < all.len() && all[p] == a;
        let q = choose|q: int| 0 <= q < all.len() && all[q] == b;
        ordered_map::lemma_entry_found(all, p);
        ordered_map::lemma_entry_found(all, q);
    }
}

/// Where the suite is true to its commitments, verifying binds what making the presentation bound.
proof fn lemma_logs_agree<S: ProofSuite>(
    credentials: OrderedMap<Credential>,
    schema: PresentationSchema,
    nonce: &[u8],
    run: CreateRun<S>,
    presentation: Presentation,
    check: VerifyRun,
)
    requires
        creation::created(credentials, schema, nonce, run, Ok(presentation)),
        signatures_bear_their_ids(schema),
        transcript::contributed(check.binding@) == transcript::contributed(run.binding@),
        forall|k: int|
            0 <= k < run.range_steps.len() ==> #[trigger] run.range_steps[k] is Skipped,
        agree(run.signature_steps, check.signature_checks),
        agree(run.predicate_steps, check.predicate_checks),
        check.shown == run.shown,
    ensures
        verification::verification_log(
            nonce@,
            message_types::signatures_of(schema.statements.listing()),
            check,
        ) == creation::creation_log(
            nonce@,
            message_types::signatures_of(schema.statements.listing()),
            run,
        ),
{
    let signatures = message_types::signatures_of(schema.statements.listing());
    lemma_none_built(run.range_steps);
    let x = verification::signature_pieces(signatures, check.shown, check.signature_checks);
    let y = creation::signature_pieces(signatures, run.shown, run.signature_steps);
    assert forall|k: int| 0 <= k < signatures.len() implies x[k] == y[k] by {
        assert(signatures[k].1->Signature_0.id@ == signatures[k].0);
        assert(check.signature_checks[k] is Bound);
    }
    assert(x =~= y);
    let p = verification::predicate_pieces(check.predicate_checks);
    let q = creation::step_pieces(run.predicate_steps);
    assert forall|k: int| 0 <= k < run.predicate_steps.len() implies p[k] == q[k] by {
        assert(check.predicate_checks[k] is Bound);
    }
    assert(p =~= q);
    assert(challenge::opening_log(nonce@, check.binding@) == challenge::opening_log(
        nonce@,
        run.binding@,
    ));
    assert(verification::verification_log(nonce@, signatures, check) =~= creation::creation_log(
        nonce@,
        signatures,
        run,
    ));
}

/// Every step gave a builder, and every check binds what the step bound.
spec fn agree<S: ProofSuite>(steps: Seq<Step<S>>, checks: Seq<Check>) -> bool {
    &&& checks.len() == steps.len()
    &&& forall|k: int|
        0 <= k < checks.len() ==> #[trigger] checks[k] is Bound && steps[k] is Built
            && transcript::contributed(checks[k]->Bound_0@) == transcript::contributed(
            steps[k]->Built_1@,
        )
}

/// A presentation that is made for statements other than ranges is accepted, under the schema and
/// the nonce that it was made for, wherever the suite is true to the commitments that it made and
/// encodes and binds the same when it is asked again.
pub proof fn created_presentations_are_accepted<S: ProofSuite>(
    credentials: OrderedMap<Credential>,
    schema: PresentationSchema,
    nonce: &[u8],
    run: CreateRun<S>,
    presentation: Presentation,
    check: VerifyRun,
    result: CredxResult<()>,
)
    requires
        schema.statements.wf(),
        has_no_range(schema),
        signatures_bear_their_ids(schema),
        creation::created(credentials, schema, nonce, run, Ok(presentation)),
        binding::binds_the_same::<S>(&schema),
        encodes_the_same::<S>(),
        is_true_to_run(&schema, presentation, nonce, run),
        verification::verified::<S>(presentation, &schema, nonce, check, result),
    ensures
        result is Ok,
{
    let all = schema.statements.listing();
    let signatures = message_types::signatures_of(all);
    let predicates = message_types::predicates_of(all);
    let proofs = &presentation.proofs;
    lemma_proofs_match(credentials, schema, nonce, run, presentation);
    lemma_checks_agree(
        &schema,
        presentation,
        nonce,
        signatures,
        run.signature_steps,
        check.signature_checks,
    );
    lemma_checks_agree(
        &schema,
        presentation,
        nonce,
        predicates,
        run.predicate_steps,
        check.predicate_checks,
    );
    if result is Err {
        assert(check.signature_checks.len() == signatures.len());
        assert(check.predicate_checks.len() == predicates.len());
        assert(agree(run.signature_steps, check.signature_checks));
        assert(agree(run.predicate_steps, check.predicate_checks));
        lemma_shown_agree(credentials, schema, nonce, run, presentation, check);
        lemma_logs_agree(credentials, schema, nonce, run, presentation, check);
        lemma_every_one_matched(&schema, proofs, nonce, signatures);
        lemma_every_one_matched(&schema, proofs, nonce, predicates);
        let s = verification::all_matched(&schema, proofs, nonce, signatures);
        let p = verification::all_matched(&schema, proofs, nonce, predicates);
        let m = check.verdicts.len() - 1;
        assert(verifiers::proof_checked::<S>(
            (s + p)[m],
            presentation.challenge,
            check.verdicts[m],
        ));
        if m < s.len() {
            assert(is_true_to(&schema, presentation, nonce, signatures[m], run.signature_steps[m]));
            assert(run.signature_steps[m] is Built);
            assert((s + p)[m] == s[m]);
        } else {
            let k = m - s.len();
            assert(is_true_to(&schema, presentation, nonce, predicates[k], run.predicate_steps[k]));
            assert(run.predicate_steps[k] is Built);
            assert((s + p)[m] == p[k]);
        }
    }
}

/// Where the suite is true to its commitments, each check binds what the commitment bound.
proof fn lemma_checks_agree<S: ProofSuite>(
    schema: &PresentationSchema,
    presentation: Presentation,
    nonce: &[u8],
    entries: Seq<(Seq<char>, Statements)>,
    steps: Seq<Step<S>>,
    checks: Seq<Check>,
)
    requires
        steps.len() == entries.len(),
        forall|k: int| 0 <= k < steps.len() ==> #[trigger] steps[k] is Built,
        forall|k: int|
            0 <= k < entries.len() ==> is_true_to(
                schema,
                presentation,
                nonce,
                #[trigger] entries[k],
                steps[k],
            ),
        forall|k: int|
            0 <= k < entries.len() ==> verification::matched(
                schema,
                &presentation.proofs,
                nonce,
                #[trigger] entries[k],
            ) is Some,
        verification::checks_made::<S>(schema, presentation, nonce, entries, checks),
    ensures
        forall|k: int|
            0 <= k < checks.len() ==> #[trigger] checks[k] is Bound && transcript::contributed(
                checks[k]->Bound_0@,
            ) == transcript::contributed(steps[k]->Built_1@),
{
    assert forall|k: int| 0 <= k < checks.len() implies #[trigger] checks[k] is Bound
        && transcript::contributed(checks[k]->Bound_0@) == transcript::contributed(
        steps[k]->Built_1@,
    ) by {
        assert(verification::matched(schema, &presentation.proofs, nonce, entries[k]) is Some);
        assert(is_true_to(schema, presentation, nonce, entries[k], steps[k]));
        assert(steps[k] is Built);
        assert(verification::statement_check::<S>(
            schema,
            presentation,
            nonce,
            entries[k],
            checks[k],
        ));
    }
}

/// Where the suite encodes the same when it is asked again, verifying shows what making the
/// presentation showed.
proof fn lemma_shown_agree<S: ProofSuite>(
    credentials: OrderedMap<Credential>,
    schema: PresentationSchema,
    nonce: &[u8],
    run: CreateRun<S>,
    presentation: Presentation,
    check: VerifyRun,
)
    requires
        creation::created(credentials, schema, nonce, run, Ok(presentation)),
        signatures_bear_their_ids(schema),
        encodes_the_same::<S>(),
        verification::disclosures_encoded::<S>(
            presentation,
            message_types::signatures_of(schema.statements.listing()),
            check.shown,
        ),
        check.shown.len() == run.shown.len(),
        forall|k: int|
            0 <= k < message_types::signatures_of(schema.statements.listing()).len()
                ==> verification::matched(
                &schema,
                &presentation.proofs,
                nonce,
                #[trigger] message_types::signatures_of(schema.statements.listing())[k],
            ) is Some,
    ensures
        check.shown == run.shown,
{
    let signatures = message_types::signatures_of(schema.statements.listing());
    message_types::lemma_parts(schema.statements.listing());
    assert forall|k: int| 0 <= k < run.shown.len() implies check.shown[k] == run.shown[k] by {
        assert(signatures[k].1 is Signature);
        assert(verification::matched(&schema, &presentation.proofs, nonce, signatures[k]) is Some);
        assert(verification::has_signature(presentation, signatures[k].0));
        let claims = run.disclosed[k];
        assert(verification::disclosed_for(presentation, signatures[k].1) == claims);
        let (x, y) = (check.shown[k], run.shown[k]);
        assert(challenge::claims_encoded::<S>(claims, x));
        assert(challenge::claims_encoded::<S>(claims, y));
        assert forall|i: int| 0 <= i < x.len() implies x[i] == y[i] by {
            assert(x[i].0 == y[i].0);
            assert(suite::encoded::<S>(claims.listing()[i].1, x[i].1));
            assert(suite::encoded::<S>(claims.listing()[i].1, y[i].1));
        }
        assert(x =~= y);
    }
    assert(check.shown =~= run.shown);
}

} // verus!
