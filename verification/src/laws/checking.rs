//! What the proof suite is asked for a presentation that is verified, and what comes of its
//! answers.
use vstd::prelude::*;
use crate::error::{CredxResult, Error};
use crate::laws::asking;
use crate::laws::challenges;
use crate::message_types;
use crate::ordered_map;
use crate::ordered_map::OrderedMap;
use crate::presentation::Presentation;
use crate::proofs::PresentationProofs;
use crate::scalar;
use crate::statement::{PresentationSchema, Statements};
use crate::suite::ProofSuite;
use crate::transcript;
use crate::transcript::Contribution;
use crate::verification;
use crate::verification::{Check, VerifyRun};
use crate::verifiers;

verus! {

/// Where every statement has a verifier, there is one for each, in order.
proof fn lemma_all_matched(
    schema: &PresentationSchema,
    proofs: &OrderedMap<PresentationProofs>,
    nonce: &[u8],
    entries: Seq<(Seq<char>, Statements)>,
)
    requires
        forall|k: int|
            0 <= k < entries.len() ==> verification::matched(
                schema,
                proofs,
                nonce,
                #[trigger] entries[k],
            ) is Some,
    ensures
        verification::all_matched(schema, proofs, nonce, entries).len() == entries.len(),
        forall|k: int|
            0 <= k < entries.len() ==> Some(
                #[trigger] verification::all_matched(schema, proofs, nonce, entries)[k],
            ) == verification::matched(schema, proofs, nonce, entries[k]),
    decreases entries.len(),
{
    if entries.len() > 0 {
        let before = entries.drop_last();
        assert forall|k: int| 0 <= k < before.len() implies verification::matched(
            schema,
            proofs,
            nonce,
            #[trigger] before[k],
        ) is Some by {
            assert(before[k] == entries[k]);
        }
        lemma_all_matched(schema, proofs, nonce, before);
        assert(entries[entries.len() - 1] == entries.last());
        let x = verification::all_matched(schema, proofs, nonce, entries);
        let y = verification::all_matched(schema, proofs, nonce, before);
        assert forall|k: int| 0 <= k < entries.len() implies Some(#[trigger] x[k])
            == verification::matched(schema, proofs, nonce, entries[k]) by {
            if k < before.len() {
                assert(x[k] == y[k]);
                assert(before[k] == entries[k]);
            }
        }
    }
}

/// The suite has been asked what the proof of a statement binds, and has given this reply. A
/// statement without a proof of its kind under its id gets no reply.
pub open spec fn replied<S: ProofSuite>(
    presentation: Presentation,
    schema: &PresentationSchema,
    nonce: &[u8],
    entry: (Seq<char>, Statements),
    reply: CredxResult<Vec<Contribution>>,
) -> bool {
    let (id, statement) = entry;
    let challenge = presentation.challenge;
    &&& presentation.proofs@.dom().contains(id)
    &&& match (statement, presentation.proofs@[id]) {
        (Statements::Signature(s), PresentationProofs::Signature(p)) => call_ensures(
            S::signature_contribution,
            (&s, &p, challenge),
            reply,
        ),
        (
            Statements::AccumulatorSetMembership(s),
            PresentationProofs::AccumulatorSetMembership(p),
        ) => call_ensures(S::membership_contribution, (&s, &p, nonce, challenge), reply),
        (Statements::Equality(s), PresentationProofs::Equality(_)) => call_ensures(
            S::equality_contribution,
            (&s, schema, &presentation.proofs, challenge),
            reply,
        ),
        (Statements::Commitment(s), PresentationProofs::Commitment(p)) => call_ensures(
            S::commitment_contribution,
            (&s, &p, challenge),
            reply,
        ),
        (
            Statements::VerifiableEncryption(s),
            PresentationProofs::VerifiableEncryption(p),
        ) => call_ensures(S::encryption_contribution, (&s, &p, challenge), reply),
        _ => false,
    }
}

/// The suite has been asked to check the proof of a statement, and has given this verdict. A
/// statement without a proof of its kind under its id gets none.
pub open spec fn judged<S: ProofSuite>(
    presentation: Presentation,
    schema: &PresentationSchema,
    nonce: &[u8],
    entry: (Seq<char>, Statements),
    verdict: CredxResult<()>,
) -> bool {
    let (id, statement) = entry;
    let challenge = presentation.challenge;
    &&& presentation.proofs@.dom().contains(id)
    &&& match (statement, presentation.proofs@[id]) {
        (Statements::Signature(s), PresentationProofs::Signature(p)) => call_ensures(
            S::verify_signature,
            (&s, &p, challenge),
            verdict,
        ),
        (
            Statements::AccumulatorSetMembership(s),
            PresentationProofs::AccumulatorSetMembership(p),
        ) => call_ensures(S::verify_membership, (&s, &p, nonce, challenge), verdict),
        (Statements::Equality(s), PresentationProofs::Equality(_)) => call_ensures(
            S::verify_equality,
            (&s, schema, &presentation.proofs, challenge),
            verdict,
        ),
        (Statements::Commitment(s), PresentationProofs::Commitment(p)) => call_ensures(
            S::verify_commitment,
            (&s, &p, challenge),
            verdict,
        ),
        (
            Statements::VerifiableEncryption(s),
            PresentationProofs::VerifiableEncryption(p),
        ) => call_ensures(S::verify_encryption, (&s, &p, challenge), verdict),
        _ => false,
    }
}

/// There is no proof of the kind of a statement under its id; there is none for a range.
pub open spec fn is_unproved(presentation: Presentation, entry: (Seq<char>, Statements)) -> bool {
    let (id, statement) = entry;
    !presentation.proofs@.dom().contains(id) || match statement {
        Statements::Signature(_) => !(presentation.proofs@[id] is Signature),
        Statements::AccumulatorSetMembership(_) => !(
        presentation.proofs@[id] is AccumulatorSetMembership),
        Statements::Equality(_) => !(presentation.proofs@[id] is Equality),
        Statements::Commitment(_) => !(presentation.proofs@[id] is Commitment),
        Statements::VerifiableEncryption(_) => !(presentation.proofs@[id] is VerifiableEncryption),
        Statements::Range(_) => true,
    }
}

/// What a check of a run says is what the suite has replied, or that there is no proof.
proof fn lemma_check<S: ProofSuite>(
    presentation: Presentation,
    schema: &PresentationSchema,
    nonce: &[u8],
    entry: (Seq<char>, Statements),
    check: Check,
)
    requires
        verification::statement_check::<S>(schema, presentation, nonce, entry, check),
    ensures
        match check {
            Check::Bound(c) => replied::<S>(presentation, schema, nonce, entry, Ok(c)),
            Check::Failed(e) => {
                ||| is_unproved(presentation, entry) && e == Error::InvalidPresentationData
                ||| replied::<S>(presentation, schema, nonce, entry, Err(e))
            },
        },
        check is Bound ==> !is_unproved(presentation, entry) && verification::matched(
            schema,
            &presentation.proofs,
            nonce,
            entry,
        ) is Some,
{
}

/// A presentation is accepted only where the suite accepts every proof: for each statement of the
/// schema there is a proof of its kind under its id, the suite has said what the proof binds, and
/// it has accepted the proof of that statement under the challenge of the presentation. There is no
/// range among the statements.
pub proof fn accepted_proofs_are_accepted_by_the_suite<S: ProofSuite>(
    presentation: Presentation,
    schema: &PresentationSchema,
    nonce: &[u8],
    run: VerifyRun,
    id: Seq<char>,
) -> (c: Vec<Contribution>)
    requires
        schema.statements.wf(),
        verification::verified::<S>(presentation, schema, nonce, run, Ok(())),
        schema.statements@.dom().contains(id),
    ensures
        presentation.proofs@.dom().contains(id),
        match (schema.statements@[id], presentation.proofs@[id]) {
            (Statements::Signature(s), PresentationProofs::Signature(p)) => {
                &&& call_ensures(S::verify_signature, (&s, &p, presentation.challenge), Ok(()))
                &&& call_ensures(
                    S::signature_contribution,
                    (&s, &p, presentation.challenge),
                    Ok(c),
                )
            },
            (
                Statements::AccumulatorSetMembership(s),
                PresentationProofs::AccumulatorSetMembership(p),
            ) => {
                &&& call_ensures(
                    S::verify_membership,
                    (&s, &p, nonce, presentation.challenge),
                    Ok(()),
                )
                &&& call_ensures(
                    S::membership_contribution,
                    (&s, &p, nonce, presentation.challenge),
                    Ok(c),
                )
            },
            (Statements::Equality(s), PresentationProofs::Equality(_)) => {
                &&& call_ensures(
                    S::verify_equality,
                    (&s, schema, &presentation.proofs, presentation.challenge),
                    Ok(()),
                )
                &&& call_ensures(
                    S::equality_contribution,
                    (&s, schema, &presentation.proofs, presentation.challenge),
                    Ok(c),
                )
            },
            (Statements::Commitment(s), PresentationProofs::Commitment(p)) => {
                &&& call_ensures(S::verify_commitment, (&s, &p, presentation.challenge), Ok(()))
                &&& call_ensures(
                    S::commitment_contribution,
                    (&s, &p, presentation.challenge),
                    Ok(c),
                )
            },
            (
                Statements::VerifiableEncryption(s),
                PresentationProofs::VerifiableEncryption(p),
            ) => {
                &&& call_ensures(S::verify_encryption, (&s, &p, presentation.challenge), Ok(()))
                &&& call_ensures(
                    S::encryption_contribution,
                    (&s, &p, presentation.challenge),
                    Ok(c),
                )
            },
            _ => false,
        },
        ({
            let signatures = message_types::signatures_of(schema.statements.listing());
            let predicates = message_types::predicates_of(schema.statements.listing());
            if schema.statements@[id] is Signature {
                run.signature_checks[ordered_map::key_index(signatures, id)]
                    == Check::Bound(c)
            } else {
                run.predicate_checks[ordered_map::key_index(predicates, id)]
                    == Check::Bound(c)
            }
        }),
{
    let k = asking::lemma_part(*schema, id);
    let all = schema.statements.listing();
    let signatures = message_types::signatures_of(all);
    let predicates = message_types::predicates_of(all);
    lemma_verdicts::<S>(presentation, schema, nonce, run, Ok(()));
    let entry = (id, schema.statements@[id]);
    if entry.1 is Signature {
        assert((signatures + predicates)[k] == entry);
        assert(judged::<S>(presentation, schema, nonce, entry, run.verdicts[k]));
        assert(run.verdicts[k] is Ok);
        assert(run.verdicts[k]->Ok_0 == ());
        let check = run.signature_checks[k];
        assert(verification::statement_check::<S>(schema, presentation, nonce, entry, check));
        assert(!(check is Failed));
        lemma_check::<S>(presentation, schema, nonce, entry, check);
        check->Bound_0
    } else {
        let m = signatures.len() + k;
        assert((signatures + predicates)[m] == entry);
        assert(judged::<S>(presentation, schema, nonce, entry, run.verdicts[m]));
        assert(run.verdicts[m] is Ok);
        assert(run.verdicts[m]->Ok_0 == ());
        let check = run.predicate_checks[k];
        assert(verification::statement_check::<S>(schema, presentation, nonce, entry, check));
        assert(!(check is Failed));
        lemma_check::<S>(presentation, schema, nonce, entry, check);
        check->Bound_0
    }
}

/// Where all checks are made, each verdict is that of the suite on the proof of a statement, one
/// after the other.
proof fn lemma_verdicts<S: ProofSuite>(
    presentation: Presentation,
    schema: &PresentationSchema,
    nonce: &[u8],
    run: VerifyRun,
    result: CredxResult<()>,
)
    requires
        verification::verified::<S>(presentation, schema, nonce, run, result),
        verification::checks_finished(
            run.signature_checks,
            message_types::signatures_of(schema.statements.listing()).len() as int,
        ),
        verification::checks_finished(
            run.predicate_checks,
            message_types::predicates_of(schema.statements.listing()).len() as int,
        ),
    ensures
        ({
            let all = message_types::signatures_of(schema.statements.listing())
                + message_types::predicates_of(schema.statements.listing());
            &&& run.verdicts.len() <= all.len()
            &&& result is Ok ==> run.verdicts.len() == all.len()
            &&& forall|k: int|
                0 <= k < run.verdicts.len() ==> judged::<S>(
                    presentation,
                    schema,
                    nonce,
                    all[k],
                    #[trigger] run.verdicts[k],
                )
            &&& forall|k: int|
                0 <= k < all.len() ==> !is_unproved(presentation, #[trigger] all[k])
        }),
{
    let signatures = message_types::signatures_of(schema.statements.listing());
    let predicates = message_types::predicates_of(schema.statements.listing());
    let all = signatures + predicates;
    let proofs = &presentation.proofs;
    assert forall|k: int| 0 <= k < signatures.len() implies verification::matched(
        schema,
        proofs,
        nonce,
        #[trigger] signatures[k],
    ) is Some && !is_unproved(presentation, signatures[k]) by {
        let check = run.signature_checks[k];
        assert(verification::statement_check::<S>(
            schema,
            presentation,
            nonce,
            signatures[k],
            check,
        ));
        assert(!(check is Failed));
        lemma_check::<S>(presentation, schema, nonce, signatures[k], check);
    }
    assert forall|k: int| 0 <= k < predicates.len() implies verification::matched(
        schema,
        proofs,
        nonce,
        #[trigger] predicates[k],
    ) is Some && !is_unproved(presentation, predicates[k]) by {
        let check = run.predicate_checks[k];
        assert(verification::statement_check::<S>(
            schema,
            presentation,
            nonce,
            predicates[k],
            check,
        ));
        assert(!(check is Failed));
        lemma_check::<S>(presentation, schema, nonce, predicates[k], check);
    }
    lemma_all_matched(schema, proofs, nonce, signatures);
    lemma_all_matched(schema, proofs, nonce, predicates);
    let x = verification::all_matched(schema, proofs, nonce, signatures);
    let y = verification::all_matched(schema, proofs, nonce, predicates);
    assert forall|k: int| 0 <= k < all.len() implies !is_unproved(
        presentation,
        #[trigger] all[k],
    ) && Some((x + y)[k]) == verification::matched(schema, proofs, nonce, all[k]) by {
        if k < signatures.len() {
            assert(all[k] == signatures[k]);
            assert((x + y)[k] == x[k]);
        } else {
            assert(all[k] == predicates[k - signatures.len()]);
            assert((x + y)[k] == y[k - signatures.len()]);
        }
    }
    assert forall|k: int| 0 <= k < run.verdicts.len() implies judged::<S>(
        presentation,
        schema,
        nonce,
        all[k],
        #[trigger] run.verdicts[k],
    ) by {
        assert(verifiers::proof_checked::<S>(
            (x + y)[k],
            presentation.challenge,
            run.verdicts[k],
        ));
        assert(Some((x + y)[k]) == verification::matched(schema, proofs, nonce, all[k]));
    }
}

/// There is a proof of the kind of a statement under its id, and the suite has said what it binds.
pub open spec fn is_bound<S: ProofSuite>(
    presentation: Presentation,
    schema: &PresentationSchema,
    nonce: &[u8],
    entry: (Seq<char>, Statements),
) -> bool {
    &&& !is_unproved(presentation, entry)
    &&& exists|c: Vec<Contribution>| #[trigger]
        replied::<S>(presentation, schema, nonce, entry, Ok(c))
}

/// A statement whose check went well is bound.
proof fn lemma_bound<S: ProofSuite>(
    presentation: Presentation,
    schema: &PresentationSchema,
    nonce: &[u8],
    entries: Seq<(Seq<char>, Statements)>,
    checks: Seq<Check>,
)
    requires
        verification::checks_made::<S>(schema, presentation, nonce, entries, checks),
    ensures
        forall|j: int|
            0 <= j < checks.len() && !(checks[j] is Failed) ==> is_bound::<S>(
                presentation,
                schema,
                nonce,
                #[trigger] entries[j],
            ),
{
    assert forall|j: int| 0 <= j < checks.len() && !(checks[j] is Failed) implies is_bound::<S>(
        presentation,
        schema,
        nonce,
        #[trigger] entries[j],
    ) by {
        let check = checks[j];
        lemma_check::<S>(presentation, schema, nonce, entries[j], check);
        assert(replied::<S>(presentation, schema, nonce, entries[j], Ok(check->Bound_0)));
    }
}

/// A presentation is refused only with a reason, the first that there is, and that reason is the
/// error. The statements are gone through in order, the signatures first: one has no proof of its
/// kind, or the suite refuses to say what its proof binds; else the challenge is not the one that
/// is drawn from all that is bound; else the suite refuses a proof.
pub proof fn refusals_have_a_reason<S: ProofSuite>(
    presentation: Presentation,
    schema: &PresentationSchema,
    nonce: &[u8],
    run: VerifyRun,
    e: Error,
)
    requires
        schema.statements.wf(),
        verification::verified::<S>(presentation, schema, nonce, run, Err(e)),
    ensures
        ({
            let all = message_types::signatures_of(schema.statements.listing())
                + message_types::predicates_of(schema.statements.listing());
            let agrees = scalar::le_value(presentation.challenge.bytes@) == scalar::le_value(
                transcript::drawn_bytes(
                    challenges::verified_entries(*schema, nonce@, run),
                    "challenge bytes"@,
                    64,
                ),
            ) % 0x73eda753299d7d483339d80809a1d80553bda402fffe5bfeffffffff00000001nat;
            let bound = forall|j: int|
                0 <= j < all.len() ==> is_bound::<S>(
                    presentation,
                    schema,
                    nonce,
                    #[trigger] all[j],
                );
            ||| exists|k: int|
                0 <= k < all.len() && ((is_unproved(presentation, #[trigger] all[k]) && e
                    == Error::InvalidPresentationData) || replied::<S>(
                    presentation,
                    schema,
                    nonce,
                    all[k],
                    Err(e),
                )) && forall|j: int|
                    0 <= j < k ==> is_bound::<S>(presentation, schema, nonce, #[trigger] all[j])
            ||| bound && !agrees && e == Error::InvalidPresentationData
            ||| bound && agrees && exists|k: int|
                0 <= k < all.len() && judged::<S>(
                    presentation,
                    schema,
                    nonce,
                    #[trigger] all[k],
                    Err(e),
                ) && forall|j: int|
                    0 <= j < k ==> judged::<S>(
                        presentation,
                        schema,
                        nonce,
                        #[trigger] all[j],
                        Ok(()),
                    )
        }),
{
    let signatures = message_types::signatures_of(schema.statements.listing());
    let predicates = message_types::predicates_of(schema.statements.listing());
    let all = signatures + predicates;
    let n = signatures.len() as int;
    lemma_bound::<S>(presentation, schema, nonce, signatures, run.signature_checks);
    lemma_bound::<S>(presentation, schema, nonce, predicates, run.predicate_checks);
    challenges::lemma_verified_entries(*schema, nonce@, run);
    if verification::checks_stopped(run.signature_checks, e) {
        let k = run.signature_checks.len() - 1;
        assert(all[k] == signatures[k]);
        lemma_check::<S>(presentation, schema, nonce, signatures[k], run.signature_checks[k]);
        assert forall|j: int| 0 <= j < k implies is_bound::<S>(
            presentation,
            schema,
            nonce,
            #[trigger] all[j],
        ) by {
            assert(all[j] == signatures[j]);
        }
    } else if verification::checks_finished(run.signature_checks, n)
        && verification::checks_stopped(run.predicate_checks, e) {
        let m = run.predicate_checks.len() - 1;
        let k = n + m;
        assert(all[k] == predicates[m]);
        lemma_check::<S>(presentation, schema, nonce, predicates[m], run.predicate_checks[m]);
        assert forall|j: int| 0 <= j < k implies is_bound::<S>(
            presentation,
            schema,
            nonce,
            #[trigger] all[j],
        ) by {
            if j < n {
                assert(all[j] == signatures[j]);
            } else {
                assert(all[j] == predicates[j - n]);
            }
        }
    } else {
        assert(verification::checks_finished(run.signature_checks, n));
        assert(verification::checks_finished(run.predicate_checks, predicates.len() as int));
        lemma_verdicts::<S>(presentation, schema, nonce, run, Err(e));
        assert forall|j: int| 0 <= j < all.len() implies is_bound::<S>(
            presentation,
            schema,
            nonce,
            #[trigger] all[j],
        ) by {
            if j < n {
                assert(all[j] == signatures[j]);
                assert(!(run.signature_checks[j] is Failed));
            } else {
                assert(all[j] == predicates[j - n]);
                assert(!(run.predicate_checks[j - n] is Failed));
            }
        }
        if run.verdicts.len() > 0 && run.verdicts.last() == Err::<(), Error>(e) {
            lemma_first_refusal::<S>(presentation, schema, nonce, run, e, all);
        }
    }
}

/// The last verdict refuses, and none before it.
proof fn lemma_first_refusal<S: ProofSuite>(
    presentation: Presentation,
    schema: &PresentationSchema,
    nonce: &[u8],
    run: VerifyRun,
    e: Error,
    all: Seq<(Seq<char>, Statements)>,
)
    requires
        0 < run.verdicts.len() <= all.len(),
        run.verdicts.last() == Err::<(), Error>(e),
        forall|k: int| 0 <= k < run.verdicts.len() - 1 ==> #[trigger] run.verdicts[k] is Ok,
        forall|k: int|
            0 <= k < run.verdicts.len() ==> judged::<S>(
                presentation,
                schema,
                nonce,
                all[k],
                #[trigger] run.verdicts[k],
            ),
    ensures
        exists|k: int|
            0 <= k < all.len() && judged::<S>(
                presentation,
                schema,
                nonce,
                #[trigger] all[k],
                Err(e),
            ) && forall|j: int|
                0 <= j < k ==> judged::<S>(
                    presentation,
                    schema,
                    nonce,
                    #[trigger] all[j],
                    Ok(()),
                ),
{
    let k = run.verdicts.len() - 1;
    assert(judged::<S>(presentation, schema, nonce, all[k], run.verdicts[k]));
    assert forall|j: int| 0 <= j < k implies judged::<S>(
        presentation,
        schema,
        nonce,
        #[trigger] all[j],
        Ok(()),
    ) by {
        assert(run.verdicts[j] is Ok);
        assert(run.verdicts[j]->Ok_0 == ());
        assert(judged::<S>(presentation, schema, nonce, all[j], run.verdicts[j]));
    }
}

} // verus!
