//! What verifying a presentation means: what is asked of the proof suite, and what comes of it.
use vstd::prelude::*;
use crate::challenge;
use crate::claim::{ClaimData, EncodingView};
use crate::creation;
use crate::error::{CredxResult, Error};
use crate::message_types;
use crate::ordered_map::OrderedMap;
use crate::presentation::Presentation;
use crate::proofs::PresentationProofs;
use crate::scalar::Scalar;
use crate::statement::{PresentationSchema, Statements};
use crate::suite::ProofSuite;
use crate::transcript;
use crate::transcript::Contribution;
use crate::verifiers;
use crate::verifiers::ProofVerifiers;

verus! {

/// What comes of one statement while the challenge is put together again.
pub enum Check {
    /// These contributions of its proof are bound.
    Bound(Vec<Contribution>),
    /// The presentation is not accepted.
    Failed(Error),
}

/// The verifier of a statement: there is one where there is a proof under the id of the statement,
/// and the proof is of its kind. There is none for ranges.
pub open spec fn matched<'a>(
    schema: &'a PresentationSchema,
    proofs: &'a OrderedMap<PresentationProofs>,
    nonce: &'a [u8],
    entry: (Seq<char>, Statements),
) -> Option<ProofVerifiers<'a>> {
    if !proofs@.dom().contains(entry.0) {
        None
    } else {
        match (entry.1, proofs@[entry.0]) {
            (Statements::Signature(s), PresentationProofs::Signature(p)) => Some(
                ProofVerifiers::Signature(&s, &p),
            ),
            (
                Statements::AccumulatorSetMembership(s),
                PresentationProofs::AccumulatorSetMembership(p),
            ) => Some(ProofVerifiers::AccumulatorSetMembership(&s, &p, nonce)),
            (Statements::Equality(s), PresentationProofs::Equality(_)) => Some(
                ProofVerifiers::Equality(&s, schema, proofs),
            ),
            (Statements::Commitment(s), PresentationProofs::Commitment(p)) => Some(
                ProofVerifiers::Commitment(&s, &p),
            ),
            (
                Statements::VerifiableEncryption(s),
                PresentationProofs::VerifiableEncryption(p),
            ) => Some(ProofVerifiers::VerifiableEncryption(&s, &p)),
            _ => None,
        }
    }
}

/// `check` is what comes of asking the suite what a proof binds.
pub open spec fn asked<S: ProofSuite>(
    verifier: ProofVerifiers<'_>,
    challenge: Scalar,
    check: Check,
) -> bool {
    match check {
        Check::Bound(c) => verifiers::contribution_given::<S>(verifier, challenge, Ok(c)),
        Check::Failed(e) => verifiers::contribution_given::<S>(verifier, challenge, Err(e)),
    }
}

/// The check of a statement: without a proof of its kind under its id it fails.
pub open spec fn statement_check<S: ProofSuite>(
    schema: &PresentationSchema,
    presentation: Presentation,
    nonce: &[u8],
    entry: (Seq<char>, Statements),
    check: Check,
) -> bool {
    match matched(schema, &presentation.proofs, nonce, entry) {
        Some(v) => asked::<S>(v, presentation.challenge, check),
        None => check == Check::Failed(Error::InvalidPresentationData),
    }
}

/// The checks are those of the statements, in order, as far as they go.
pub open spec fn checks_made<S: ProofSuite>(
    schema: &PresentationSchema,
    presentation: Presentation,
    nonce: &[u8],
    statements: Seq<(Seq<char>, Statements)>,
    checks: Seq<Check>,
) -> bool {
    &&& checks.len() <= statements.len()
    &&& forall|k: int|
        0 <= k < checks.len() ==> statement_check::<S>(
            schema,
            presentation,
            nonce,
            statements[k],
            #[trigger] checks[k],
        )
}

/// The disclosed claims of a signature statement, under the id that the statement itself has.
pub open spec fn disclosed_for(
    presentation: Presentation,
    statement: Statements,
) -> OrderedMap<ClaimData> {
    presentation.disclosed_messages@[statement->Signature_0.id@]
}

/// For each signature statement with a proof of a signature, as far as they go, `shown` has the
/// encodings that the suite gives of its disclosed claims.
pub open spec fn disclosures_encoded<S: ProofSuite>(
    presentation: Presentation,
    signatures: Seq<(Seq<char>, Statements)>,
    shown: Seq<Seq<(Seq<char>, EncodingView)>>,
) -> bool {
    &&& shown.len() <= signatures.len()
    &&& forall|k: int|
        0 <= k < shown.len() && has_signature(presentation, signatures[k].0)
            ==> challenge::claims_encoded::<S>(
            disclosed_for(presentation, signatures[k].1),
            #[trigger] shown[k],
        )
}

/// There is a proof of a signature under an id.
pub open spec fn has_signature(presentation: Presentation, id: Seq<char>) -> bool {
    presentation.proofs@.dom().contains(id) && presentation.proofs@[id] is Signature
}

/// The last check failed, and none before it.
pub open spec fn checks_stopped(checks: Seq<Check>, error: Error) -> bool {
    &&& checks.len() > 0
    &&& checks.last() == Check::Failed(error)
    &&& forall|k: int| 0 <= k < checks.len() - 1 ==> !(#[trigger] checks[k] is Failed)
}

/// All `n` statements were checked, and no check failed.
pub open spec fn checks_finished(checks: Seq<Check>, n: int) -> bool {
    &&& checks.len() == n
    &&& forall|k: int| 0 <= k < checks.len() ==> !(#[trigger] checks[k] is Failed)
}

/// The pieces that the signature statements bind: for each its disclosed claims, then what its
/// proof contributes.
pub open spec fn signature_pieces(
    signatures: Seq<(Seq<char>, Statements)>,
    shown: Seq<Seq<(Seq<char>, EncodingView)>>,
    checks: Seq<Check>,
) -> Seq<Seq<(Seq<char>, Seq<u8>)>> {
    Seq::new(
        checks.len(),
        |k: int|
            challenge::disclosed_log(signatures[k].1->Signature_0.id@, shown[k]) + bound(checks[k]),
    )
}

/// What a check binds into the challenge.
pub open spec fn bound(check: Check) -> Seq<(Seq<char>, Seq<u8>)> {
    match check {
        Check::Bound(c) => transcript::contributed(c@),
        Check::Failed(_) => seq![],
    }
}

/// The pieces that other statements bind.
pub open spec fn predicate_pieces(checks: Seq<Check>) -> Seq<Seq<(Seq<char>, Seq<u8>)>> {
    checks.map_values(|c: Check| bound(c))
}

/// The verifiers of the statements that have one, in order.
pub open spec fn all_matched<'a>(
    schema: &'a PresentationSchema,
    proofs: &'a OrderedMap<PresentationProofs>,
    nonce: &'a [u8],
    statements: Seq<(Seq<char>, Statements)>,
) -> Seq<ProofVerifiers<'a>>
    decreases statements.len(),
{
    if statements.len() == 0 {
        seq![]
    } else {
        let before = all_matched(schema, proofs, nonce, statements.drop_last());
        match matched(schema, proofs, nonce, statements.last()) {
            Some(v) => before.push(v),
            None => before,
        }
    }
}

/// What the proof suite answered while a presentation was verified.
pub struct VerifyRun {
    pub binding: Vec<Contribution>,
    pub shown: Seq<Seq<(Seq<char>, EncodingView)>>,
    pub signature_checks: Seq<Check>,
    pub predicate_checks: Seq<Check>,
    pub verdicts: Seq<CredxResult<()>>,
}

/// All that is bound into the challenge of a presentation that is verified.
pub open spec fn verification_log(
    nonce: Seq<u8>,
    signatures: Seq<(Seq<char>, Statements)>,
    run: VerifyRun,
) -> Seq<(Seq<char>, Seq<u8>)> {
    challenge::opening_log(nonce, run.binding@) + creation::joined(
        signature_pieces(signatures, run.shown, run.signature_checks),
    ) + creation::joined(predicate_pieces(run.predicate_checks))
}

/// The verdicts are what the suite says of the proofs, in order, as far as they go.
pub open spec fn verdicts_given<S: ProofSuite>(
    verifiers: Seq<ProofVerifiers<'_>>,
    challenge: Scalar,
    verdicts: Seq<CredxResult<()>>,
) -> bool {
    &&& verdicts.len() <= verifiers.len()
    &&& forall|k: int|
        0 <= k < verdicts.len() ==> verifiers::proof_checked::<S>(
            verifiers[k],
            challenge,
            #[trigger] verdicts[k],
        )
    &&& forall|k: int| 0 <= k < verdicts.len() - 1 ==> #[trigger] verdicts[k] is Ok
}

/// What the suite answered in `run`, and what came of it, is what was asked of it: first what each
/// proof binds, then, where the challenge is drawn again from all of it, what is to be said of each
/// proof, up to the first failure.
pub open spec fn verified<S: ProofSuite>(
    presentation: Presentation,
    schema: &PresentationSchema,
    nonce: &[u8],
    run: VerifyRun,
    result: CredxResult<()>,
) -> bool {
    let signatures = message_types::signatures_of(schema.statements.listing());
    let predicates = message_types::predicates_of(schema.statements.listing());
    let all = all_matched(schema, &presentation.proofs, nonce, signatures) + all_matched(
        schema,
        &presentation.proofs,
        nonce,
        predicates,
    );
    let checked = checks_finished(run.signature_checks, signatures.len() as int)
        && checks_finished(run.predicate_checks, predicates.len() as int);
    let agrees = presentation.challenge.value() == challenge::challenge_value(
        verification_log(nonce@, signatures, run),
    );
    &&& call_ensures(S::bind_schema, (schema,), run.binding)
    &&& checks_made::<S>(schema, presentation, nonce, signatures, run.signature_checks)
    &&& disclosures_encoded::<S>(presentation, signatures, run.shown)
    &&& run.shown.len() == run.signature_checks.len()
    &&& checks_made::<S>(schema, presentation, nonce, predicates, run.predicate_checks)
    &&& verdicts_given::<S>(all, presentation.challenge, run.verdicts)
    &&& match result {
        Err(e) => {
            ||| checks_stopped(run.signature_checks, e)
            ||| checks_finished(run.signature_checks, signatures.len() as int) && checks_stopped(
                run.predicate_checks,
                e,
            )
            ||| checked && !agrees && e == Error::InvalidPresentationData
            ||| checked && agrees && run.verdicts.len() > 0 && run.verdicts.last() == Err::<
                (),
                Error,
            >(e)
        },
        Ok(_) => {
            &&& checked
            &&& agrees
            &&& run.verdicts.len() == all.len()
            &&& forall|k: int| 0 <= k < all.len() ==> #[trigger] run.verdicts[k] is Ok
        },
    }
}

/// The disclosed claims of a signature statement are there, and what is bound of them besides their
/// encodings fits in a transcript.
pub open spec fn disclosure_is_there(presentation: Presentation, statement: Statements) -> bool {
    let id = statement->Signature_0.id@;
    &&& presentation.disclosed_messages@.dom().contains(id)
    &&& challenge::text_fits(id)
    &&& challenge::labels_fit(presentation.disclosed_messages@[id])
}

/// The disclosed claims of each signature statement are there. What comes after a signature
/// statement without a proof of a signature is not looked up.
pub open spec fn disclosures_are_there(
    presentation: Presentation,
    signatures: Seq<(Seq<char>, Statements)>,
) -> bool {
    forall|k: int|
        0 <= k < signatures.len() && (forall|j: int|
            0 <= j <= k ==> has_signature(presentation, (#[trigger] signatures[j]).0))
            ==> disclosure_is_there(presentation, (#[trigger] signatures[k]).1)
}

} // verus!
