//! What making a presentation means: what is asked of the proof suite, and what comes of it.
use vstd::prelude::*;
use crate::challenge;
use crate::claim::{ClaimData, ClaimView, EncodingView};
use crate::credential::Credential;
use crate::error::{CredxResult, Error};
use crate::message::ProofMessage;
use crate::message_types;
use crate::ordered_map;
use crate::ordered_map::OrderedMap;
use crate::presentation::Presentation;
use crate::proofs::PresentationProofs;
use crate::scalar::Scalar;
use crate::statement::{PresentationSchema, SignatureStatement, Statements};
use crate::suite;
use crate::suite::{Committed, PresentationBuilders, ProofSuite};
use crate::transcript;
use crate::transcript::Contribution;

verus! {

/// What comes of one statement while a presentation is made.
pub enum Step<S: ProofSuite> {
    /// There is a builder for its proof, and these contributions are bound.
    Built(PresentationBuilders<S>, Vec<Contribution>),
    /// The statement is not dealt with at this stage.
    Skipped,
    /// The presentation cannot be made.
    Failed(Error),
}

/// The builders that steps have given, in order.
pub open spec fn built<S: ProofSuite>(steps: Seq<Step<S>>) -> Seq<PresentationBuilders<S>>
    decreases steps.len(),
{
    if steps.len() == 0 {
        seq![]
    } else {
        let before = built(steps.drop_last());
        match steps.last() {
            Step::Built(b, _) => before.push(b),
            _ => before,
        }
    }
}

/// What a step binds into the challenge.
pub open spec fn bound<S: ProofSuite>(step: Step<S>) -> Seq<(Seq<char>, Seq<u8>)> {
    match step {
        Step::Built(_, c) => transcript::contributed(c@),
        _ => seq![],
    }
}

/// Pieces of a log, one behind the other.
pub open spec fn joined(pieces: Seq<Seq<(Seq<char>, Seq<u8>)>>) -> Seq<(Seq<char>, Seq<u8>)>
    decreases pieces.len(),
{
    if pieces.len() == 0 {
        seq![]
    } else {
        joined(pieces.drop_last()) + pieces.last()
    }
}

/// A stage ended with an error: the last step failed, and none before it.
pub open spec fn stopped<S: ProofSuite>(steps: Seq<Step<S>>, error: Error) -> bool {
    &&& steps.len() > 0
    &&& steps.last() == Step::<S>::Failed(error)
    &&& forall|k: int| 0 <= k < steps.len() - 1 ==> !(#[trigger] steps[k] is Failed)
}

/// A stage went through all `n` statements, and no step failed.
pub open spec fn finished<S: ProofSuite>(steps: Seq<Step<S>>, n: int) -> bool {
    &&& steps.len() == n
    &&& forall|k: int| 0 <= k < steps.len() ==> !(#[trigger] steps[k] is Failed)
}

/// The step of a signature statement: what the suite answers to the signature and the messages of
/// the credential.
pub open spec fn signature_step<S: ProofSuite>(
    credentials: OrderedMap<Credential>,
    messages: OrderedMap<Vec<ProofMessage>>,
    entry: (Seq<char>, Statements),
    step: Step<S>,
) -> bool {
    let arguments = (
        &entry.1->Signature_0,
        &credentials@[entry.0].signature,
        &messages@[entry.0],
    );
    match step {
        Step::Built(PresentationBuilders::Signature(b), c) => call_ensures(
            S::commit_signature,
            arguments,
            Ok(Committed { builder: b, contributions: c }),
        ),
        Step::Failed(e) => call_ensures(S::commit_signature, arguments, Err(e)),
        _ => false,
    }
}

/// The step of any other statement. A statement about one claim must be about a claim of a
/// credential. A claim that is revealed is not committed to; of a hidden one the suite gets the
/// message and the blinder that its signature proof uses too. A range statement waits for the next
/// stage.
pub open spec fn predicate_step<S: ProofSuite>(
    credentials: OrderedMap<Credential>,
    messages: OrderedMap<Vec<ProofMessage>>,
    nonce: &[u8],
    statement: Statements,
    step: Step<S>,
) -> bool {
    match statement {
        Statements::Equality(e) => {
            let arguments = (&e, &credentials);
            match step {
                Step::Built(PresentationBuilders::Equality(b), c) => c@.len() == 0 && call_ensures(
                    S::commit_equality,
                    arguments,
                    Ok(b),
                ),
                Step::Failed(error) => call_ensures(S::commit_equality, arguments, Err(error)),
                _ => false,
            }
        },
        Statements::AccumulatorSetMembership(a) => {
            let message = messages@[a.reference_id@]@[a.claim as int];
            let arguments = (&a, &credentials@[a.reference_id@], message, nonce);
            if !credentials@.dom().contains(a.reference_id@) {
                step == Step::<S>::Failed(Error::InvalidPresentationData)
            } else if message is Revealed {
                step == Step::<S>::Failed(Error::InvalidClaimData)
            } else {
                match step {
                    Step::Built(
                        PresentationBuilders::AccumulatorSetMembership(b),
                        c,
                    ) => call_ensures(
                        S::commit_membership,
                        arguments,
                        Ok(Committed { builder: b, contributions: c }),
                    ),
                    Step::Failed(error) => call_ensures(
                        S::commit_membership,
                        arguments,
                        Err(error),
                    ),
                    _ => false,
                }
            }
        },
        Statements::Commitment(s) => {
            let message = messages@[s.reference_id@]@[s.claim as int];
            let arguments = (&s, message.message(), message.shared_blinder());
            if !credentials@.dom().contains(s.reference_id@) {
                step == Step::<S>::Failed(Error::InvalidPresentationData)
            } else if message is Revealed {
                step == Step::<S>::Failed(Error::InvalidClaimData)
            } else {
                match step {
                    Step::Built(PresentationBuilders::Commitment(b), c) => call_ensures(
                        S::commit_commitment,
                        arguments,
                        Ok(Committed { builder: b, contributions: c }),
                    ),
                    Step::Failed(error) => call_ensures(
                        S::commit_commitment,
                        arguments,
                        Err(error),
                    ),
                    _ => false,
                }
            }
        },
        Statements::VerifiableEncryption(v) => {
            let message = messages@[v.reference_id@]@[v.claim as int];
            let arguments = (&v, message.message(), message.shared_blinder());
            if !credentials@.dom().contains(v.reference_id@) {
                step == Step::<S>::Failed(Error::InvalidPresentationData)
            } else if message is Revealed {
                step == Step::<S>::Failed(Error::InvalidClaimData)
            } else {
                match step {
                    Step::Built(PresentationBuilders::VerifiableEncryption(b), c) => call_ensures(
                        S::commit_encryption,
                        arguments,
                        Ok(Committed { builder: b, contributions: c }),
                    ),
                    Step::Failed(error) => call_ensures(
                        S::commit_encryption,
                        arguments,
                        Err(error),
                    ),
                    _ => false,
                }
            }
        },
        Statements::Range(_) => step is Skipped,
        Statements::Signature(_) => step is Skipped,
    }
}

/// The step of a range statement, once all others are done, with `log` bound so far: it is
/// committed to next to the builder that `registry` has for the statement that it refers to.
pub open spec fn range_step<S: ProofSuite>(
    credentials: OrderedMap<Credential>,
    builders: Seq<PresentationBuilders<S>>,
    registry: Map<Seq<char>, int>,
    log: Seq<(Seq<char>, Seq<u8>)>,
    statement: Statements,
    step: Step<S>,
) -> bool {
    match statement {
        Statements::Range(r) => {
            let builder = builders[registry[r.reference_id@]];
            let credential = credentials@[r.signature_id@];
            if !credentials@.dom().contains(r.signature_id@) || !registry.dom().contains(
                r.reference_id@,
            ) {
                step == Step::<S>::Failed(Error::InvalidPresentationData)
            } else {
                match step {
                    Step::Built(PresentationBuilders::Range(b), c) => suite::range_committed(
                        r,
                        builder,
                        credential,
                        log,
                        Ok(Committed { builder: b, contributions: c }),
                    ),
                    Step::Failed(error) => suite::range_committed(
                        r,
                        builder,
                        credential,
                        log,
                        Err(error),
                    ),
                    _ => false,
                }
            }
        },
        _ => step is Skipped,
    }
}

/// Where the builders of the first `n` predicates stand among all builders, of which `base` come
/// from signatures.
pub open spec fn registry<S: ProofSuite>(
    predicates: Seq<(Seq<char>, Statements)>,
    steps: Seq<Step<S>>,
    base: int,
    n: int,
) -> Map<Seq<char>, int>
    decreases n,
{
    if n <= 0 {
        Map::empty()
    } else {
        let before = registry(predicates, steps, base, n - 1);
        if steps[n - 1] is Built {
            before.insert(predicates[n - 1].0, base + built(steps.take(n - 1)).len())
        } else {
            before
        }
    }
}

/// The places of builders, as numbers.
pub open spec fn positions(id_to_builder: OrderedMap<usize>) -> Map<Seq<char>, int> {
    id_to_builder@.map_values(|at: usize| at as int)
}

/// The steps are those of the signature statements, in order, as far as they go.
pub open spec fn signature_steps_taken<S: ProofSuite>(
    credentials: OrderedMap<Credential>,
    messages: OrderedMap<Vec<ProofMessage>>,
    signatures: Seq<(Seq<char>, Statements)>,
    steps: Seq<Step<S>>,
) -> bool {
    &&& steps.len() <= signatures.len()
    &&& forall|k: int|
        0 <= k < steps.len() ==> signature_step(
            credentials,
            messages,
            signatures[k],
            #[trigger] steps[k],
        )
}

/// The steps are those of the predicates, in order, as far as they go.
pub open spec fn predicate_steps_taken<S: ProofSuite>(
    credentials: OrderedMap<Credential>,
    messages: OrderedMap<Vec<ProofMessage>>,
    nonce: &[u8],
    predicates: Seq<(Seq<char>, Statements)>,
    steps: Seq<Step<S>>,
) -> bool {
    &&& steps.len() <= predicates.len()
    &&& forall|k: int|
        0 <= k < steps.len() ==> predicate_step(
            credentials,
            messages,
            nonce,
            predicates[k].1,
            #[trigger] steps[k],
        )
}

/// The steps are those of the predicates at the stage of the ranges, in order, as far as they go,
/// with `log` bound before them.
pub open spec fn range_steps_taken<S: ProofSuite>(
    credentials: OrderedMap<Credential>,
    predicates: Seq<(Seq<char>, Statements)>,
    builders: Seq<PresentationBuilders<S>>,
    registry: Map<Seq<char>, int>,
    log: Seq<(Seq<char>, Seq<u8>)>,
    steps: Seq<Step<S>>,
) -> bool {
    &&& steps.len() <= predicates.len()
    &&& forall|k: int|
        0 <= k < steps.len() ==> range_step(
            credentials,
            builders,
            registry,
            log + joined(step_pieces(steps.take(k))),
            predicates[k].1,
            #[trigger] steps[k],
        )
}

/// Which of the messages are revealed.
pub open spec fn revealed_among(messages: Seq<ProofMessage>) -> Seq<bool> {
    messages.map_values(|m: ProofMessage| m is Revealed)
}

/// The claims of a credential that are revealed, under their labels.
pub open spec fn disclosure(
    statement: SignatureStatement,
    credential: Credential,
    revealed: Seq<bool>,
) -> Map<Seq<char>, ClaimView> {
    Map::new(
        |label: Seq<char>|
            exists|i: int|
                0 <= i < credential.claims@.len() && revealed[i]
                    && #[trigger] statement.issuer.schema.label(i) == Some(label),
        |label: Seq<char>|
            credential.claims@[statement.issuer.schema.claim_indices@[label] as int]@,
    )
}

/// Disclosed claims as a map from labels.
pub open spec fn shown_map(claims: OrderedMap<ClaimData>) -> Map<Seq<char>, ClaimView> {
    claims@.map_values(|c: ClaimData| c@)
}

/// For each signature statement, as far as they go, the revealed claims are disclosed under their
/// labels, and nothing else is; and `shown` has the encodings that the suite gives of them.
pub open spec fn discloses<S: ProofSuite>(
    credentials: OrderedMap<Credential>,
    signatures: Seq<(Seq<char>, Statements)>,
    revealed: Map<Seq<char>, Seq<bool>>,
    disclosed: Seq<OrderedMap<ClaimData>>,
    shown: Seq<Seq<(Seq<char>, EncodingView)>>,
) -> bool {
    &&& disclosed.len() <= signatures.len()
    &&& shown.len() == disclosed.len()
    &&& forall|k: int|
        0 <= k < disclosed.len() ==> {
            &&& shown_map(#[trigger] disclosed[k]) == disclosure(
                signatures[k].1->Signature_0,
                credentials@[signatures[k].0],
                revealed[signatures[k].0],
            )
            &&& challenge::claims_encoded::<S>(disclosed[k], shown[k])
        }
}

/// The disclosed claims of each signature statement stand under its id, and nothing else is there.
pub open spec fn are_under_their_ids(
    signatures: Seq<(Seq<char>, Statements)>,
    disclosed: Seq<OrderedMap<ClaimData>>,
    presented: OrderedMap<OrderedMap<ClaimData>>,
) -> bool {
    &&& forall|id: Seq<char>| #[trigger]
        presented@.dom().contains(id) <==> ordered_map::has_key(signatures, id)
    &&& forall|k: int|
        0 <= k < signatures.len() ==> presented@[(#[trigger] signatures[k]).0] == disclosed[k]
}

/// What the proof suite answered while a presentation was made, with the blinders that were drawn,
/// the messages that it was asked about and the claims that were disclosed.
pub struct CreateRun<S: ProofSuite> {
    pub binding: Vec<Contribution>,
    pub draws: Seq<Scalar>,
    pub messages: OrderedMap<Vec<ProofMessage>>,
    pub disclosed: Seq<OrderedMap<ClaimData>>,
    pub shown: Seq<Seq<(Seq<char>, EncodingView)>>,
    pub signature_steps: Seq<Step<S>>,
    pub predicate_steps: Seq<Step<S>>,
    pub range_steps: Seq<Step<S>>,
    pub proofs: Seq<PresentationProofs>,
}

/// The pieces that the signature statements bind: for each its disclosed claims, then what its
/// commitment contributes.
pub open spec fn signature_pieces<S: ProofSuite>(
    signatures: Seq<(Seq<char>, Statements)>,
    shown: Seq<Seq<(Seq<char>, EncodingView)>>,
    steps: Seq<Step<S>>,
) -> Seq<Seq<(Seq<char>, Seq<u8>)>> {
    Seq::new(
        steps.len(),
        |k: int|
            challenge::disclosed_log(signatures[k].0, shown[k]) + bound(steps[k]),
    )
}

/// The pieces that steps bind.
pub open spec fn step_pieces<S: ProofSuite>(steps: Seq<Step<S>>) -> Seq<
    Seq<(Seq<char>, Seq<u8>)>,
> {
    steps.map_values(|s: Step<S>| bound(s))
}

/// What is bound before the stage of the ranges.
pub open spec fn log_before_ranges<S: ProofSuite>(
    nonce: Seq<u8>,
    signatures: Seq<(Seq<char>, Statements)>,
    run: CreateRun<S>,
) -> Seq<(Seq<char>, Seq<u8>)> {
    challenge::opening_log(nonce, run.binding@) + joined(
        signature_pieces(signatures, run.shown, run.signature_steps),
    ) + joined(step_pieces(run.predicate_steps))
}

/// All that is bound into the challenge of a presentation that is made.
pub open spec fn creation_log<S: ProofSuite>(
    nonce: Seq<u8>,
    signatures: Seq<(Seq<char>, Statements)>,
    run: CreateRun<S>,
) -> Seq<(Seq<char>, Seq<u8>)> {
    log_before_ranges(nonce, signatures, run) + joined(step_pieces(run.range_steps))
}

/// The proofs by the ids of their statements; of two with one id the later counts.
pub open spec fn collected(proofs: Seq<PresentationProofs>) -> Map<Seq<char>, PresentationProofs>
    decreases proofs.len(),
{
    if proofs.len() == 0 {
        Map::empty()
    } else {
        collected(proofs.drop_last()).insert(proofs.last().inner().id@, proofs.last())
    }
}

/// The first failure of a run, in one of its three stages.
pub open spec fn stopped_with<S: ProofSuite>(
    run: CreateRun<S>,
    signatures: int,
    predicates: int,
    error: Error,
) -> bool {
    ||| stopped(run.signature_steps, error)
    ||| finished(run.signature_steps, signatures) && stopped(run.predicate_steps, error)
    ||| finished(run.signature_steps, signatures) && finished(run.predicate_steps, predicates)
        && stopped(run.range_steps, error)
}

/// A run went through all statements, and no step failed.
pub open spec fn all_finished<S: ProofSuite>(
    run: CreateRun<S>,
    signatures: int,
    predicates: int,
) -> bool {
    &&& finished(run.signature_steps, signatures)
    &&& finished(run.predicate_steps, predicates)
    &&& finished(run.range_steps, predicates)
}

/// The challenge of a presentation is drawn from all that the run has bound, and its proofs are the
/// answers of the builders to the challenge, those of the ranges first.
pub open spec fn proved<S: ProofSuite>(
    signatures: Seq<(Seq<char>, Statements)>,
    nonce: Seq<u8>,
    run: CreateRun<S>,
    presentation: Presentation,
) -> bool {
    let builders = built(run.range_steps) + built(run.signature_steps) + built(run.predicate_steps);
    &&& presentation.challenge.value() == challenge::challenge_value(
        creation_log(nonce, signatures, run),
    )
    &&& run.proofs.len() == builders.len()
    &&& forall|j: int|
        0 <= j < builders.len() ==> suite::proof_made(
            #[trigger] builders[j],
            presentation.challenge,
            run.proofs[j],
        )
    &&& presentation.proofs@ == collected(run.proofs)
}

/// What the suite answered in `run`, and what came of it, is what was asked of it: statement by
/// statement, signatures first, then the others, then the ranges, up to the first failure.
pub open spec fn created<S: ProofSuite>(
    credentials: OrderedMap<Credential>,
    schema: PresentationSchema,
    nonce: &[u8],
    run: CreateRun<S>,
    result: CredxResult<Presentation>,
) -> bool {
    let signatures = message_types::signatures_of(schema.statements.listing());
    let predicates = message_types::predicates_of(schema.statements.listing());
    &&& call_ensures(S::bind_schema, (&schema,), run.binding)
    &&& message_types::has_message_types::<S>(
        credentials@,
        signatures,
        predicates,
        run.draws,
        message_types::lists(run.messages),
    )
    &&& discloses::<S>(
        credentials,
        signatures,
        message_types::revealed_claims(credentials@, signatures, predicates),
        run.disclosed,
        run.shown,
    )
    &&& run.disclosed.len() == run.signature_steps.len()
    &&& signature_steps_taken(credentials, run.messages, signatures, run.signature_steps)
    &&& predicate_steps_taken(credentials, run.messages, nonce, predicates, run.predicate_steps)
    &&& range_steps_taken(
        credentials,
        predicates,
        built(run.signature_steps) + built(run.predicate_steps),
        registry(
            predicates,
            run.predicate_steps,
            built(run.signature_steps).len() as int,
            predicates.len() as int,
        ),
        log_before_ranges(nonce@, signatures, run),
        run.range_steps,
    )
    &&& match result {
        Err(e) => stopped_with(run, signatures.len() as int, predicates.len() as int, e),
        Ok(p) => {
            &&& all_finished(run, signatures.len() as int, predicates.len() as int)
            &&& are_under_their_ids(signatures, run.disclosed, p.disclosed_messages)
            &&& proved(signatures, nonce@, run, p)
        },
    }
}

/// There is something to prove, there is a credential for each signature statement and no other,
/// and what the predicates speak of is there.
pub open spec fn is_answerable(
    credentials: OrderedMap<Credential>,
    schema: PresentationSchema,
) -> bool {
    let signatures = message_types::signatures_of(schema.statements.listing());
    &&& schema.statements.listing().len() > 0
    &&& forall|id: Seq<char>| #[trigger]
        credentials@.dom().contains(id) <==> ordered_map::has_key(signatures, id)
    &&& message_types::references_resolve(
        credentials@,
        message_types::predicates_of(schema.statements.listing()),
    )
}

/// Where a statement is about one claim, it is about a claim of a credential.
pub open spec fn subject_is_held(
    credentials: OrderedMap<Credential>,
    statement: Statements,
) -> bool {
    statement.subject() matches Some(s) ==> credentials@.dom().contains(s.0)
}

/// The claim that a statement is about is revealed.
pub open spec fn subject_is_revealed(
    revealed: Map<Seq<char>, Seq<bool>>,
    statement: Statements,
) -> bool {
    statement.subject() matches Some(s) && revealed[s.0][s.1 as int]
}

/// Every lookup on the way to a presentation finds what it looks for: claims have labels, and
/// several claims are only compared across signatures.
pub open spec fn lookups_succeed(
    credentials: OrderedMap<Credential>,
    schema: PresentationSchema,
) -> bool {
    let signatures = message_types::signatures_of(schema.statements.listing());
    let predicates = message_types::predicates_of(schema.statements.listing());
    &&& message_types::claims_are_labelled(credentials@, signatures)
    &&& message_types::shared_claims_are_signed(signatures, predicates)
}

/// The labels of the claims of a credential that are revealed are short enough for a transcript.
pub open spec fn disclosure_fits(
    statement: SignatureStatement,
    credential: Credential,
    revealed: Seq<bool>,
) -> bool {
    forall|i: int|
        0 <= i < credential.claims@.len() && revealed[i] ==> (
        #[trigger] statement.issuer.schema.label(i) matches Some(label) ==> challenge::text_fits(
            label,
        ))
}

/// The ids of the signature statements, and what is disclosed of their credentials, are short
/// enough for a transcript.
pub open spec fn disclosures_fit(
    credentials: OrderedMap<Credential>,
    signatures: Seq<(Seq<char>, Statements)>,
    revealed: Map<Seq<char>, Seq<bool>>,
) -> bool {
    forall|k: int|
        0 <= k < signatures.len() ==> {
            &&& challenge::text_fits((#[trigger] signatures[k]).0)
            &&& disclosure_fits(
                signatures[k].1->Signature_0,
                credentials@[signatures[k].0],
                revealed[signatures[k].0],
            )
        }
}

/// Nothing keeps an answerable schema from being answered: every lookup succeeds, and what is bound
/// fits in a transcript.
pub open spec fn is_presentable(
    credentials: OrderedMap<Credential>,
    schema: PresentationSchema,
) -> bool {
    let signatures = message_types::signatures_of(schema.statements.listing());
    let predicates = message_types::predicates_of(schema.statements.listing());
    &&& lookups_succeed(credentials, schema)
    &&& disclosures_fit(
        credentials,
        signatures,
        message_types::revealed_claims(credentials@, signatures, predicates),
    )
}

} // verus!
