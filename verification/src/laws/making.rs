//! When a presentation is made.
use vstd::prelude::*;
use merlin::Transcript;
use crate::creation;
use crate::creation::{CreateRun, Step};
use crate::credential::Credential;
use crate::error::{CredxResult, Error};
use crate::laws::presentations;
use crate::laws::statements;
use crate::message::ProofMessage;
use crate::message_types;
use crate::ordered_map;
use crate::ordered_map::OrderedMap;
use crate::presentation::Presentation;
use crate::scalar::Scalar;
use crate::statement::{
    AccumulatorSetMembershipStatement, CommitmentStatement, EqualityStatement, PresentationSchema,
    RangeStatement, SignatureStatement, Statements, VerifiableEncryptionStatement,
};
use crate::suite::{Committed, ProofSuite};

verus! {

/// The suite commits to every statement that it is asked to commit to.
pub open spec fn never_refuses<S: ProofSuite>() -> bool {
    &&& forall|s: SignatureStatement, signature: Vec<u8>, messages: Vec<ProofMessage>, e: Error|
        !(#[trigger] call_ensures(
            S::commit_signature,
            (&s, &signature, &messages),
            Err::<Committed<S::SignatureBuilder>, Error>(e),
        ))
    &&& forall|s: EqualityStatement, credentials: OrderedMap<Credential>, e: Error|
        !(#[trigger] call_ensures(
            S::commit_equality,
            (&s, &credentials),
            Err::<S::EqualityBuilder, Error>(e),
        ))
    &&& forall|
        s: AccumulatorSetMembershipStatement,
        credential: Credential,
        message: ProofMessage,
        nonce: &[u8],
        e: Error,
    |
        !(#[trigger] call_ensures(
            S::commit_membership,
            (&s, &credential, message, nonce),
            Err::<Committed<S::AccumulatorSetMembershipBuilder>, Error>(e),
        ))
    &&& forall|s: CommitmentStatement, message: Scalar, blinder: Scalar, e: Error|
        !(#[trigger] call_ensures(
            S::commit_commitment,
            (&s, message, blinder),
            Err::<Committed<S::CommitmentBuilder>, Error>(e),
        ))
    &&& forall|s: VerifiableEncryptionStatement, message: Scalar, blinder: Scalar, e: Error|
        !(#[trigger] call_ensures(
            S::commit_encryption,
            (&s, message, blinder),
            Err::<Committed<S::VerifiableEncryptionBuilder>, Error>(e),
        ))
    &&& forall|
        s: RangeStatement,
        commitment: S::CommitmentBuilder,
        value: isize,
        transcript: Transcript,
        e: Error,
    |
        !(#[trigger] call_ensures(
            S::commit_range,
            (&s, &commitment, value, &transcript),
            Err::<Committed<S::RangeBuilder>, Error>(e),
        ))
}

/// A range statement is about a number of a credential that is held, and refers to a commitment.
pub open spec fn range_is_founded(
    credentials: OrderedMap<Credential>,
    predicates: Seq<(Seq<char>, Statements)>,
    range: RangeStatement,
) -> bool {
    let claims = credentials@[range.signature_id@].claims@;
    &&& credentials@.dom().contains(range.signature_id@)
    &&& range.claim < claims.len()
    &&& claims[range.claim as int] is Number
    &&& exists|j: int|
        0 <= j < predicates.len() && (#[trigger] predicates[j]).0 == range.reference_id@
            && predicates[j].1 is Commitment
}

/// A presentation is made wherever the schema is answerable, what is to be proved about one claim
/// is about a claim of a credential that is not revealed, every range is about a committed number,
/// and the suite refuses nothing.
pub proof fn what_is_not_refused_is_presented<S: ProofSuite>(
    credentials: OrderedMap<Credential>,
    schema: PresentationSchema,
    nonce: &[u8],
    run: CreateRun<S>,
    result: CredxResult<Presentation>,
)
    requires
        schema.statements.wf(),
        creation::is_answerable(credentials, schema),
        creation::created(credentials, schema, nonce, run, result),
        never_refuses::<S>(),
        forall|k: int|
            0 <= k < message_types::predicates_of(schema.statements.listing()).len()
                ==> creation::subject_is_held(
                credentials,
                (#[trigger] message_types::predicates_of(schema.statements.listing())[k]).1,
            ),
        forall|k: int|
            0 <= k < message_types::predicates_of(schema.statements.listing()).len()
                ==> !creation::subject_is_revealed(
                message_types::revealed_claims(
                    credentials@,
                    message_types::signatures_of(schema.statements.listing()),
                    message_types::predicates_of(schema.statements.listing()),
                ),
                (#[trigger] message_types::predicates_of(schema.statements.listing())[k]).1,
            ),
        forall|k: int|
            0 <= k < message_types::predicates_of(schema.statements.listing()).len() && (
            #[trigger] message_types::predicates_of(schema.statements.listing())[k]).1 is Range
                ==> range_is_founded(
                credentials,
                message_types::predicates_of(schema.statements.listing()),
                message_types::predicates_of(schema.statements.listing())[k].1->Range_0,
            ),
    ensures
        result is Ok,
{
    let signatures = message_types::signatures_of(schema.statements.listing());
    let predicates = message_types::predicates_of(schema.statements.listing());
    if let Err(e) = result {
        if creation::stopped(run.signature_steps, e) {
            let k = run.signature_steps.len() - 1;
            assert(creation::signature_step(
                credentials,
                run.messages,
                signatures[k],
                run.signature_steps[k],
            ));
        } else if creation::stopped(run.predicate_steps, e) {
            let k = run.predicate_steps.len() - 1;
            lemma_predicate_is_built(credentials, schema, nonce, run, result, k);
        } else {
            let k = run.range_steps.len() - 1;
            lemma_range_is_built(credentials, schema, nonce, run, result, k);
        }
    }
}

/// The step of a statement that is not about a signature does not fail.
proof fn lemma_predicate_is_built<S: ProofSuite>(
    credentials: OrderedMap<Credential>,
    schema: PresentationSchema,
    nonce: &[u8],
    run: CreateRun<S>,
    result: CredxResult<Presentation>,
    k: int,
)
    requires
        creation::is_answerable(credentials, schema),
        creation::created(credentials, schema, nonce, run, result),
        never_refuses::<S>(),
        forall|k: int|
            0 <= k < message_types::predicates_of(schema.statements.listing()).len()
                ==> creation::subject_is_held(
                credentials,
                (#[trigger] message_types::predicates_of(schema.statements.listing())[k]).1,
            ),
        forall|k: int|
            0 <= k < message_types::predicates_of(schema.statements.listing()).len()
                ==> !creation::subject_is_revealed(
                message_types::revealed_claims(
                    credentials@,
                    message_types::signatures_of(schema.statements.listing()),
                    message_types::predicates_of(schema.statements.listing()),
                ),
                (#[trigger] message_types::predicates_of(schema.statements.listing())[k]).1,
            ),
        0 <= k < run.predicate_steps.len(),
    ensures
        !(run.predicate_steps[k] is Failed),
{
    let signatures = message_types::signatures_of(schema.statements.listing());
    let predicates = message_types::predicates_of(schema.statements.listing());
    let table = message_types::lists(run.messages);
    message_types::lemma_message_types::<S>(
        credentials@,
        signatures,
        predicates,
        run.draws,
        table,
    );
    assert(creation::predicate_step(
        credentials,
        run.messages,
        nonce,
        predicates[k].1,
        run.predicate_steps[k],
    ));
    if let Some(subject) = predicates[k].1.subject() {
        assert(credentials@.dom().contains(subject.0));
        assert(predicates[k].1.references()[0] == subject);
        assert(message_types::reference_resolves(
            credentials@,
            predicates,
            predicates[k].1.references()[0],
        ));
        assert(table.dom().contains(subject.0));
        assert(table[subject.0][subject.1 as int] == run.messages@[subject.0]@[subject.1 as int]);
    }
}

/// The step of a range statement about a committed number does not fail.
proof fn lemma_range_is_built<S: ProofSuite>(
    credentials: OrderedMap<Credential>,
    schema: PresentationSchema,
    nonce: &[u8],
    run: CreateRun<S>,
    result: CredxResult<Presentation>,
    k: int,
)
    requires
        schema.statements.wf(),
        creation::created(credentials, schema, nonce, run, result),
        never_refuses::<S>(),
        creation::finished(
            run.predicate_steps,
            message_types::predicates_of(schema.statements.listing()).len() as int,
        ),
        forall|k: int|
            0 <= k < message_types::predicates_of(schema.statements.listing()).len() && (
            #[trigger] message_types::predicates_of(schema.statements.listing())[k]).1 is Range
                ==> range_is_founded(
                credentials,
                message_types::predicates_of(schema.statements.listing()),
                message_types::predicates_of(schema.statements.listing())[k].1->Range_0,
            ),
        0 <= k < run.range_steps.len(),
    ensures
        !(run.range_steps[k] is Failed),
{
    let signatures = message_types::signatures_of(schema.statements.listing());
    let predicates = message_types::predicates_of(schema.statements.listing());
    let s = creation::built(run.signature_steps);
    let p = creation::built(run.predicate_steps);
    let n = predicates.len() as int;
    let registry = creation::registry(predicates, run.predicate_steps, s.len() as int, n);
    statements::lemma_members(schema.statements.listing());
    assert(creation::range_step(
        credentials,
        s + p,
        registry,
        creation::log_before_ranges(nonce@, signatures, run) + creation::joined(
            creation::step_pieces(run.range_steps.take(k)),
        ),
        predicates[k].1,
        run.range_steps[k],
    ));
    if let Statements::Range(range) = predicates[k].1 {
        assert(range_is_founded(credentials, predicates, range));
        let j = choose|j: int|
            0 <= j < predicates.len() && (#[trigger] predicates[j]).0 == range.reference_id@
                && predicates[j].1 is Commitment;
        assert(creation::predicate_step(
            credentials,
            run.messages,
            nonce,
            predicates[j].1,
            run.predicate_steps[j],
        ));
        assert(!(run.predicate_steps[j] is Failed));
        lemma_is_registered(predicates, run.predicate_steps, s.len() as int, n, j);
        let at = presentations::lemma_built_to(run.predicate_steps, j);
        assert((s + p)[s.len() + at] == p[at]);
    }
}

/// The builder of a statement is registered under its id.
pub(crate) proof fn lemma_is_registered<S: ProofSuite>(
    predicates: Seq<(Seq<char>, Statements)>,
    steps: Seq<Step<S>>,
    base: int,
    n: int,
    j: int,
)
    requires
        ordered_map::ascending(predicates),
        0 <= j < n <= predicates.len(),
        steps[j] is Built,
    ensures
        creation::registry(predicates, steps, base, n).dom().contains(predicates[j].0),
        creation::registry(predicates, steps, base, n)[predicates[j].0] == base + creation::built(
            steps.take(j),
        ).len(),
    decreases n,
{
    if j < n - 1 {
        lemma_is_registered(predicates, steps, base, n - 1, j);
        assert(ordered_map::text_before(predicates[j].0, predicates[n - 1].0));
        ordered_map::lemma_text_order(predicates[j].0, predicates[n - 1].0);
    }
}

} // verus!
