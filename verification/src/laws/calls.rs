//! What the functions of the library answer, in terms of what they are given.
use vstd::prelude::*;
use vstd::utf8::encode_utf8;
use merlin::Transcript;
use crate::challenge;
use crate::claim::{ClaimData, ClaimEncoding, NumberClaim};
use crate::creation;
use crate::creation::CreateRun;
use crate::credential::Credential;
use crate::error::{CredxResult, Error};
use crate::laws::asking;
use crate::laws::checking;
use crate::laws::links;
use crate::laws::presentations;
use crate::laws::statements;
use crate::linking;
use crate::message::{HiddenMessage, ProofMessage};
use crate::message_types;
use crate::ordered_map;
use crate::ordered_map::OrderedMap;
use crate::presentation::Presentation;
use crate::proofs::PresentationProofs;
use crate::scalar::{Draws, Scalar};
use crate::statement;
use crate::statement::{PresentationSchema, RangeStatement, SignatureStatement, Statements};
use crate::suite;
use crate::suite::{Committed, PresentationBuilder, PresentationBuilders, ProofSuite};
use crate::transcript;
use crate::transcript::Contribution;
use crate::verification;
use crate::verification::VerifyRun;
use crate::verifiers::ProofVerifiers;

verus! {

/// A presentation that `verify` accepts is one whose every proof the suite accepts: for each
/// statement of the schema there is a proof of its kind under its id, and the suite accepts it for
/// that statement under the challenge of the presentation.
pub proof fn verify_accepts_what_the_suite_accepts<S: ProofSuite>(
    presentation: Presentation,
    schema: PresentationSchema,
    nonce: &[u8],
    id: Seq<char>,
)
    requires
        schema.statements.wf(),
        call_ensures(Presentation::verify::<S>, (&presentation, &schema, nonce), Ok(())),
        schema.statements@.dom().contains(id),
    ensures
        presentation.proofs@.dom().contains(id),
        match (schema.statements@[id], presentation.proofs@[id]) {
            (Statements::Signature(s), PresentationProofs::Signature(p)) => call_ensures(
                S::verify_signature,
                (&s, &p, presentation.challenge),
                Ok(()),
            ),
            (
                Statements::AccumulatorSetMembership(s),
                PresentationProofs::AccumulatorSetMembership(p),
            ) => call_ensures(
                S::verify_membership,
                (&s, &p, nonce, presentation.challenge),
                Ok(()),
            ),
            (Statements::Equality(s), PresentationProofs::Equality(_)) => call_ensures(
                S::verify_equality,
                (&s, &schema, &presentation.proofs, presentation.challenge),
                Ok(()),
            ),
            (Statements::Commitment(s), PresentationProofs::Commitment(p)) => call_ensures(
                S::verify_commitment,
                (&s, &p, presentation.challenge),
                Ok(()),
            ),
            (
                Statements::VerifiableEncryption(s),
                PresentationProofs::VerifiableEncryption(p),
            ) => call_ensures(S::verify_encryption, (&s, &p, presentation.challenge), Ok(())),
            _ => false,
        },
{
    let run = choose|run: VerifyRun| #[trigger]
        verification::verified::<S>(presentation, &schema, nonce, run, Ok(()));
    let c = checking::accepted_proofs_are_accepted_by_the_suite::<S>(
        presentation,
        &schema,
        nonce,
        run,
        id,
    );
}

/// Whatever `verify` answers, a run leads to it; so does one to whatever `verify_untrusted`
/// answers, which is nothing exactly where the nonce is too long or the disclosed claims are not
/// there.
pub proof fn runs_lead_to_what_verify_answers<S: ProofSuite>(
    presentation: Presentation,
    schema: PresentationSchema,
    nonce: &[u8],
    answer: CredxResult<()>,
    guarded: Option<CredxResult<()>>,
)
    requires
        call_ensures(Presentation::verify::<S>, (&presentation, &schema, nonce), answer),
        call_ensures(Presentation::verify_untrusted::<S>, (&presentation, &schema, nonce), guarded),
    ensures
        exists|run: VerifyRun| #[trigger]
            verification::verified::<S>(presentation, &schema, nonce, run, answer),
        guarded matches Some(r) ==> exists|run: VerifyRun| #[trigger]
            verification::verified::<S>(presentation, &schema, nonce, run, r),
        guarded is Some <==> nonce@.len() <= u32::MAX && verification::disclosures_are_there(
            presentation,
            message_types::signatures_of(schema.statements.listing()),
        ),
{
}

/// Whatever `create` answers for an answerable schema, a run leads to it, and for another schema
/// the answer is an error. The same holds of what `create_untrusted` answers, which is nothing
/// exactly where the nonce is too long or an answerable schema is not presentable.
pub proof fn runs_lead_to_what_create_answers<S: ProofSuite>(
    credentials: OrderedMap<Credential>,
    schema: PresentationSchema,
    nonce: &[u8],
    answer: CredxResult<Presentation>,
    guarded: Option<CredxResult<Presentation>>,
)
    requires
        call_ensures(Presentation::create::<S>, (&credentials, &schema, nonce), answer),
        call_ensures(Presentation::create_untrusted::<S>, (&credentials, &schema, nonce), guarded),
    ensures
        if creation::is_answerable(credentials, schema) {
            exists|run: CreateRun<S>| #[trigger]
                creation::created(credentials, schema, nonce, run, answer)
        } else {
            answer == Err::<Presentation, Error>(Error::InvalidPresentationData)
        },
        guarded matches Some(r) ==> if creation::is_answerable(credentials, schema) {
            exists|run: CreateRun<S>| #[trigger]
                creation::created(credentials, schema, nonce, run, r)
        } else {
            r == Err::<Presentation, Error>(Error::InvalidPresentationData)
        },
        guarded is Some <==> nonce@.len() <= u32::MAX && (creation::is_answerable(
            credentials,
            schema,
        ) ==> creation::is_presentable(credentials, schema)),
{
}

/// The run that leads to a presentation that `create` gives.
proof fn lemma_run<S: ProofSuite>(
    credentials: OrderedMap<Credential>,
    schema: PresentationSchema,
    nonce: &[u8],
    presentation: Presentation,
) -> (run: CreateRun<S>)
    requires
        call_ensures(Presentation::create::<S>, (&credentials, &schema, nonce), Ok(presentation)),
    ensures
        creation::is_answerable(credentials, schema),
        creation::created(credentials, schema, nonce, run, Ok(presentation)),
{
    choose|run: CreateRun<S>| #[trigger]
        creation::created(credentials, schema, nonce, run, Ok(presentation))
}

/// A proof stands in a presentation under the id that it bears, unless another proof that bears the
/// same id is there.
pub open spec fn is_presented(presentation: Presentation, one: PresentationProofs) -> bool {
    exists|id: Seq<char>| #[trigger]
        asking::bears(one, id) && presentation.proofs@.dom().contains(id) && asking::bears(
            presentation.proofs@[id],
            id,
        )
}

/// A proof of a run is presented.
proof fn lemma_presented<S: ProofSuite>(
    credentials: OrderedMap<Credential>,
    schema: PresentationSchema,
    nonce: &[u8],
    run: CreateRun<S>,
    presentation: Presentation,
    j: int,
)
    requires
        creation::created(credentials, schema, nonce, run, Ok(presentation)),
        0 <= j < run.proofs.len(),
    ensures
        is_presented(presentation, run.proofs[j]),
{
    let id = run.proofs[j].inner().id@;
    assert(asking::bears(run.proofs[j], id));
    asking::proofs_are_collected_under_their_ids(credentials, schema, nonce, run, presentation, id);
    presentations::proofs_stand_under_their_ids(
        credentials,
        schema,
        nonce,
        run,
        presentation,
        id,
    );
}

/// Where `create` gives a presentation, the possession of each credential is proved with its own
/// signature and with one message for each of its claims.
pub proof fn create_proves_the_signatures_of_credentials<S: ProofSuite>(
    credentials: OrderedMap<Credential>,
    schema: PresentationSchema,
    nonce: &[u8],
    presentation: Presentation,
    id: Seq<char>,
)
    requires
        schema.statements.wf(),
        call_ensures(Presentation::create::<S>, (&credentials, &schema, nonce), Ok(presentation)),
        schema.statements@.dom().contains(id),
        schema.statements@[id] is Signature,
    ensures
        credentials@.dom().contains(id),
        exists|
            messages: Vec<ProofMessage>,
            builder: S::SignatureBuilder,
            contributions: Vec<Contribution>,
            one: PresentationProofs,
        |
            #![trigger call_ensures(
                S::commit_signature,
                (
                    &schema.statements@[id]->Signature_0,
                    &credentials@[id].signature,
                    &messages,
                ),
                Ok((Committed { builder, contributions })),
            ), call_ensures(
                <S::SignatureBuilder as PresentationBuilder>::gen_proof,
                (builder, presentation.challenge),
                one,
            )]
            call_ensures(
                S::commit_signature,
                (
                    &schema.statements@[id]->Signature_0,
                    &credentials@[id].signature,
                    &messages,
                ),
                Ok((Committed { builder, contributions })),
            ) && call_ensures(
                <S::SignatureBuilder as PresentationBuilder>::gen_proof,
                (builder, presentation.challenge),
                one,
            ) && is_presented(presentation, one),
{
    let run = lemma_run::<S>(credentials, schema, nonce, presentation);
    let (builder, contributions, j) = asking::signatures_are_proved_with_their_credentials(
        credentials,
        schema,
        nonce,
        run,
        presentation,
        id,
    );
    asking::lemma_held(credentials, schema, id);
    lemma_presented(credentials, schema, nonce, run, presentation, j);
}

/// Where `create` gives a presentation, each membership is proved of the credential that its
/// statement refers to.
pub proof fn create_proves_memberships_of_credentials<S: ProofSuite>(
    credentials: OrderedMap<Credential>,
    schema: PresentationSchema,
    nonce: &[u8],
    presentation: Presentation,
    id: Seq<char>,
)
    requires
        schema.statements.wf(),
        call_ensures(Presentation::create::<S>, (&credentials, &schema, nonce), Ok(presentation)),
        schema.statements@.dom().contains(id),
        schema.statements@[id] is AccumulatorSetMembership,
    ensures
        ({
            let a = schema.statements@[id]->AccumulatorSetMembership_0;
            &&& credentials@.dom().contains(a.reference_id@)
            &&& exists|
                message: Scalar,
                blinder: Scalar,
                builder: S::AccumulatorSetMembershipBuilder,
                contributions: Vec<Contribution>,
                one: PresentationProofs,
            |
                #![trigger call_ensures(
                    S::commit_membership,
                    (
                        &a,
                        &credentials@[a.reference_id@],
                        ProofMessage::Hidden(HiddenMessage::ExternalBlinding(message, blinder)),
                        nonce,
                    ),
                    Ok((Committed { builder, contributions })),
                ), call_ensures(
                    <S::AccumulatorSetMembershipBuilder as PresentationBuilder>::gen_proof,
                    (builder, presentation.challenge),
                    one,
                )]
                call_ensures(
                    S::commit_membership,
                    (
                        &a,
                        &credentials@[a.reference_id@],
                        ProofMessage::Hidden(HiddenMessage::ExternalBlinding(message, blinder)),
                        nonce,
                    ),
                    Ok((Committed { builder, contributions })),
                ) && call_ensures(
                    <S::AccumulatorSetMembershipBuilder as PresentationBuilder>::gen_proof,
                    (builder, presentation.challenge),
                    one,
                ) && is_presented(presentation, one)
        }),
{
    let run = lemma_run::<S>(credentials, schema, nonce, presentation);
    let (builder, contributions, j) = asking::memberships_are_proved_of_the_claims_they_name(
        credentials,
        schema,
        nonce,
        run,
        presentation,
        id,
    );
    let a = schema.statements@[id]->AccumulatorSetMembership_0;
    let message = run.messages@[a.reference_id@]@[a.claim as int];
    assert(message == ProofMessage::Hidden(
        HiddenMessage::ExternalBlinding(
            message->Hidden_0->ExternalBlinding_0,
            message->Hidden_0->ExternalBlinding_1,
        ),
    ));
    lemma_presented(credentials, schema, nonce, run, presentation, j);
}

/// Where `create` gives a presentation, each range is proved of exactly the number that the claim
/// holds, next to a commitment to the statement that it refers to.
pub proof fn create_proves_ranges_of_numbers<S: ProofSuite>(
    credentials: OrderedMap<Credential>,
    schema: PresentationSchema,
    nonce: &[u8],
    presentation: Presentation,
    id: Seq<char>,
)
    requires
        schema.statements.wf(),
        call_ensures(Presentation::create::<S>, (&credentials, &schema, nonce), Ok(presentation)),
        schema.statements@.dom().contains(id),
        schema.statements@[id] is Range,
    ensures
        ({
            let range = schema.statements@[id]->Range_0;
            let claims = credentials@[range.signature_id@].claims@;
            &&& credentials@.dom().contains(range.signature_id@)
            &&& range.claim < claims.len()
            &&& schema.statements@.dom().contains(range.reference_id@)
            &&& schema.statements@[range.reference_id@] is Commitment
            &&& exists|
                value: isize,
                commitment: S::CommitmentBuilder,
                transcript: Transcript,
                builder: S::RangeBuilder,
                contributions: Vec<Contribution>,
                one: PresentationProofs,
            |
                #![trigger call_ensures(
                    S::commit_range,
                    (&range, &commitment, value, &transcript),
                    Ok((Committed { builder, contributions })),
                ), call_ensures(
                    <S::RangeBuilder as PresentationBuilder>::gen_proof,
                    (builder, presentation.challenge),
                    one,
                )]
                claims[range.claim as int] == ClaimData::Number((NumberClaim { value }))
                    && call_ensures(
                    S::commit_range,
                    (&range, &commitment, value, &transcript),
                    Ok((Committed { builder, contributions })),
                ) && call_ensures(
                    <S::RangeBuilder as PresentationBuilder>::gen_proof,
                    (builder, presentation.challenge),
                    one,
                ) && is_presented(presentation, one)
        }),
{
    let run = lemma_run::<S>(credentials, schema, nonce, presentation);
    let (value, transcript, commitment, builder, contributions, j) =
        asking::ranges_are_proved_of_the_numbers_they_name(
        credentials,
        schema,
        nonce,
        run,
        presentation,
        id,
    );
    lemma_presented(credentials, schema, nonce, run, presentation, j);
}

/// Where `create` gives a presentation, what is committed to and what is encrypted is a claim that
/// its statement names; where nothing compares that claim, it is the scalar of its encoding.
pub proof fn create_commits_to_and_encrypts_claims<S: ProofSuite>(
    credentials: OrderedMap<Credential>,
    schema: PresentationSchema,
    nonce: &[u8],
    presentation: Presentation,
    id: Seq<char>,
)
    requires
        schema.statements.wf(),
        call_ensures(Presentation::create::<S>, (&credentials, &schema, nonce), Ok(presentation)),
        schema.statements@.dom().contains(id),
    ensures
        match schema.statements@[id] {
            Statements::Commitment(c) => exists|
                message: Scalar,
                blinder: Scalar,
                builder: S::CommitmentBuilder,
                contributions: Vec<Contribution>,
                one: PresentationProofs,
            |
                #![trigger call_ensures(
                    S::commit_commitment,
                    (&c, message, blinder),
                    Ok((Committed { builder, contributions })),
                ), call_ensures(
                    <S::CommitmentBuilder as PresentationBuilder>::gen_proof,
                    (builder, presentation.challenge),
                    one,
                )]
                call_ensures(
                    S::commit_commitment,
                    (&c, message, blinder),
                    Ok((Committed { builder, contributions })),
                ) && call_ensures(
                    <S::CommitmentBuilder as PresentationBuilder>::gen_proof,
                    (builder, presentation.challenge),
                    one,
                ) && is_presented(presentation, one) && (asking::stands_alone(
                    schema,
                    c.reference_id@,
                    c.claim as int,
                ) ==> exists|e: ClaimEncoding| #[trigger]
                    call_ensures(
                        S::encode_claim,
                        (&credentials@[c.reference_id@].claims@[c.claim as int],),
                        e,
                    ) && e@.scalar == message),
            Statements::VerifiableEncryption(v) => exists|
                message: Scalar,
                blinder: Scalar,
                builder: S::VerifiableEncryptionBuilder,
                contributions: Vec<Contribution>,
                one: PresentationProofs,
            |
                #![trigger call_ensures(
                    S::commit_encryption,
                    (&v, message, blinder),
                    Ok((Committed { builder, contributions })),
                ), call_ensures(
                    <S::VerifiableEncryptionBuilder as PresentationBuilder>::gen_proof,
                    (builder, presentation.challenge),
                    one,
                )]
                call_ensures(
                    S::commit_encryption,
                    (&v, message, blinder),
                    Ok((Committed { builder, contributions })),
                ) && call_ensures(
                    <S::VerifiableEncryptionBuilder as PresentationBuilder>::gen_proof,
                    (builder, presentation.challenge),
                    one,
                ) && is_presented(presentation, one) && (asking::stands_alone(
                    schema,
                    v.reference_id@,
                    v.claim as int,
                ) ==> exists|e: ClaimEncoding| #[trigger]
                    call_ensures(
                        S::encode_claim,
                        (&credentials@[v.reference_id@].claims@[v.claim as int],),
                        e,
                    ) && e@.scalar == message),
            _ => true,
        },
{
    let run = lemma_run::<S>(credentials, schema, nonce, presentation);
    match schema.statements@[id] {
        Statements::Commitment(c) => {
            let (m, b, builder, contributions, j) =
                asking::commitments_are_to_the_claims_they_name(
                credentials,
                schema,
                nonce,
                run,
                presentation,
                id,
            );
            lemma_presented(credentials, schema, nonce, run, presentation, j);
        },
        Statements::VerifiableEncryption(v) => {
            let (m, b, builder, contributions, j) =
                asking::encryptions_are_of_the_claims_they_name(
                credentials,
                schema,
                nonce,
                run,
                presentation,
                id,
            );
            lemma_presented(credentials, schema, nonce, run, presentation, j);
        },
        _ => {},
    }
}

/// `commit_range` commits to exactly the number that the claim holds, next to the builder of a
/// commitment; where there is no such builder or no such number, there is an error, and the suite
/// is asked nothing.
pub proof fn commit_range_is_about_the_number_of_the_claim<S: ProofSuite>(
    statement: RangeStatement,
    builder: PresentationBuilders<S>,
    credential: Credential,
    transcript: Transcript,
    answer: CredxResult<Committed<S::RangeBuilder>>,
)
    requires
        call_ensures(
            suite::commit_range::<S>,
            (&statement, &builder, &credential, &transcript),
            answer,
        ),
    ensures
        match builder {
            PresentationBuilders::Commitment(commitment) if statement.claim
                < credential.claims@.len() => match credential.claims@[statement.claim as int] {
                ClaimData::Number(n) => exists|t: Transcript|
                    transcript::transcript_log(t) == transcript::transcript_log(transcript)
                        && #[trigger] call_ensures(
                        S::commit_range,
                        (&statement, &commitment, n.value, &t),
                        answer,
                    ),
                ClaimData::Other(_) => answer == Err::<Committed<S::RangeBuilder>, Error>(
                    Error::InvalidPresentationData,
                ),
            },
            _ => answer == Err::<Committed<S::RangeBuilder>, Error>(
                Error::InvalidPresentationData,
            ),
        },
{
}

/// A builder of any kind gives the proof that the suite's builder of that kind gives.
pub proof fn builders_give_the_proofs_of_the_suite<S: ProofSuite>(
    builder: PresentationBuilders<S>,
    challenge: Scalar,
    one: PresentationProofs,
)
    requires
        call_ensures(PresentationBuilders::<S>::gen_proof, (builder, challenge), one),
    ensures
        match builder {
            PresentationBuilders::Signature(b) => call_ensures(
                <S::SignatureBuilder as PresentationBuilder>::gen_proof,
                (b, challenge),
                one,
            ),
            PresentationBuilders::AccumulatorSetMembership(b) => call_ensures(
                <S::AccumulatorSetMembershipBuilder as PresentationBuilder>::gen_proof,
                (b, challenge),
                one,
            ),
            PresentationBuilders::Equality(b) => call_ensures(
                <S::EqualityBuilder as PresentationBuilder>::gen_proof,
                (b, challenge),
                one,
            ),
            PresentationBuilders::Commitment(b) => call_ensures(
                <S::CommitmentBuilder as PresentationBuilder>::gen_proof,
                (b, challenge),
                one,
            ),
            PresentationBuilders::VerifiableEncryption(b) => call_ensures(
                <S::VerifiableEncryptionBuilder as PresentationBuilder>::gen_proof,
                (b, challenge),
                one,
            ),
            PresentationBuilders::Range(b) => call_ensures(
                <S::RangeBuilder as PresentationBuilder>::gen_proof,
                (b, challenge),
                one,
            ),
        },
{
}

/// `disclosed_claims` gives the claims of a credential whose messages are revealed, each under its
/// label and as the credential has it, and no others.
pub proof fn disclosed_claims_are_those_that_are_revealed(
    statement: SignatureStatement,
    credential: Credential,
    messages: Vec<ProofMessage>,
    answer: OrderedMap<ClaimData>,
    label: Seq<char>,
)
    requires
        statement.issuer.schema.claim_indices.wf(),
        messages@.len() == credential.claims@.len(),
        call_ensures(
            Presentation::disclosed_claims,
            (&statement, &credential, &messages),
            answer,
        ),
    ensures
        answer@.dom().contains(label) <==> exists|i: int|
            0 <= i < credential.claims@.len() && messages@[i] is Revealed
                && #[trigger] statement.issuer.schema.label(i) == Some(label),
        forall|i: int|
            0 <= i < credential.claims@.len() && messages@[i] is Revealed
                && #[trigger] statement.issuer.schema.label(i) == Some(label) ==> answer@[label]@
                == credential.claims@[i]@,
{
    let revealed = creation::revealed_among(messages@);
    let shown = creation::shown_map(answer);
    assert(shown.dom().contains(label) <==> answer@.dom().contains(label));
    if shown.dom().contains(label) {
        let i = choose|i: int|
            0 <= i < credential.claims@.len() && revealed[i]
                && #[trigger] statement.issuer.schema.label(i) == Some(label);
        assert(messages@[i] is Revealed);
    }
    assert forall|i: int|
        0 <= i < credential.claims@.len() && messages@[i] is Revealed
            && #[trigger] statement.issuer.schema.label(i) == Some(
            label,
        ) implies answer@.dom().contains(label) && answer@[label]@ == credential.claims@[i]@ by {
        assert(revealed[i]);
        statement::lemma_label_index(statement, i);
        assert(shown.dom().contains(label));
        assert(answer@[label]@ == shown[label]);
    }
}

/// `referenced_claims` says of each claim of each credential whether a predicate names it, and
/// succeeds exactly where each predicate names only claims of credentials and other predicates.
pub proof fn referenced_claims_are_those_that_predicates_name(
    credentials: OrderedMap<Credential>,
    predicates: OrderedMap<&Statements>,
    answer: CredxResult<OrderedMap<Vec<bool>>>,
)
    requires
        call_ensures(Presentation::referenced_claims, (&credentials, &predicates), answer),
    ensures
        answer is Ok <==> forall|k: int, j: int|
            0 <= k < predicates.listing().len() && 0 <= j
                < predicates.listing()[k].1.references().len() ==> {
                let reference = #[trigger] predicates.listing()[k].1.references()[j];
                if credentials@.dom().contains(reference.0) {
                    reference.1 < credentials@[reference.0].claims@.len()
                } else {
                    exists|l: int|
                        0 <= l < predicates.listing().len() && (
                        #[trigger] predicates.listing()[l]).0 == reference.0
                }
            },
        answer is Err ==> answer->Err_0 == Error::InvalidPresentationData,
        answer matches Ok(flags) ==> flags@.dom() == credentials@.dom() && forall|
            id: Seq<char>,
            i: int,
        |
            flags@.dom().contains(id) && 0 <= i < credentials@[id].claims@.len()
                ==> flags@[id]@.len() == credentials@[id].claims@.len() && (
            #[trigger] flags@[id]@[i]) == exists|k: int, j: int|
                0 <= k < predicates.listing().len() && 0 <= j
                    < predicates.listing()[k].1.references().len() && (
                #[trigger] predicates.listing()[k].1.references()[j]).0 == id
                    && predicates.listing()[k].1.references()[j].1 == i,
{
    let all = message_types::borrowed(predicates);
    let listing = predicates.listing();
    assert forall|k: int| 0 <= k < listing.len() implies (#[trigger] all[k]).0 == listing[k].0
        && all[k].1 == *listing[k].1 by {}
    assert(all.len() == listing.len());
    assert forall|id: Seq<char>| #[trigger] ordered_map::has_key(all, id) == (exists|l: int|
        0 <= l < listing.len() && (#[trigger] listing[l]).0 == id) by {
        if ordered_map::has_key(all, id) {
            let l = ordered_map::key_index(all, id);
            assert(listing[l].0 == id);
        }
        if exists|l: int| 0 <= l < listing.len() && (#[trigger] listing[l]).0 == id {
            let l = choose|l: int| 0 <= l < listing.len() && (#[trigger] listing[l]).0 == id;
            assert(all[l].0 == id);
        }
    }
    assert forall|k: int, j: int|
        0 <= k < listing.len() && 0 <= j < listing[k].1.references().len() implies ({
        let reference = #[trigger] listing[k].1.references()[j];
        message_types::reference_resolves(
            credentials@,
            all,
            reference,
        ) == if credentials@.dom().contains(
            reference.0,
        ) {
            reference.1 < credentials@[reference.0].claims@.len()
        } else {
            exists|l: int| 0 <= l < listing.len() && (#[trigger] listing[l]).0 == reference.0
        }
    }) by {
        let reference = listing[k].1.references()[j];
        assert(ordered_map::has_key(all, reference.0) == (exists|l: int|
            0 <= l < listing.len() && (#[trigger] listing[l]).0 == reference.0));
    }
    lemma_named(credentials, predicates, answer);
}

/// The same, in terms of what the answer is made from.
proof fn lemma_named(
    credentials: OrderedMap<Credential>,
    predicates: OrderedMap<&Statements>,
    answer: CredxResult<OrderedMap<Vec<bool>>>,
)
    requires
        call_ensures(Presentation::referenced_claims, (&credentials, &predicates), answer),
    ensures
        answer is Ok <==> forall|k: int, j: int|
            0 <= k < predicates.listing().len() && 0 <= j
                < predicates.listing()[k].1.references().len()
                ==> message_types::reference_resolves(
                credentials@,
                message_types::borrowed(predicates),
                #[trigger] predicates.listing()[k].1.references()[j],
            ),
        answer matches Ok(flags) ==> forall|id: Seq<char>, i: int|
            flags@.dom().contains(id) && 0 <= i < credentials@[id].claims@.len()
                ==> flags@[id]@.len() == credentials@[id].claims@.len() && (
            #[trigger] flags@[id]@[i]) == exists|k: int, j: int|
                0 <= k < predicates.listing().len() && 0 <= j
                    < predicates.listing()[k].1.references().len() && (
                #[trigger] predicates.listing()[k].1.references()[j]).0 == id
                    && predicates.listing()[k].1.references()[j].1 == i,
{
    let all = message_types::borrowed(predicates);
    let listing = predicates.listing();
    assert forall|k: int| 0 <= k < listing.len() implies (#[trigger] all[k]).1
        == *listing[k].1 by {}
    if message_types::references_resolve(credentials@, all) {
        assert forall|k: int, j: int|
            0 <= k < listing.len() && 0 <= j < listing[k].1.references().len()
            implies message_types::reference_resolves(
            credentials@,
            all,
            #[trigger] listing[k].1.references()[j],
        ) by {
            assert(all[k].1.references()[j] == listing[k].1.references()[j]);
        }
    } else {
        let (k, j) = choose|k: int, j: int|
            0 <= k < all.len() && 0 <= j < all[k].1.references().len()
                && !message_types::reference_resolves(
                credentials@,
                all,
                #[trigger] all[k].1.references()[j],
            );
        assert(all[k].1.references()[j] == listing[k].1.references()[j]);
    }
    if answer is Ok {
        let flags = answer->Ok_0;
        assert forall|id: Seq<char>, i: int|
            flags@.dom().contains(id) && 0 <= i
                < credentials@[id].claims@.len() implies flags@[id]@.len()
            == credentials@[id].claims@.len() && (#[trigger] flags@[id]@[i]) == (exists|
            k: int,
            j: int,
        |
            0 <= k < listing.len() && 0 <= j < listing[k].1.references().len() && (
            #[trigger] listing[k].1.references()[j]).0 == id && listing[k].1.references()[j].1
                == i) by {
            assert(flags@[id]@[i] == message_types::is_referenced(all, id, i));
            if message_types::is_referenced(all, id, i) {
                let (k, j) = choose|k: int, j: int|
                    0 <= k < all.len() && 0 <= j < all[k].1.references().len() && (
                    #[trigger] all[k].1.references()[j]).0 == id && all[k].1.references()[j].1
                        == i;
                assert(listing[k].1.references()[j].0 == id);
            }
            if exists|k: int, j: int|
                0 <= k < listing.len() && 0 <= j < listing[k].1.references().len() && (
                #[trigger] listing[k].1.references()[j]).0 == id && listing[k].1.references()[j].1
                    == i {
                let (k, j) = choose|k: int, j: int|
                    0 <= k < listing.len() && 0 <= j < listing[k].1.references().len() && (
                    #[trigger] listing[k].1.references()[j]).0 == id
                        && listing[k].1.references()[j].1 == i;
                assert(all[k].1.references()[j].0 == id);
            }
        }
    }
}

/// A verifier of any kind asks the suite about its own statement and its own proof: what the proof
/// binds, and whether it is accepted.
pub proof fn verifiers_ask_the_suite<S: ProofSuite>(
    verifier: ProofVerifiers<'_>,
    challenge: Scalar,
    bound: CredxResult<Vec<Contribution>>,
    verdict: CredxResult<()>,
)
    requires
        call_ensures(
            ProofVerifiers::add_challenge_contribution::<S>,
            (&verifier, challenge),
            bound,
        ),
        call_ensures(ProofVerifiers::verify::<S>, (&verifier, challenge), verdict),
    ensures
        match verifier {
            ProofVerifiers::Signature(s, p) => {
                &&& call_ensures(S::signature_contribution, (s, p, challenge), bound)
                &&& call_ensures(S::verify_signature, (s, p, challenge), verdict)
            },
            ProofVerifiers::AccumulatorSetMembership(s, p, nonce) => {
                &&& call_ensures(S::membership_contribution, (s, p, nonce, challenge), bound)
                &&& call_ensures(S::verify_membership, (s, p, nonce, challenge), verdict)
            },
            ProofVerifiers::Equality(s, schema, proofs) => {
                &&& call_ensures(S::equality_contribution, (s, schema, proofs, challenge), bound)
                &&& call_ensures(S::verify_equality, (s, schema, proofs, challenge), verdict)
            },
            ProofVerifiers::Commitment(s, p) => {
                &&& call_ensures(S::commitment_contribution, (s, p, challenge), bound)
                &&& call_ensures(S::verify_commitment, (s, p, challenge), verdict)
            },
            ProofVerifiers::VerifiableEncryption(s, p) => {
                &&& call_ensures(S::encryption_contribution, (s, p, challenge), bound)
                &&& call_ensures(S::verify_encryption, (s, p, challenge), verdict)
            },
        },
{
}

/// `split_statements` parts the statements of a schema: each goes, under its id, to the first part
/// where it is about a signature and to the second where it is not.
pub proof fn split_statements_parts_by_kind(
    schema: PresentationSchema,
    signatures: OrderedMap<&Statements>,
    predicates: OrderedMap<&Statements>,
    id: Seq<char>,
)
    requires
        schema.statements.wf(),
        signatures.wf(),
        predicates.wf(),
        call_ensures(Presentation::split_statements, (&schema,), (signatures, predicates)),
    ensures
        signatures@.dom().contains(id) <==> schema.statements@.dom().contains(id)
            && schema.statements@[id] is Signature,
        predicates@.dom().contains(id) <==> schema.statements@.dom().contains(id) && !(
        schema.statements@[id] is Signature),
        signatures@.dom().contains(id) ==> *signatures@[id] == schema.statements@[id],
        predicates@.dom().contains(id) ==> *predicates@[id] == schema.statements@[id],
{
    statements::statements_are_parted(schema.statements.listing(), id);
    message_types::lemma_borrowed_keys(signatures, id);
    message_types::lemma_borrowed_keys(predicates, id);
    message_types::lemma_borrowed_ascending(signatures);
    message_types::lemma_borrowed_ascending(predicates);
    if signatures@.dom().contains(id) {
        let k = ordered_map::key_index(signatures.listing(), id);
        ordered_map::lemma_entry_found(message_types::borrowed(signatures), k);
        assert(message_types::borrowed(signatures)[k].0 == id);
    }
    if predicates@.dom().contains(id) {
        let k = ordered_map::key_index(predicates.listing(), id);
        ordered_map::lemma_entry_found(message_types::borrowed(predicates), k);
        assert(message_types::borrowed(predicates)[k].0 == id);
    }
}

/// `assign_message_types` lets each claim take part as the first of the claims that it is linked
/// with: revealed with the scalar of that claim where all of them are disclosed; else, where a
/// predicate speaks of it, hidden with the scalar and the blinder of that claim; else hidden with
/// its own scalar.
pub proof fn assign_message_types_goes_by_the_first_claim(
    credentials: OrderedMap<Credential>,
    signatures: OrderedMap<&Statements>,
    predicates: OrderedMap<&Statements>,
    flags: OrderedMap<Vec<bool>>,
    scalars: OrderedMap<Vec<Scalar>>,
    blinders: OrderedMap<Vec<Scalar>>,
    answer: OrderedMap<Vec<ProofMessage>>,
    a: (int, int),
) -> (b: (int, int))
    requires
        signatures.wf(),
        message_types::is_per_claim(
            credentials@,
            message_types::borrowed(signatures),
            message_types::lists(scalars),
        ),
        message_types::is_per_claim(
            credentials@,
            message_types::borrowed(signatures),
            message_types::lists(blinders),
        ),
        call_ensures(
            Presentation::assign_message_types,
            (&credentials, &signatures, &predicates, &flags, &scalars, &blinders),
            answer,
        ),
        0 <= a.0 < signatures.listing().len(),
        0 <= a.1 < credentials@[signatures.listing()[a.0].0].claims@.len(),
    ensures
        ({
            let s = message_types::borrowed(signatures);
            let p = message_types::borrowed(predicates);
            let id = signatures.listing()[a.0].0;
            let first = signatures.listing()[b.0].0;
            &&& linking::are_linked(s, p, a, b)
            &&& forall|c: (int, int)| #[trigger]
                linking::are_linked(s, p, a, c) ==> b.0 < c.0 || (b.0 == c.0 && b.1 <= c.1)
            &&& answer@.dom().contains(id)
            &&& answer@[id]@.len() == credentials@[id].claims@.len()
            &&& match answer@[id]@[a.1] {
                ProofMessage::Revealed(m) => {
                    &&& m == message_types::lists(scalars)[s[b.0].0][b.1]
                    &&& forall|c: (int, int)| #[trigger]
                        linking::are_linked(s, p, a, c) ==> s[c.0].1->Signature_0.discloses(c.1)
                },
                ProofMessage::Hidden(HiddenMessage::ExternalBlinding(m, blinder)) => {
                    &&& m == message_types::lists(scalars)[s[b.0].0][b.1]
                    &&& blinder == message_types::lists(blinders)[s[b.0].0][b.1]
                    &&& exists|c: (int, int)| #[trigger]
                        linking::are_linked(s, p, a, c) && !s[c.0].1->Signature_0.discloses(c.1)
                },
                ProofMessage::Hidden(HiddenMessage::ProofSpecificBlinding(m)) => {
                    &&& m == scalars@[id]@[a.1]
                    &&& exists|c: (int, int)| #[trigger]
                        linking::are_linked(s, p, a, c) && !s[c.0].1->Signature_0.discloses(c.1)
                },
            }
        }),
{
    let s = message_types::borrowed(signatures);
    let p = message_types::borrowed(predicates);
    message_types::lemma_borrowed_ascending(signatures);
    let id = s[a.0].0;
    assert(id == signatures.listing()[a.0].0);
    ordered_map::lemma_entry_found(s, a.0);
    let messages = message_types::lists(answer);
    assert(messages.dom().contains(id)) by {
        assert(ordered_map::has_key(s, id));
    }
    assert(messages[id] == answer@[id]@);
    assert(message_types::lists(scalars).dom().contains(s[a.0].0));
    assert(message_types::lists(scalars)[id] == scalars@[id]@);
    links::claims_take_part_as_the_first_that_they_are_linked_with(
        credentials@,
        s,
        p,
        message_types::lists(scalars),
        message_types::lists(blinders),
        a,
    )
}

/// The signature statements up to the one at `k` have proofs of signatures under their ids.
pub open spec fn are_proved_up_to(
    presentation: Presentation,
    signatures: Seq<(Seq<char>, Statements)>,
    k: int,
) -> bool {
    forall|j: int|
        0 <= j <= k ==> presentation.proofs@.dom().contains((#[trigger] signatures[j]).0)
            && presentation.proofs@[signatures[j].0] is Signature
}

/// The claims that are disclosed for a signature statement are there, and their labels and the id
/// fit in a transcript.
pub open spec fn shows_what_fits(presentation: Presentation, statement: Statements) -> bool {
    let id = statement->Signature_0.id@;
    &&& presentation.disclosed_messages@.dom().contains(id)
    &&& encode_utf8(id).len() <= u32::MAX
    &&& forall|i: int|
        0 <= i < presentation.disclosed_messages@[id].listing().len() ==> encode_utf8(
            (#[trigger] presentation.disclosed_messages@[id].listing()[i]).0,
        ).len() <= u32::MAX
}

/// What has to be there before a presentation is verified: for each signature statement, up to the
/// first without a proof of a signature, the claims that are disclosed under the id of the
/// statement, with an id and with labels that fit in a transcript.
pub proof fn disclosed_claims_must_be_there(
    presentation: Presentation,
    signatures: Seq<(Seq<char>, Statements)>,
)
    ensures
        verification::disclosures_are_there(presentation, signatures) <==> forall|k: int|
            0 <= k < signatures.len() && are_proved_up_to(presentation, signatures, k)
                ==> shows_what_fits(presentation, (#[trigger] signatures[k]).1),
{
    assert forall|k: int| 0 <= k < signatures.len() implies verification::disclosure_is_there(
        presentation,
        (#[trigger] signatures[k]).1,
    ) == shows_what_fits(presentation, signatures[k].1) by {
        lemma_labels_fit(presentation.disclosed_messages@[signatures[k].1->Signature_0.id@]);
    }
    if verification::disclosures_are_there(presentation, signatures) {
        assert forall|k: int|
            0 <= k < signatures.len() && are_proved_up_to(
                presentation,
                signatures,
                k,
            ) implies shows_what_fits(presentation, (#[trigger] signatures[k]).1) by {
            assert forall|j: int| 0 <= j <= k implies verification::has_signature(
                presentation,
                (#[trigger] signatures[j]).0,
            ) by {}
            assert(verification::disclosure_is_there(presentation, signatures[k].1));
        }
    }
    if forall|k: int|
        0 <= k < signatures.len() && are_proved_up_to(presentation, signatures, k)
            ==> shows_what_fits(presentation, (#[trigger] signatures[k]).1) {
        assert forall|k: int|
            0 <= k < signatures.len() && (forall|j: int|
                0 <= j <= k ==> verification::has_signature(
                    presentation,
                    (#[trigger] signatures[j]).0,
                )) implies verification::disclosure_is_there(
            presentation,
            (#[trigger] signatures[k]).1,
        ) by {
            assert forall|j: int| 0 <= j <= k implies presentation.proofs@.dom().contains(
                (#[trigger] signatures[j]).0,
            ) && presentation.proofs@[signatures[j].0] is Signature by {
                assert(verification::has_signature(presentation, signatures[j].0));
            }
            assert(are_proved_up_to(presentation, signatures, k));
        }
    }
}

/// Labels that fit in a transcript.
proof fn lemma_labels_fit(claims: OrderedMap<ClaimData>)
    ensures
        challenge::labels_fit(claims) <==> forall|i: int|
            0 <= i < claims.listing().len() ==> encode_utf8(
                (#[trigger] claims.listing()[i]).0,
            ).len() <= u32::MAX,
{
    if forall|i: int|
        0 <= i < claims.listing().len() ==> encode_utf8((#[trigger] claims.listing()[i]).0).len()
            <= u32::MAX {
        assert forall|i: int| 0 <= i < claims.listing().len() implies challenge::text_fits(
            (#[trigger] claims.listing()[i]).0,
        ) by {}
    }
    if challenge::labels_fit(claims) {
        assert forall|i: int| 0 <= i < claims.listing().len() implies encode_utf8(
            (#[trigger] claims.listing()[i]).0,
        ).len() <= u32::MAX by {
            assert(challenge::text_fits(claims.listing()[i].0));
        }
    }
}

/// Whatever source of blinders `create_from` and `get_message_types` are given, what they draw from
/// it is what the run to their answer has drawn, or the messages that they give have drawn, and
/// nothing else; where there is nothing to answer, nothing is drawn.
pub proof fn sources_give_what_is_drawn_and_no_more<S: ProofSuite>(
    credentials: OrderedMap<Credential>,
    schema: PresentationSchema,
    nonce: &[u8],
    signatures: OrderedMap<&Statements>,
    predicates: OrderedMap<&Statements>,
)
    ensures
        forall|draws: &mut Draws, answer: CredxResult<Presentation>|
            #![trigger call_ensures(
                Presentation::create_from::<S>,
                (&credentials, &schema, nonce, draws),
                answer,
            )]
            call_ensures(
                Presentation::create_from::<S>,
                (&credentials, &schema, nonce, draws),
                answer,
            ) ==> if creation::is_answerable(credentials, schema) {
                exists|run: CreateRun<S>| #[trigger]
                    creation::created(credentials, schema, nonce, run, answer)
                        && final(draws).drawn() == draws.drawn() + run.draws
            } else {
                answer == Err::<Presentation, Error>(Error::InvalidPresentationData)
                    && final(draws).drawn() == draws.drawn()
            },
        forall|draws: &mut Draws, answer: CredxResult<OrderedMap<Vec<ProofMessage>>>|
            #![trigger call_ensures(
                Presentation::get_message_types::<S>,
                (&credentials, &signatures, &predicates, draws),
                answer,
            )]
            call_ensures(
                Presentation::get_message_types::<S>,
                (&credentials, &signatures, &predicates, draws),
                answer,
            ) ==> match answer {
                Ok(messages) => draws.drawn().is_prefix_of(final(draws).drawn())
                    && message_types::has_message_types::<S>(
                    credentials@,
                    message_types::borrowed(signatures),
                    message_types::borrowed(predicates),
                    final(draws).drawn().skip(draws.drawn().len() as int),
                    message_types::lists(messages),
                ),
                Err(e) => e == Error::InvalidPresentationData && final(draws).drawn()
                    == draws.drawn() && !message_types::references_resolve(
                    credentials@,
                    message_types::borrowed(predicates),
                ),
            },
{
}

} // verus!
