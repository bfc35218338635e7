//! Which schemas can be answered, what is disclosed, and why a presentation is not made.
use vstd::prelude::*;
use vstd::utf8::encode_utf8;
use merlin::Transcript;
use crate::challenge;
use crate::claim::{ClaimData, NumberClaim};
use crate::creation;
use crate::creation::{CreateRun, Step};
use crate::credential::Credential;
use crate::error::Error;
use crate::laws::asking;
use crate::laws::challenges;
use crate::laws::making;
use crate::laws::presentations;
use crate::laws::statements;
use crate::linking;
use crate::message::{HiddenMessage, ProofMessage};
use crate::message_types;
use crate::ordered_map;
use crate::ordered_map::OrderedMap;
use crate::presentation::Presentation;
use crate::statement;
use crate::statement::{PresentationSchema, Statements};
use crate::suite;
use crate::suite::{Committed, ProofSuite};
use crate::transcript;

verus! {

/// What a statement refers to is there: a claim of a credential, or a statement that is not about a
/// signature.
pub open spec fn is_there(
    credentials: OrderedMap<Credential>,
    schema: PresentationSchema,
    id: Seq<char>,
    claim: usize,
) -> bool {
    if credentials@.dom().contains(id) {
        claim < credentials@[id].claims@.len()
    } else {
        schema.statements@.dom().contains(id) && !(schema.statements@[id] is Signature)
    }
}

/// All that a statement names is there.
pub open spec fn names_what_is_there(
    credentials: OrderedMap<Credential>,
    schema: PresentationSchema,
    statement: Statements,
) -> bool {
    match statement {
        Statements::Signature(_) => true,
        Statements::AccumulatorSetMembership(a) => is_there(
            credentials,
            schema,
            a.reference_id@,
            a.claim,
        ),
        Statements::Equality(e) => forall|p: int|
            0 <= p < e.ref_id_claim_index.listing().len() ==> is_there(
                credentials,
                schema,
                (#[trigger] e.ref_id_claim_index.listing()[p]).0,
                e.ref_id_claim_index.listing()[p].1,
            ),
        Statements::Commitment(c) => is_there(credentials, schema, c.reference_id@, c.claim),
        Statements::VerifiableEncryption(v) => is_there(
            credentials,
            schema,
            v.reference_id@,
            v.claim,
        ),
        Statements::Range(r) => is_there(credentials, schema, r.reference_id@, r.claim),
    }
}

/// A statement names what is there exactly where all its references do.
proof fn lemma_names(
    credentials: OrderedMap<Credential>,
    schema: PresentationSchema,
    statement: Statements,
)
    ensures
        names_what_is_there(credentials, schema, statement) <==> forall|j: int|
            0 <= j < statement.references().len() ==> is_there(
                credentials,
                schema,
                (#[trigger] statement.references()[j]).0,
                statement.references()[j].1,
            ),
{
    let references = statement.references();
    if let Statements::Equality(e) = statement {
        assert(references == e.ref_id_claim_index.listing());
    } else if references.len() == 1 {
        assert(references[0] == references[0]);
        if names_what_is_there(credentials, schema, statement) {
            assert(is_there(credentials, schema, references[0].0, references[0].1));
        }
    }
}

/// A schema is answerable exactly where it has a statement, the credentials are those of its
/// signature statements, and every statement names only what is there.
pub proof fn schemas_are_answerable_where_all_is_there(
    credentials: OrderedMap<Credential>,
    schema: PresentationSchema,
)
    requires
        schema.statements.wf(),
    ensures
        creation::is_answerable(credentials, schema) <==> {
            &&& schema.statements.listing().len() > 0
            &&& forall|id: Seq<char>| #[trigger]
                credentials@.dom().contains(id) <==> schema.statements@.dom().contains(id)
                    && schema.statements@[id] is Signature
            &&& forall|id: Seq<char>| #[trigger]
                schema.statements@.dom().contains(id) ==> names_what_is_there(
                    credentials,
                    schema,
                    schema.statements@[id],
                )
        },
{
    let all = schema.statements.listing();
    let signatures = message_types::signatures_of(all);
    let predicates = message_types::predicates_of(all);
    assert forall|id: Seq<char>|
        #![trigger ordered_map::has_key(signatures, id)]
        #![trigger schema.statements@.dom().contains(id)]
        ordered_map::has_key(signatures, id) == (schema.statements@.dom().contains(id)
            && schema.statements@[id] is Signature) by {
        statements::statements_are_parted(all, id);
    }
    if creation::is_answerable(credentials, schema) {
        assert forall|id: Seq<char>| #[trigger]
            credentials@.dom().contains(id) <==> schema.statements@.dom().contains(id)
                && schema.statements@[id] is Signature by {
            assert(credentials@.dom().contains(id) <==> ordered_map::has_key(signatures, id));
        }
        assert forall|id: Seq<char>| #[trigger]
            schema.statements@.dom().contains(id) implies names_what_is_there(
            credentials,
            schema,
            schema.statements@[id],
        ) by {
            if !(schema.statements@[id] is Signature) {
                let k = asking::lemma_part(schema, id);
                lemma_resolves(credentials, schema, k);
                lemma_names(credentials, schema, schema.statements@[id]);
            }
        }
    }
    if schema.statements.listing().len() > 0 && (forall|id: Seq<char>| #[trigger]
        credentials@.dom().contains(id) <==> schema.statements@.dom().contains(id)
            && schema.statements@[id] is Signature) && (forall|id: Seq<char>| #[trigger]
        schema.statements@.dom().contains(id) ==> names_what_is_there(
            credentials,
            schema,
            schema.statements@[id],
        )) {
        lemma_answerable(credentials, schema);
    }
}

/// What the predicate at `k` of an answerable schema refers to is there.
proof fn lemma_resolves(
    credentials: OrderedMap<Credential>,
    schema: PresentationSchema,
    k: int,
)
    requires
        schema.statements.wf(),
        creation::is_answerable(credentials, schema),
        0 <= k < message_types::predicates_of(schema.statements.listing()).len(),
    ensures
        ({
            let references =
                message_types::predicates_of(schema.statements.listing())[k].1.references();
            forall|j: int|
                0 <= j < references.len() ==> is_there(
                    credentials,
                    schema,
                    (#[trigger] references[j]).0,
                    references[j].1,
                )
        }),
{
    let predicates = message_types::predicates_of(schema.statements.listing());
    let references = predicates[k].1.references();
    assert forall|j: int| 0 <= j < references.len() implies is_there(
        credentials,
        schema,
        (#[trigger] references[j]).0,
        references[j].1,
    ) by {
        assert(message_types::reference_resolves(
            credentials@,
            predicates,
            predicates[k].1.references()[j],
        ));
        statements::statements_are_parted(schema.statements.listing(), references[j].0);
    }
}

/// Where all is there, a schema is answerable.
proof fn lemma_answerable(credentials: OrderedMap<Credential>, schema: PresentationSchema)
    requires
        schema.statements.wf(),
        schema.statements.listing().len() > 0,
        forall|id: Seq<char>| #[trigger]
            credentials@.dom().contains(id) <==> schema.statements@.dom().contains(id)
                && schema.statements@[id] is Signature,
        forall|id: Seq<char>| #[trigger]
            schema.statements@.dom().contains(id) ==> names_what_is_there(
                credentials,
                schema,
                schema.statements@[id],
            ),
    ensures
        creation::is_answerable(credentials, schema),
{
    let all = schema.statements.listing();
    let signatures = message_types::signatures_of(all);
    let predicates = message_types::predicates_of(all);
    assert forall|id: Seq<char>| #[trigger]
        credentials@.dom().contains(id) <==> ordered_map::has_key(signatures, id) by {
        statements::statements_are_parted(all, id);
    }
    statements::lemma_members(all);
    assert forall|k: int, j: int|
        0 <= k < predicates.len() && 0 <= j < predicates[k].1.references().len()
        implies message_types::reference_resolves(
        credentials@,
        predicates,
        #[trigger] predicates[k].1.references()[j],
    ) by {
        let id = predicates[k].0;
        statements::statements_are_parted(all, id);
        statements::statements_are_parted(all, predicates[k].1.references()[j].0);
        ordered_map::lemma_entry_found(predicates, k);
        assert(ordered_map::has_key(predicates, id));
        assert(schema.statements@.dom().contains(id));
        assert(schema.statements@[id] == predicates[k].1);
        lemma_names(credentials, schema, schema.statements@[id]);
        let reference = schema.statements@[id].references()[j];
        assert(is_there(credentials, schema, reference.0, reference.1));
    }
}

/// A claim is revealed where all claims that it is linked with are disclosed.
pub open spec fn is_to_be_shown(schema: PresentationSchema, id: Seq<char>, index: int) -> bool {
    let signatures = message_types::signatures_of(schema.statements.listing());
    let predicates = message_types::predicates_of(schema.statements.listing());
    forall|c: (int, int)| #[trigger]
        linking::are_linked(
            signatures,
            predicates,
            (ordered_map::key_index(signatures, id), index),
            c,
        ) ==> signatures[c.0].1->Signature_0.discloses(c.1)
}

/// What a presentation is asked to hold can be held: each claim of each credential has a label, an
/// equality of several claims is one of claims of signatures, and the ids of the signature
/// statements and the labels of the claims that are to be shown fit in a transcript.
pub proof fn schemas_are_presentable_where_all_fits(
    credentials: OrderedMap<Credential>,
    schema: PresentationSchema,
)
    requires
        schema.statements.wf(),
    ensures
        creation::is_presentable(credentials, schema) <==> {
            &&& forall|id: Seq<char>| #[trigger]
                schema.statements@.dom().contains(id) ==> match schema.statements@[id] {
                    Statements::Signature(s) => has_labels_that_fit(credentials, schema, id),
                    Statements::Equality(e) => compares_signatures(schema, e.ref_id_claim_index),
                    _ => true,
                }
        },
{
    let all = schema.statements.listing();
    let signatures = message_types::signatures_of(all);
    let predicates = message_types::predicates_of(all);
    let revealed = message_types::revealed_claims(credentials@, signatures, predicates);
    statements::lemma_members(all);
    message_types::lemma_parts(all);
    if creation::is_presentable(credentials, schema) {
        assert forall|id: Seq<char>| #[trigger]
            schema.statements@.dom().contains(id) implies match schema.statements@[id] {
            Statements::Signature(s) => has_labels_that_fit(credentials, schema, id),
            Statements::Equality(e) => compares_signatures(schema, e.ref_id_claim_index),
            _ => true,
        } by {
            let k = asking::lemma_part(schema, id);
            if schema.statements@[id] is Signature {
                lemma_labels_one_way(credentials, schema, k);
            } else if let Statements::Equality(e) = schema.statements@[id] {
                lemma_compares_one_way(schema, k);
            }
        }
    }
    if forall|id: Seq<char>| #[trigger]
        schema.statements@.dom().contains(id) ==> match schema.statements@[id] {
            Statements::Signature(s) => has_labels_that_fit(credentials, schema, id),
            Statements::Equality(e) => compares_signatures(schema, e.ref_id_claim_index),
            _ => true,
        } {
        lemma_presentable(credentials, schema);
    }
}

/// Each claim of a credential has a label, and the id of its signature statement and the labels of
/// the claims that are to be shown fit in a transcript.
pub open spec fn has_labels_that_fit(
    credentials: OrderedMap<Credential>,
    schema: PresentationSchema,
    id: Seq<char>,
) -> bool {
    let labels = schema.statements@[id]->Signature_0.issuer.schema;
    &&& encode_utf8(id).len() <= u32::MAX
    &&& forall|i: int|
        0 <= i < credentials@[id].claims@.len() ==> match #[trigger] labels.label(i) {
            Some(label) => is_to_be_shown(schema, id, i) ==> encode_utf8(label).len() <= u32::MAX,
            None => false,
        }
}

/// An equality of several claims names signature statements alone.
pub open spec fn compares_signatures(
    schema: PresentationSchema,
    references: OrderedMap<usize>,
) -> bool {
    references.listing().len() > 1 ==> forall|p: int|
        0 <= p < references.listing().len() ==> schema.statements@.dom().contains(
            (#[trigger] references.listing()[p]).0,
        ) && schema.statements@[references.listing()[p].0] is Signature
}

/// What is revealed is what is to be shown.
proof fn lemma_to_be_shown(
    credentials: OrderedMap<Credential>,
    schema: PresentationSchema,
    k: int,
    i: int,
)
    requires
        schema.statements.wf(),
        0 <= k < message_types::signatures_of(schema.statements.listing()).len(),
        0 <= i < credentials@[message_types::signatures_of(
            schema.statements.listing(),
        )[k].0].claims@.len(),
    ensures
        ({
            let signatures = message_types::signatures_of(schema.statements.listing());
            let predicates = message_types::predicates_of(schema.statements.listing());
            let id = signatures[k].0;
            &&& linking::is_open(signatures, predicates, (k, i)) == is_to_be_shown(schema, id, i)
            &&& message_types::revealed_claims(credentials@, signatures, predicates)[id][i]
                == is_to_be_shown(schema, id, i)
            &&& ordered_map::key_index(signatures, id) == k
            &&& ordered_map::has_key(signatures, id)
        }),
{
    let signatures = message_types::signatures_of(schema.statements.listing());
    let predicates = message_types::predicates_of(schema.statements.listing());
    let id = signatures[k].0;
    statements::lemma_members(schema.statements.listing());
    ordered_map::lemma_entry_found(signatures, k);
    let a = (k, i);
    if linking::is_open(signatures, predicates, a) {
        assert forall|c: (int, int)| #[trigger]
            linking::are_linked(
                signatures,
                predicates,
                a,
                c,
            ) implies signatures[c.0].1->Signature_0.discloses(c.1) by {
            assert(!linking::is_hidden(signatures, c));
        }
    }
    if is_to_be_shown(schema, id, i) {
        assert forall|c: (int, int)| #[trigger]
            linking::are_linked(signatures, predicates, a, c) implies !linking::is_hidden(
            signatures,
            c,
        ) by {
            assert(signatures[c.0].1->Signature_0.discloses(c.1));
        }
    }
}

/// A presentable schema has labels that fit.
proof fn lemma_labels_one_way(
    credentials: OrderedMap<Credential>,
    schema: PresentationSchema,
    k: int,
)
    requires
        schema.statements.wf(),
        creation::is_presentable(credentials, schema),
        0 <= k < message_types::signatures_of(schema.statements.listing()).len(),
    ensures
        ({
            let signatures = message_types::signatures_of(schema.statements.listing());
            schema.statements@[signatures[k].0] == signatures[k].1 ==> has_labels_that_fit(
                credentials,
                schema,
                signatures[k].0,
            )
        }),
{
    let signatures = message_types::signatures_of(schema.statements.listing());
    let predicates = message_types::predicates_of(schema.statements.listing());
    let revealed = message_types::revealed_claims(credentials@, signatures, predicates);
    let id = signatures[k].0;
    if schema.statements@[id] == signatures[k].1 {
        let asked = signatures[k].1->Signature_0;
        assert(challenge::text_fits(signatures[k].0));
        assert(creation::disclosure_fits(asked, credentials@[id], revealed[id]));
        assert forall|i: int| 0 <= i < credentials@[id].claims@.len() implies match
            #[trigger] asked.issuer.schema.label(i) {
            Some(label) => is_to_be_shown(schema, id, i) ==> encode_utf8(label).len() <= u32::MAX,
            None => false,
        } by {
            lemma_to_be_shown(credentials, schema, k, i);
            assert(signatures[k].1->Signature_0.issuer.schema.label(i) is Some);
            if is_to_be_shown(schema, id, i) {
                assert(revealed[id][i]);
                assert(challenge::text_fits(asked.issuer.schema.label(i)->0));
            }
        }
    }
}

/// A presentable schema compares claims of signatures.
proof fn lemma_compares_one_way(schema: PresentationSchema, k: int)
    requires
        schema.statements.wf(),
        message_types::shared_claims_are_signed(
            message_types::signatures_of(schema.statements.listing()),
            message_types::predicates_of(schema.statements.listing()),
        ),
        0 <= k < message_types::predicates_of(schema.statements.listing()).len(),
        message_types::predicates_of(schema.statements.listing())[k].1 is Equality,
    ensures
        compares_signatures(
            schema,
            message_types::predicates_of(
                schema.statements.listing(),
            )[k].1->Equality_0.ref_id_claim_index,
        ),
{
    let all = schema.statements.listing();
    let signatures = message_types::signatures_of(all);
    let predicates = message_types::predicates_of(all);
    let references = predicates[k].1->Equality_0.ref_id_claim_index;
    if references.listing().len() > 1 {
        assert forall|p: int| 0 <= p < references.listing().len() implies
            schema.statements@.dom().contains((#[trigger] references.listing()[p]).0)
            && schema.statements@[references.listing()[p].0] is Signature by {
            assert(predicates[k].1.references()[p] == references.listing()[p]);
            assert(ordered_map::has_key(signatures, predicates[k].1.references()[p].0));
            statements::statements_are_parted(all, references.listing()[p].0);
        }
    }
}

/// Where all fits, a schema is presentable.
proof fn lemma_presentable(credentials: OrderedMap<Credential>, schema: PresentationSchema)
    requires
        schema.statements.wf(),
        forall|id: Seq<char>| #[trigger]
            schema.statements@.dom().contains(id) ==> match schema.statements@[id] {
                Statements::Signature(s) => has_labels_that_fit(credentials, schema, id),
                Statements::Equality(e) => compares_signatures(schema, e.ref_id_claim_index),
                _ => true,
            },
    ensures
        creation::is_presentable(credentials, schema),
{
    let all = schema.statements.listing();
    let signatures = message_types::signatures_of(all);
    let predicates = message_types::predicates_of(all);
    let revealed = message_types::revealed_claims(credentials@, signatures, predicates);
    statements::lemma_members(all);
    message_types::lemma_parts(all);
    assert forall|k: int| 0 <= k < signatures.len() implies has_labels_that_fit(
        credentials,
        schema,
        (#[trigger] signatures[k]).0,
    ) && schema.statements@[signatures[k].0] == signatures[k].1 by {
        statements::statements_are_parted(all, signatures[k].0);
        ordered_map::lemma_entry_found(signatures, k);
        assert(ordered_map::has_key(signatures, signatures[k].0));
        assert(schema.statements@.dom().contains(signatures[k].0));
    }
    assert forall|k: int, i: int|
        0 <= k < signatures.len() && 0 <= i < credentials@[signatures[k].0].claims@.len() implies (
    #[trigger] signatures[k].1->Signature_0.issuer.schema.label(i)) is Some by {
        assert(has_labels_that_fit(credentials, schema, signatures[k].0));
        let labels = schema.statements@[signatures[k].0]->Signature_0.issuer.schema;
        assert(labels.label(i) is Some);
    }
    assert forall|k: int, j: int|
        0 <= k < predicates.len() && 0 <= j < predicates[k].1.references().len()
            && predicates[k].1.references().len() > 1 implies ordered_map::has_key(
        signatures,
        (#[trigger] predicates[k].1.references()[j]).0,
    ) by {
        let id = predicates[k].0;
        statements::statements_are_parted(all, id);
        ordered_map::lemma_entry_found(predicates, k);
        assert(ordered_map::has_key(predicates, id));
        assert(schema.statements@.dom().contains(id));
        assert(schema.statements@[id] == predicates[k].1);
        let e = predicates[k].1->Equality_0.ref_id_claim_index;
        assert(predicates[k].1 is Equality);
        assert(compares_signatures(schema, e));
        assert(e.listing()[j] == predicates[k].1.references()[j]);
        statements::statements_are_parted(all, e.listing()[j].0);
    }
    assert forall|k: int| 0 <= k < signatures.len() implies {
        &&& challenge::text_fits((#[trigger] signatures[k]).0)
        &&& creation::disclosure_fits(
            signatures[k].1->Signature_0,
            credentials@[signatures[k].0],
            revealed[signatures[k].0],
        )
    } by {
        let id = signatures[k].0;
        let asked = signatures[k].1->Signature_0;
        assert(has_labels_that_fit(credentials, schema, id));
        assert forall|i: int| 0 <= i < credentials@[id].claims@.len() && revealed[id][i] implies (
        #[trigger] asked.issuer.schema.label(i) matches Some(label) ==> challenge::text_fits(
            label,
        )) by {
            lemma_to_be_shown(credentials, schema, k, i);
        }
    }
}

/// A presentation that is made discloses, under the id of each signature statement and under no
/// other id, exactly the claims of its credential that take part in the proof of its signature as
/// revealed: each under its label, and as the credential has it. These are the claims that are
/// disclosed together with all claims that they are linked with.
pub proof fn what_is_revealed_is_disclosed<S: ProofSuite>(
    credentials: OrderedMap<Credential>,
    schema: PresentationSchema,
    nonce: &[u8],
    run: CreateRun<S>,
    presentation: Presentation,
    id: Seq<char>,
    label: Seq<char>,
)
    requires
        schema.statements.wf(),
        creation::created(credentials, schema, nonce, run, Ok(presentation)),
        schema.statements@[id] is Signature
            ==> schema.statements@[id]->Signature_0.issuer.schema.claim_indices.wf(),
    ensures
        presentation.disclosed_messages@.dom().contains(id) <==> schema.statements@.dom().contains(
            id,
        ) && schema.statements@[id] is Signature,
        presentation.disclosed_messages@.dom().contains(id) ==> {
            let labels = schema.statements@[id]->Signature_0.issuer.schema;
            let claims = credentials@[id].claims@;
            let shown = presentation.disclosed_messages@[id]@;
            &&& run.messages@[id]@.len() == claims.len()
            &&& shown.dom().contains(label) <==> exists|i: int|
                0 <= i < claims.len() && #[trigger] labels.label(i) == Some(label)
                    && run.messages@[id]@[i] is Revealed
            &&& forall|i: int|
                0 <= i < claims.len() && #[trigger] labels.label(i) == Some(label)
                    && run.messages@[id]@[i] is Revealed ==> shown[label]@ == claims[i]@
            &&& forall|i: int|
                0 <= i < claims.len() ==> (#[trigger] run.messages@[id]@[i] is Revealed)
                    == is_to_be_shown(schema, id, i)
        },
{
    let all = schema.statements.listing();
    let signatures = message_types::signatures_of(all);
    let predicates = message_types::predicates_of(all);
    let revealed = message_types::revealed_claims(credentials@, signatures, predicates);
    statements::statements_are_parted(all, id);
    if presentation.disclosed_messages@.dom().contains(id) {
        let k = asking::lemma_part(schema, id);
        let asked = schema.statements@[id]->Signature_0;
        let claims = credentials@[id].claims@;
        let table = message_types::lists(run.messages);
        message_types::lemma_message_types::<S>(
            credentials@,
            signatures,
            predicates,
            run.draws,
            table,
        );
        assert(table.dom().contains(id));
        assert(table[id] == run.messages@[id]@);
        assert forall|i: int| 0 <= i < claims.len() implies (
        #[trigger] run.messages@[id]@[i] is Revealed) == is_to_be_shown(schema, id, i)
            && revealed[id][i] == (run.messages@[id]@[i] is Revealed) by {
            lemma_to_be_shown(credentials, schema, k, i);
            assert(table[id][i] is Revealed == revealed[id][i]);
        }
        assert(presentation.disclosed_messages@[id] == run.disclosed[k]) by {
            assert(signatures[k].0 == id);
        }
        let shown = creation::shown_map(run.disclosed[k]);
        assert(shown == creation::disclosure(asked, credentials@[id], revealed[id]));
        assert(shown.dom().contains(label) <==> run.disclosed[k]@.dom().contains(label));
        if shown.dom().contains(label) {
            let i = choose|i: int|
                0 <= i < claims.len() && revealed[id][i] && #[trigger] asked.issuer.schema.label(i)
                    == Some(label);
            assert(run.messages@[id]@[i] is Revealed);
        }
        assert forall|i: int|
            0 <= i < claims.len() && #[trigger] asked.issuer.schema.label(i) == Some(label)
                && run.messages@[id]@[i] is Revealed implies shown.dom().contains(label)
            && presentation.disclosed_messages@[id]@[label]@ == claims[i]@ by {
            assert(revealed[id][i]);
            statement::lemma_label_index(asked, i);
            assert(shown.dom().contains(label));
            assert(run.disclosed[k]@[label]@ == shown[label]);
        }
    }
}

/// A statement that is neither about a signature nor a range is refused with an error: one about a
/// claim that is not of a credential, one about a claim that is revealed, or one that the suite
/// refuses when it is asked for the message and the blinder of the claim.
pub open spec fn is_refused<S: ProofSuite>(
    credentials: OrderedMap<Credential>,
    messages: OrderedMap<Vec<ProofMessage>>,
    nonce: &[u8],
    statement: Statements,
    e: Error,
) -> bool {
    match statement {
        Statements::Equality(q) => call_ensures(
            S::commit_equality,
            (&q, &credentials),
            Err::<S::EqualityBuilder, Error>(e),
        ),
        Statements::AccumulatorSetMembership(a) => if !credentials@.dom().contains(
            a.reference_id@,
        ) {
            e == Error::InvalidPresentationData
        } else {
            let message = messages@[a.reference_id@]@[a.claim as int];
            match message {
                ProofMessage::Revealed(_) => e == Error::InvalidClaimData,
                ProofMessage::Hidden(_) => call_ensures(
                    S::commit_membership,
                    (&a, &credentials@[a.reference_id@], message, nonce),
                    Err::<Committed<S::AccumulatorSetMembershipBuilder>, Error>(e),
                ),
            }
        },
        Statements::Commitment(c) => if !credentials@.dom().contains(c.reference_id@) {
            e == Error::InvalidPresentationData
        } else {
            match messages@[c.reference_id@]@[c.claim as int] {
                ProofMessage::Revealed(_) => e == Error::InvalidClaimData,
                ProofMessage::Hidden(HiddenMessage::ExternalBlinding(m, b)) => call_ensures(
                    S::commit_commitment,
                    (&c, m, b),
                    Err::<Committed<S::CommitmentBuilder>, Error>(e),
                ),
                _ => false,
            }
        },
        Statements::VerifiableEncryption(v) => if !credentials@.dom().contains(v.reference_id@) {
            e == Error::InvalidPresentationData
        } else {
            match messages@[v.reference_id@]@[v.claim as int] {
                ProofMessage::Revealed(_) => e == Error::InvalidClaimData,
                ProofMessage::Hidden(HiddenMessage::ExternalBlinding(m, b)) => call_ensures(
                    S::commit_encryption,
                    (&v, m, b),
                    Err::<Committed<S::VerifiableEncryptionBuilder>, Error>(e),
                ),
                _ => false,
            }
        },
        Statements::Signature(_) => false,
        Statements::Range(_) => false,
    }
}

/// The range statement at `k` is refused with an error: one that is not about a number of a
/// credential next to a commitment, or one that the suite refuses when it is asked with the builder
/// of that commitment, with that number and with all that is bound before.
pub open spec fn range_is_refused<S: ProofSuite>(
    credentials: OrderedMap<Credential>,
    schema: PresentationSchema,
    nonce: &[u8],
    run: CreateRun<S>,
    k: int,
    e: Error,
) -> bool {
    let predicates = message_types::predicates_of(schema.statements.listing());
    match predicates[k].1 {
        Statements::Range(r) => {
            let claims = credentials@[r.signature_id@].claims@;
            if credentials@.dom().contains(r.signature_id@) && r.claim < claims.len()
                && claims[r.claim as int] is Number && schema.statements@.dom().contains(
                r.reference_id@,
            ) && schema.statements@[r.reference_id@] is Commitment {
                exists|value: isize, commitment: S::CommitmentBuilder, transcript: Transcript|
                    claims[r.claim as int] == ClaimData::Number((NumberClaim { value }))
                        && transcript::transcript_log(transcript) == challenges::made_entries(
                        schema,
                        nonce@,
                        run,
                        k,
                    ) && is_builder_of(schema, run, r.reference_id@, commitment)
                        && #[trigger] call_ensures(
                        S::commit_range,
                        (&r, &commitment, value, &transcript),
                        Err::<Committed<S::RangeBuilder>, Error>(e),
                    )
            } else {
                e == Error::InvalidPresentationData
            }
        },
        _ => false,
    }
}

/// The commitment statement under `id` has this builder.
pub open spec fn is_builder_of<S: ProofSuite>(
    schema: PresentationSchema,
    run: CreateRun<S>,
    id: Seq<char>,
    commitment: S::CommitmentBuilder,
) -> bool {
    let predicates = message_types::predicates_of(schema.statements.listing());
    match run.predicate_steps[ordered_map::key_index(predicates, id)] {
        Step::Built(builder, _) => builder == suite::PresentationBuilders::<S>::Commitment(
            commitment,
        ),
        _ => false,
    }
}

/// A presentation of an answerable schema is not made only with a reason, the first that there is,
/// and that reason is the error. The signature statements come first: the suite refuses one when it
/// is asked with the signature and the messages of its credential. Then come all others but the
/// ranges, and then the ranges.
pub proof fn presentations_are_not_made_for_a_reason<S: ProofSuite>(
    credentials: OrderedMap<Credential>,
    schema: PresentationSchema,
    nonce: &[u8],
    run: CreateRun<S>,
    e: Error,
)
    requires
        schema.statements.wf(),
        creation::is_answerable(credentials, schema),
        creation::created(credentials, schema, nonce, run, Err(e)),
    ensures
        ({
            let signatures = message_types::signatures_of(schema.statements.listing());
            let predicates = message_types::predicates_of(schema.statements.listing());
            let (s, p, r) = (run.signature_steps, run.predicate_steps, run.range_steps);
            let signed = s.len() == signatures.len() && forall|j: int|
                0 <= j < s.len() ==> #[trigger] s[j] is Built;
            let committed = p.len() == predicates.len() && forall|j: int|
                0 <= j < p.len() ==> (#[trigger] p[j] is Built) == !(predicates[j].1 is Range);
            ||| {
                &&& 0 < s.len() <= signatures.len()
                &&& forall|j: int| 0 <= j < s.len() - 1 ==> #[trigger] s[j] is Built
                &&& call_ensures(
                    S::commit_signature,
                    (
                        &signatures[s.len() - 1].1->Signature_0,
                        &credentials@[signatures[s.len() - 1].0].signature,
                        &run.messages@[signatures[s.len() - 1].0],
                    ),
                    Err::<Committed<S::SignatureBuilder>, Error>(e),
                )
            }
            ||| {
                &&& signed
                &&& 0 < p.len() <= predicates.len()
                &&& forall|j: int|
                    0 <= j < p.len() - 1 ==> (#[trigger] p[j] is Built) == !(
                    predicates[j].1 is Range)
                &&& is_refused::<S>(
                    credentials,
                    run.messages,
                    nonce,
                    predicates[p.len() - 1].1,
                    e,
                )
            }
            ||| {
                &&& signed
                &&& committed
                &&& 0 < r.len() <= predicates.len()
                &&& forall|j: int|
                    0 <= j < r.len() - 1
                        ==> (#[trigger] r[j] is Built) == (predicates[j].1 is Range)
                &&& range_is_refused(credentials, schema, nonce, run, r.len() - 1, e)
            }
        }),
{
    let signatures = message_types::signatures_of(schema.statements.listing());
    let predicates = message_types::predicates_of(schema.statements.listing());
    let (s, p, r) = (run.signature_steps, run.predicate_steps, run.range_steps);
    message_types::lemma_parts(schema.statements.listing());
    assert forall|j: int| 0 <= j < s.len() implies (#[trigger] s[j] is Built || s[j] is Failed) by {
        assert(creation::signature_step(credentials, run.messages, signatures[j], s[j]));
    }
    assert forall|j: int| 0 <= j < p.len() && !(#[trigger] p[j] is Failed) implies (p[j] is Built)
        == !(predicates[j].1 is Range) by {
        assert(creation::predicate_step(
            credentials,
            run.messages,
            nonce,
            predicates[j].1,
            p[j],
        ));
        assert(!(predicates[j].1 is Signature));
    }
    if creation::stopped(s, e) {
        let k = s.len() - 1;
        assert(creation::signature_step(credentials, run.messages, signatures[k], s[k]));
    } else if creation::stopped(p, e) {
        let k = p.len() - 1;
        assert(p[k] == Step::<S>::Failed(e));
        lemma_refused(credentials, schema, nonce, run, e, k);
    } else {
        assert(creation::finished(p, predicates.len() as int));
        assert(creation::stopped(r, e));
        assert forall|j: int| 0 <= j < r.len() && !(#[trigger] r[j] is Failed) implies (
        r[j] is Built) == (predicates[j].1 is Range) by {}
        let k = r.len() - 1;
        assert(r[k] == Step::<S>::Failed(e));
        lemma_range_refused(credentials, schema, nonce, run, e, k);
    }
}

/// The reason of a statement that is not a range.
proof fn lemma_refused<S: ProofSuite>(
    credentials: OrderedMap<Credential>,
    schema: PresentationSchema,
    nonce: &[u8],
    run: CreateRun<S>,
    e: Error,
    k: int,
)
    requires
        schema.statements.wf(),
        creation::is_answerable(credentials, schema),
        creation::created(credentials, schema, nonce, run, Err(e)),
        0 <= k < run.predicate_steps.len(),
        run.predicate_steps[k] == Step::<S>::Failed(e),
    ensures
        is_refused::<S>(
            credentials,
            run.messages,
            nonce,
            message_types::predicates_of(schema.statements.listing())[k].1,
            e,
        ),
{
    let signatures = message_types::signatures_of(schema.statements.listing());
    let predicates = message_types::predicates_of(schema.statements.listing());
    let table = message_types::lists(run.messages);
    message_types::lemma_message_types::<S>(
        credentials@,
        signatures,
        predicates,
        run.draws,
        table,
    );
    assert(creation::predicate_step(
        credentials,
        run.messages,
        nonce,
        predicates[k].1,
        run.predicate_steps[k],
    ));
    if let Some(subject) = predicates[k].1.subject() {
        if credentials@.dom().contains(subject.0) {
            assert(predicates[k].1.references()[0] == subject);
            assert(message_types::reference_resolves(
                credentials@,
                predicates,
                predicates[k].1.references()[0],
            ));
            assert(message_types::is_referenced(predicates, subject.0, subject.1 as int));
            assert(table.dom().contains(subject.0));
            assert(table[subject.0][subject.1 as int]
                == run.messages@[subject.0]@[subject.1 as int]);
        }
    }
}

/// The reason of a range.
proof fn lemma_range_refused<S: ProofSuite>(
    credentials: OrderedMap<Credential>,
    schema: PresentationSchema,
    nonce: &[u8],
    run: CreateRun<S>,
    e: Error,
    k: int,
)
    requires
        schema.statements.wf(),
        creation::created(credentials, schema, nonce, run, Err(e)),
        creation::finished(
            run.predicate_steps,
            message_types::predicates_of(schema.statements.listing()).len() as int,
        ),
        0 <= k < run.range_steps.len(),
        run.range_steps[k] == Step::<S>::Failed(e),
    ensures
        range_is_refused(credentials, schema, nonce, run, k, e),
{
    let all = schema.statements.listing();
    let signatures = message_types::signatures_of(all);
    let predicates = message_types::predicates_of(all);
    let s = creation::built(run.signature_steps);
    let p = creation::built(run.predicate_steps);
    let n = predicates.len() as int;
    let registry = creation::registry(predicates, run.predicate_steps, s.len() as int, n);
    statements::lemma_members(all);
    let log = creation::log_before_ranges(nonce@, signatures, run) + creation::joined(
        creation::step_pieces(run.range_steps.take(k)),
    );
    assert(creation::range_step(
        credentials,
        s + p,
        registry,
        log,
        predicates[k].1,
        run.range_steps[k],
    ));
    challenges::lemma_made_entries(schema, nonce@, run, k);
    let range = predicates[k].1->Range_0;
    let reference = range.reference_id@;
    let claims = credentials@[range.signature_id@].claims@;
    statements::statements_are_parted(all, reference);
    if schema.statements@.dom().contains(reference) && schema.statements@[reference] is Commitment {
        let j = asking::lemma_part(schema, reference);
        assert(creation::predicate_step(
            credentials,
            run.messages,
            nonce,
            predicates[j].1,
            run.predicate_steps[j],
        ));
        assert(!(run.predicate_steps[j] is Failed));
        making::lemma_is_registered(predicates, run.predicate_steps, s.len() as int, n, j);
        let at = presentations::lemma_built_to(run.predicate_steps, j);
        assert((s + p)[s.len() + at] == p[at]);
        if credentials@.dom().contains(range.signature_id@) && range.claim < claims.len()
            && claims[range.claim as int] is Number {
            let commitment = run.predicate_steps[j]->Built_0->Commitment_0;
            let number = claims[range.claim as int]->Number_0;
            assert(claims[range.claim as int] == ClaimData::Number(number));
            let transcript = choose|transcript: Transcript|
                transcript::transcript_log(transcript) == log && #[trigger] call_ensures(
                    S::commit_range,
                    (&range, &commitment, number.value, &transcript),
                    Err::<Committed<S::RangeBuilder>, Error>(e),
                );
            assert(is_builder_of(schema, run, reference, commitment));
            assert(call_ensures(
                S::commit_range,
                (&range, &commitment, number.value, &transcript),
                Err::<Committed<S::RangeBuilder>, Error>(e),
            ));
        }
    } else if registry.dom().contains(reference) {
        let j = presentations::lemma_registered(
            predicates,
            run.predicate_steps,
            s.len() as int,
            n,
            reference,
        );
        let at = presentations::lemma_built_to(run.predicate_steps, j);
        assert((s + p)[s.len() + at] == p[at]);
        assert(ordered_map::has_key(predicates, reference)) by {
            assert(predicates[j].0 == reference);
        }
        ordered_map::lemma_entry_found(predicates, j);
        assert(schema.statements@[reference] == predicates[j].1);
        assert(creation::predicate_step(
            credentials,
            run.messages,
            nonce,
            predicates[j].1,
            run.predicate_steps[j],
        ));
    }
}

} // verus!
