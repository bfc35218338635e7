//! What the challenge of a presentation is drawn from, message by message.
use vstd::prelude::*;
use vstd::utf8::encode_utf8;
use crate::challenge;
use crate::challenge::{FIELD_MODULUS, G1_GENERATOR, G2_GENERATOR, SUBGROUP_SIZE};
use crate::claim::{ClaimData, ClaimEncoding, EncodingView};
use crate::creation;
use crate::creation::{CreateRun, Step};
use crate::credential::Credential;
use crate::laws::binding;
use crate::message_types;
use crate::ordered_map::OrderedMap;
use crate::presentation::Presentation;
use crate::scalar;
use crate::statement::PresentationSchema;
use crate::suite;
use crate::suite::ProofSuite;
use crate::transcript;
use crate::transcript::Contribution;
use crate::verification;
use crate::verification::{Check, VerifyRun};

verus! {

/// What contributions say, in order.
pub open spec fn entries(contributions: Seq<Contribution>) -> Seq<(Seq<char>, Seq<u8>)> {
    Seq::new(contributions.len(), |i: int| contributions[i].entry())
}

/// The messages of every transcript before those of its statements.
pub open spec fn opening(nonce: Seq<u8>, binding: Seq<Contribution>) -> Seq<
    (Seq<char>, Seq<u8>),
> {
    seq![
        ("dom-sep"@, encode_utf8("credx presentation"@)),
        ("curve name"@, encode_utf8("BLS12-381"@)),
        ("curve G1 generator"@, G1_GENERATOR@),
        ("curve G2 generator"@, G2_GENERATOR@),
        ("subgroup size"@, SUBGROUP_SIZE@),
        ("field modulus"@, FIELD_MODULUS@),
        ("nonce"@, nonce),
    ] + entries(binding)
}

/// The messages of the disclosed claims of a statement: its id, how many claims there are, and for
/// each its label, its place, its bytes and its scalar.
pub open spec fn disclosure_entries(id: Seq<char>, shown: Seq<(Seq<char>, EncodingView)>) -> Seq<
    (Seq<char>, Seq<u8>),
> {
    seq![
        ("disclosed messages from statement "@, encode_utf8(id)),
        ("disclosed messages length"@, transcript::uint_bytes(shown.len())),
    ] + Seq::new(
        shown.len(),
        |i: int|
            seq![
                ("disclosed message label"@, encode_utf8(shown[i].0)),
                ("disclosed message index"@, transcript::uint_bytes(i as nat)),
                ("disclosed message value"@, shown[i].1.bytes),
                ("disclosed message scalar"@, shown[i].1.scalar.bytes@),
            ],
    ).flatten()
}

/// The messages that a step of making a presentation binds.
pub open spec fn step_entries<S: ProofSuite>(step: Step<S>) -> Seq<(Seq<char>, Seq<u8>)> {
    match step {
        Step::Built(_, contributions) => entries(contributions@),
        _ => seq![],
    }
}

/// The messages of the transcript of a presentation that is made, up to those of the first `n`
/// statements at the stage of the ranges.
pub open spec fn made_entries<S: ProofSuite>(
    schema: PresentationSchema,
    nonce: Seq<u8>,
    run: CreateRun<S>,
    n: int,
) -> Seq<(Seq<char>, Seq<u8>)> {
    let signatures = message_types::signatures_of(schema.statements.listing());
    opening(nonce, run.binding@) + Seq::new(
        run.signature_steps.len(),
        |k: int|
            disclosure_entries(signatures[k].0, run.shown[k]) + step_entries(
                run.signature_steps[k],
            ),
    ).flatten() + Seq::new(
        run.predicate_steps.len(),
        |k: int| step_entries(run.predicate_steps[k]),
    ).flatten() + Seq::new(n as nat, |k: int| step_entries(run.range_steps[k])).flatten()
}

/// The messages of the transcript of a presentation that is verified.
pub open spec fn verified_entries(
    schema: PresentationSchema,
    nonce: Seq<u8>,
    run: VerifyRun,
) -> Seq<(Seq<char>, Seq<u8>)> {
    let signatures = message_types::signatures_of(schema.statements.listing());
    opening(nonce, run.binding@) + Seq::new(
        run.signature_checks.len(),
        |k: int|
            disclosure_entries(signatures[k].1->Signature_0.id@, run.shown[k]) + check_entries(
                run.signature_checks[k],
            ),
    ).flatten() + Seq::new(
        run.predicate_checks.len(),
        |k: int| check_entries(run.predicate_checks[k]),
    ).flatten()
}

/// The messages that a check of a proof binds.
pub open spec fn check_entries(check: Check) -> Seq<(Seq<char>, Seq<u8>)> {
    match check {
        Check::Bound(contributions) => entries(contributions@),
        Check::Failed(_) => seq![],
    }
}

/// Pieces joined from the front or from the back are the same.
proof fn lemma_joined(pieces: Seq<Seq<(Seq<char>, Seq<u8>)>>)
    ensures
        creation::joined(pieces) == pieces.flatten(),
    decreases pieces.len(),
{
    if pieces.len() > 0 {
        binding::lemma_joined_front(pieces);
        lemma_joined(pieces.drop_first());
    }
}

/// What is bound of the first `n` disclosed claims, claim by claim.
proof fn lemma_claims(shown: Seq<(Seq<char>, EncodingView)>, n: int)
    requires
        0 <= n <= shown.len(),
    ensures
        challenge::claims_log(shown, n) == Seq::new(
            n as nat,
            |i: int|
                seq![
                    ("disclosed message label"@, encode_utf8(shown[i].0)),
                    ("disclosed message index"@, transcript::uint_bytes(i as nat)),
                    ("disclosed message value"@, shown[i].1.bytes),
                    ("disclosed message scalar"@, shown[i].1.scalar.bytes@),
                ],
        ).flatten(),
    decreases n,
{
    let pieces = Seq::new(
        n as nat,
        |i: int|
            seq![
                ("disclosed message label"@, encode_utf8(shown[i].0)),
                ("disclosed message index"@, transcript::uint_bytes(i as nat)),
                ("disclosed message value"@, shown[i].1.bytes),
                ("disclosed message scalar"@, shown[i].1.scalar.bytes@),
            ],
    );
    lemma_joined(pieces);
    if n > 0 {
        lemma_claims(shown, n - 1);
        let before = Seq::new(
            (n - 1) as nat,
            |i: int|
                seq![
                    ("disclosed message label"@, encode_utf8(shown[i].0)),
                    ("disclosed message index"@, transcript::uint_bytes(i as nat)),
                    ("disclosed message value"@, shown[i].1.bytes),
                    ("disclosed message scalar"@, shown[i].1.scalar.bytes@),
                ],
        );
        lemma_joined(before);
        assert(pieces.drop_last() =~= before);
        assert(pieces.last() =~= seq![
            ("disclosed message label"@, encode_utf8(shown[n - 1].0)),
            ("disclosed message index"@, transcript::uint_bytes((n - 1) as nat)),
            ("disclosed message value"@, shown[n - 1].1.bytes),
            ("disclosed message scalar"@, shown[n - 1].1.scalar.bytes@),
        ]);
    }
}

/// What is bound of contributions, of an opening and of disclosed claims.
proof fn lemma_entries(
    nonce: Seq<u8>,
    binding: Seq<Contribution>,
    id: Seq<char>,
    shown: Seq<(Seq<char>, EncodingView)>,
)
    ensures
        transcript::contributed(binding) == entries(binding),
        challenge::opening_log(nonce, binding) == opening(nonce, binding),
        challenge::disclosed_log(id, shown) == disclosure_entries(id, shown),
{
    assert(transcript::contributed(binding) =~= entries(binding));
    assert(challenge::opening_log(nonce, binding) =~= opening(nonce, binding));
    lemma_claims(shown, shown.len() as int);
}

/// What is bound while a presentation is made is what its messages say.
pub(crate) proof fn lemma_made_entries<S: ProofSuite>(
    schema: PresentationSchema,
    nonce: Seq<u8>,
    run: CreateRun<S>,
    n: int,
)
    requires
        0 <= n <= run.range_steps.len(),
    ensures
        creation::log_before_ranges(
            nonce,
            message_types::signatures_of(schema.statements.listing()),
            run,
        ) + creation::joined(creation::step_pieces(run.range_steps.take(n))) == made_entries(
            schema,
            nonce,
            run,
            n,
        ),
{
    let signatures = message_types::signatures_of(schema.statements.listing());
    lemma_entries(nonce, run.binding@, seq![], seq![]);
    let a = creation::signature_pieces(signatures, run.shown, run.signature_steps);
    let x = Seq::new(
        run.signature_steps.len(),
        |k: int|
            disclosure_entries(signatures[k].0, run.shown[k]) + step_entries(
                run.signature_steps[k],
            ),
    );
    assert forall|k: int| 0 <= k < a.len() implies a[k] == x[k] by {
        lemma_entries(nonce, run.binding@, signatures[k].0, run.shown[k]);
        lemma_step(run.signature_steps[k]);
    }
    assert(a =~= x);
    lemma_joined(a);
    let b = creation::step_pieces(run.predicate_steps);
    let y = Seq::new(run.predicate_steps.len(), |k: int| step_entries(run.predicate_steps[k]));
    assert forall|k: int| 0 <= k < b.len() implies b[k] == y[k] by {
        lemma_step(run.predicate_steps[k]);
    }
    assert(b =~= y);
    lemma_joined(b);
    let c = creation::step_pieces(run.range_steps.take(n));
    let z = Seq::new(n as nat, |k: int| step_entries(run.range_steps[k]));
    assert forall|k: int| 0 <= k < c.len() implies c[k] == z[k] by {
        lemma_step(run.range_steps[k]);
    }
    assert(c =~= z);
    lemma_joined(c);
}

/// What a step binds.
proof fn lemma_step<S: ProofSuite>(step: Step<S>)
    ensures
        creation::bound(step) == step_entries(step),
{
    if let Step::Built(_, contributions) = step {
        assert(transcript::contributed(contributions@) =~= entries(contributions@));
    }
}

/// The challenge of a presentation that is made is drawn from all that is bound, each message under
/// its label, and is an element of the field: the application, the curve, the nonce, what the suite
/// binds of the schema, for each signature statement its disclosed claims as the
/// suite encodes them and what its commitment contributes, what the other commitments contribute,
/// and what those of the ranges contribute.
pub proof fn challenges_are_drawn_from_all_that_is_bound<S: ProofSuite>(
    credentials: OrderedMap<Credential>,
    schema: PresentationSchema,
    nonce: &[u8],
    run: CreateRun<S>,
    presentation: Presentation,
)
    requires
        creation::created(credentials, schema, nonce, run, Ok(presentation)),
    ensures
        call_ensures(S::bind_schema, (&schema,), run.binding),
        run.signature_steps.len() == message_types::signatures_of(
            schema.statements.listing(),
        ).len(),
        run.predicate_steps.len() == message_types::predicates_of(
            schema.statements.listing(),
        ).len(),
        run.range_steps.len() == run.predicate_steps.len(),
        scalar::le_value(presentation.challenge.bytes@) == scalar::le_value(
            transcript::drawn_bytes(
                made_entries(schema, nonce@, run, run.range_steps.len() as int),
                "challenge bytes"@,
                64,
            ),
        ) % 0x73eda753299d7d483339d80809a1d80553bda402fffe5bfeffffffff00000001nat,
        forall|k: int|
            0 <= k < run.signature_steps.len() ==> is_shown::<S>(
                presentation.disclosed_messages@[message_types::signatures_of(
                    schema.statements.listing(),
                )[k].0],
                #[trigger] run.shown[k],
            ),
{
    lemma_made_entries(schema, nonce@, run, run.range_steps.len() as int);
    assert(run.range_steps.take(run.range_steps.len() as int) =~= run.range_steps);
    let signatures = message_types::signatures_of(schema.statements.listing());
    assert forall|k: int| 0 <= k < run.signature_steps.len() implies is_shown::<S>(
        presentation.disclosed_messages@[signatures[k].0],
        #[trigger] run.shown[k],
    ) by {
        assert(presentation.disclosed_messages@[signatures[k].0] == run.disclosed[k]);
        assert(challenge::claims_encoded::<S>(run.disclosed[k], run.shown[k]));
        lemma_shown::<S>(run.disclosed[k], run.shown[k]);
    }
}

/// The labels of disclosed claims in order, each with an encoding that the suite gives of the
/// claim.
pub open spec fn is_shown<S: ProofSuite>(
    claims: OrderedMap<ClaimData>,
    shown: Seq<(Seq<char>, EncodingView)>,
) -> bool {
    &&& shown.len() == claims.listing().len()
    &&& forall|i: int|
        0 <= i < shown.len() ==> (#[trigger] shown[i]).0 == claims.listing()[i].0 && exists|
            e: ClaimEncoding,
        | #[trigger]
            call_ensures(S::encode_claim, (&claims.listing()[i].1,), e) && e@ == shown[i].1
}

/// The encodings of disclosed claims are shown.
proof fn lemma_shown<S: ProofSuite>(
    claims: OrderedMap<ClaimData>,
    shown: Seq<(Seq<char>, EncodingView)>,
)
    requires
        challenge::claims_encoded::<S>(claims, shown),
    ensures
        is_shown::<S>(claims, shown),
{
    assert forall|i: int| 0 <= i < shown.len() implies (#[trigger] shown[i]).0
        == claims.listing()[i].0 && exists|e: ClaimEncoding| #[trigger]
        call_ensures(S::encode_claim, (&claims.listing()[i].1,), e) && e@ == shown[i].1 by {
        assert(suite::encoded::<S>(claims.listing()[i].1, shown[i].1));
    }
}

/// A presentation is accepted only where its challenge is drawn again from all that is bound, each
/// message under its label: the curve, the nonce, what the suite binds of the schema, for each
/// signature statement the claims that the presentation discloses under the id of the statement, as
/// the suite encodes them, and what its proof contributes, and what the other proofs contribute.
pub proof fn challenges_of_accepted_presentations_are_drawn_again<S: ProofSuite>(
    presentation: Presentation,
    schema: &PresentationSchema,
    nonce: &[u8],
    run: VerifyRun,
)
    requires
        verification::verified::<S>(presentation, schema, nonce, run, Ok(())),
    ensures
        call_ensures(S::bind_schema, (schema,), run.binding),
        run.signature_checks.len() == message_types::signatures_of(
            schema.statements.listing(),
        ).len(),
        run.predicate_checks.len() == message_types::predicates_of(
            schema.statements.listing(),
        ).len(),
        scalar::le_value(presentation.challenge.bytes@) == scalar::le_value(
            transcript::drawn_bytes(
                verified_entries(*schema, nonce@, run),
                "challenge bytes"@,
                64,
            ),
        ) % 0x73eda753299d7d483339d80809a1d80553bda402fffe5bfeffffffff00000001nat,
        forall|k: int|
            0 <= k < run.signature_checks.len() ==> is_shown::<S>(
                presentation.disclosed_messages@[message_types::signatures_of(
                    schema.statements.listing(),
                )[k].1->Signature_0.id@],
                #[trigger] run.shown[k],
            ),
{
    let signatures = message_types::signatures_of(schema.statements.listing());
    message_types::lemma_parts(schema.statements.listing());
    lemma_verified_entries(*schema, nonce@, run);
    assert forall|k: int| 0 <= k < run.signature_checks.len() implies is_shown::<S>(
        presentation.disclosed_messages@[signatures[k].1->Signature_0.id@],
        #[trigger] run.shown[k],
    ) by {
        assert(verification::statement_check::<S>(
            schema,
            presentation,
            nonce,
            signatures[k],
            run.signature_checks[k],
        ));
        assert(!(run.signature_checks[k] is Failed));
        assert(signatures[k].1 is Signature);
        assert(verification::has_signature(presentation, signatures[k].0));
        lemma_shown::<S>(
            verification::disclosed_for(presentation, signatures[k].1),
            run.shown[k],
        );
    }
}

/// What is bound while a presentation is verified is what its messages say.
pub(crate) proof fn lemma_verified_entries(
    schema: PresentationSchema,
    nonce: Seq<u8>,
    run: VerifyRun,
)
    ensures
        verification::verification_log(
            nonce,
            message_types::signatures_of(schema.statements.listing()),
            run,
        ) == verified_entries(schema, nonce, run),
{
    let signatures = message_types::signatures_of(schema.statements.listing());
    lemma_entries(nonce, run.binding@, seq![], seq![]);
    let a = verification::signature_pieces(signatures, run.shown, run.signature_checks);
    let x = Seq::new(
        run.signature_checks.len(),
        |k: int|
            disclosure_entries(signatures[k].1->Signature_0.id@, run.shown[k]) + check_entries(
                run.signature_checks[k],
            ),
    );
    assert forall|k: int| 0 <= k < a.len() implies a[k] == x[k] by {
        lemma_entries(nonce, run.binding@, signatures[k].1->Signature_0.id@, run.shown[k]);
        lemma_check(run.signature_checks[k]);
    }
    assert(a =~= x);
    lemma_joined(a);
    let b = verification::predicate_pieces(run.predicate_checks);
    let y = Seq::new(run.predicate_checks.len(), |k: int| check_entries(run.predicate_checks[k]));
    assert forall|k: int| 0 <= k < b.len() implies b[k] == y[k] by {
        lemma_check(run.predicate_checks[k]);
    }
    assert(b =~= y);
    lemma_joined(b);
}

/// What a check binds.
proof fn lemma_check(check: Check)
    ensures
        verification::bound(check) == check_entries(check),
{
    if let Check::Bound(contributions) = check {
        assert(transcript::contributed(contributions@) =~= entries(contributions@));
    }
}

} // verus!
