//! What the challenge of a presentation is bound to.
use vstd::prelude::*;
use vstd::utf8::encode_utf8;
use crate::challenge;
use crate::claim::{ClaimData, EncodingView};
use crate::creation;
use crate::error::{CredxResult, Error};
use crate::message_types;
use crate::ordered_map;
use crate::ordered_map::OrderedMap;
use crate::presentation::Presentation;
use crate::scalar::Scalar;
use crate::statement::{PresentationSchema, Statements};
use crate::suite;
use crate::suite::ProofSuite;
use crate::transcript;
use crate::transcript::Contribution;
use crate::verification;
use crate::verification::{Check, VerifyRun};
use crate::verifiers;
use crate::verifiers::ProofVerifiers;

verus! {

/// Two lists of disclosed claims have the same labels, with the same encodings.
pub open spec fn show_the_same(
    a: Seq<(Seq<char>, EncodingView)>,
    b: Seq<(Seq<char>, EncodingView)>,
) -> bool {
    &&& a.len() == b.len()
    &&& forall|i: int|
        0 <= i < a.len() ==> (#[trigger] a[i]).0 == b[i].0 && a[i].1.bytes == b[i].1.bytes
            && a[i].1.scalar == b[i].1.scalar
}

/// What is bound of each disclosed claim, entry by entry.
proof fn lemma_claims_log(claims: Seq<(Seq<char>, EncodingView)>, n: int)
    requires
        0 <= n <= claims.len(),
    ensures
        challenge::claims_log(claims, n).len() == 4 * n,
        forall|i: int|
            0 <= i < n ==> {
                &&& challenge::claims_log(claims, n)[4 * i].1 == encode_utf8(
                    (#[trigger] claims[i]).0,
                )
                &&& challenge::claims_log(claims, n)[4 * i + 2].1 == claims[i].1.bytes
                &&& challenge::claims_log(claims, n)[4 * i + 3].1 == claims[i].1.scalar.bytes@
            },
    decreases n,
{
    if n > 0 {
        lemma_claims_log(claims, n - 1);
    }
}

/// What is bound of the disclosed claims of a statement tells the statement, the claims and where
/// it ends: whatever comes behind, the same log comes of the same id and the same claims alone.
pub proof fn disclosed_claims_are_told(
    id_a: Seq<char>,
    a: Seq<(Seq<char>, EncodingView)>,
    rest_a: Seq<(Seq<char>, Seq<u8>)>,
    id_b: Seq<char>,
    b: Seq<(Seq<char>, EncodingView)>,
    rest_b: Seq<(Seq<char>, Seq<u8>)>,
)
    requires
        challenge::disclosed_log(id_a, a) + rest_a == challenge::disclosed_log(id_b, b) + rest_b,
    ensures
        id_a == id_b,
        show_the_same(a, b),
        rest_a == rest_b,
{
    let x = challenge::disclosed_log(id_a, a);
    let y = challenge::disclosed_log(id_b, b);
    let log = x + rest_a;
    lemma_claims_log(a, a.len() as int);
    lemma_claims_log(b, b.len() as int);
    assert(log[0] == x[0] && (y + rest_b)[0] == y[0]);
    ordered_map::lemma_encoding_is_injective(id_a, id_b);
    assert(log[1] == x[1] && (y + rest_b)[1] == y[1]);
    transcript::lemma_uint_bytes_injective(a.len(), b.len());
    assert forall|i: int| 0 <= i < a.len() implies (#[trigger] a[i]).0 == b[i].0 && a[i].1.bytes
        == b[i].1.bytes && a[i].1.scalar == b[i].1.scalar by {
        let p = challenge::claims_log(a, a.len() as int);
        let q = challenge::claims_log(b, b.len() as int);
        assert forall|d: int| 0 <= d < 4 implies #[trigger] p[4 * i + d] == q[4 * i + d] by {
            assert(log[2 + 4 * i + d] == p[4 * i + d]);
            assert((y + rest_b)[2 + 4 * i + d] == q[4 * i + d]);
        }
        assert(p[4 * i + 0] == q[4 * i + 0]);
        assert(p[4 * i + 2] == q[4 * i + 2]);
        assert(p[4 * i + 3] == q[4 * i + 3]);
        assert(b[i] == b[i]);
        ordered_map::lemma_encoding_is_injective(a[i].0, b[i].0);
        assert(a[i].1.scalar.bytes =~= b[i].1.scalar.bytes);
    }
    assert(rest_a =~= log.skip(x.len() as int));
    assert(rest_b =~= (y + rest_b).skip(y.len() as int));
}

/// The challenge is bound to the nonce: different nonces make different logs, whatever else is
/// bound behind them.
pub proof fn nonces_are_told(
    a: Seq<u8>,
    schema_a: Seq<Contribution>,
    rest_a: Seq<(Seq<char>, Seq<u8>)>,
    b: Seq<u8>,
    schema_b: Seq<Contribution>,
    rest_b: Seq<(Seq<char>, Seq<u8>)>,
)
    requires
        challenge::opening_log(a, schema_a) + rest_a == challenge::opening_log(b, schema_b)
            + rest_b,
    ensures
        a == b,
{
    let x = challenge::opening_log(a, schema_a);
    let y = challenge::opening_log(b, schema_b);
    assert(x[6] == ("nonce"@, a));
    assert(y[6] == ("nonce"@, b));
    assert((x + rest_a)[6] == x[6]);
    assert((y + rest_b)[6] == y[6]);
}

/// A presentation that is accepted under two nonces shows two different logs from which the same
/// challenge is drawn.
pub proof fn acceptance_is_bound_to_the_nonce<S: ProofSuite>(
    presentation: Presentation,
    schema: &PresentationSchema,
    nonce_a: &[u8],
    run_a: VerifyRun,
    nonce_b: &[u8],
    run_b: VerifyRun,
)
    requires
        verification::verified::<S>(presentation, schema, nonce_a, run_a, Ok(())),
        verification::verified::<S>(presentation, schema, nonce_b, run_b, Ok(())),
        nonce_a@ != nonce_b@,
    ensures
        ({
            let signatures = message_types::signatures_of(schema.statements.listing());
            let a = verification::verification_log(nonce_a@, signatures, run_a);
            let b = verification::verification_log(nonce_b@, signatures, run_b);
            a != b && challenge::challenge_value(a) == challenge::challenge_value(b)
        }),
{
    let signatures = message_types::signatures_of(schema.statements.listing());
    let a = verification::verification_log(nonce_a@, signatures, run_a);
    let b = verification::verification_log(nonce_b@, signatures, run_b);
    let rest_a = creation::joined(
        verification::signature_pieces(signatures, run_a.shown, run_a.signature_checks),
    ) + creation::joined(verification::predicate_pieces(run_a.predicate_checks));
    let rest_b = creation::joined(
        verification::signature_pieces(signatures, run_b.shown, run_b.signature_checks),
    ) + creation::joined(verification::predicate_pieces(run_b.predicate_checks));
    assert(a =~= challenge::opening_log(nonce_a@, run_a.binding@) + rest_a);
    assert(b =~= challenge::opening_log(nonce_b@, run_b.binding@) + rest_b);
    if a == b {
        nonces_are_told(
            nonce_a@,
            run_a.binding@,
            rest_a,
            nonce_b@,
            run_b.binding@,
            rest_b,
        );
    }
}

/// Joined pieces begin with the first.
pub(crate) proof fn lemma_joined_front(pieces: Seq<Seq<(Seq<char>, Seq<u8>)>>)
    requires
        pieces.len() > 0,
    ensures
        creation::joined(pieces) == pieces[0] + creation::joined(pieces.drop_first()),
    decreases pieces.len(),
{
    let rest = pieces.drop_first();
    if pieces.len() == 1 {
        assert(pieces.drop_last() =~= seq![]);
        assert(rest =~= seq![]);
        assert(creation::joined(pieces.drop_last()) =~= seq![]);
        assert(creation::joined(pieces) =~= pieces[0] + creation::joined(rest));
    } else {
        lemma_joined_front(pieces.drop_last());
        assert(pieces.drop_last().drop_first() =~= rest.drop_last());
        assert(creation::joined(pieces) =~= pieces[0] + creation::joined(rest));
    }
}

/// Two series of checks bind the same contributions.
pub open spec fn bind_the_same(a: Seq<Check>, b: Seq<Check>) -> bool {
    &&& a.len() == b.len()
    &&& forall|k: int|
        0 <= k < a.len() ==> verification::bound(#[trigger] a[k]) == verification::bound(b[k])
}

/// Up to the statement at `k`, logs with the same contributions that are the same disclose the
/// same.
#[verifier::spinoff_prover]
proof fn lemma_disclosures_are_bound(
    signatures: Seq<(Seq<char>, Statements)>,
    a: VerifyRun,
    rest_a: Seq<(Seq<char>, Seq<u8>)>,
    b: VerifyRun,
    rest_b: Seq<(Seq<char>, Seq<u8>)>,
    k: int,
)
    requires
        bind_the_same(a.signature_checks, b.signature_checks),
        0 <= k <= a.signature_checks.len(),
        creation::joined(verification::signature_pieces(signatures, a.shown, a.signature_checks))
            + rest_a == creation::joined(
            verification::signature_pieces(signatures, b.shown, b.signature_checks),
        ) + rest_b,
    ensures
        creation::joined(
            verification::signature_pieces(signatures, a.shown, a.signature_checks).skip(k),
        ) + rest_a == creation::joined(
            verification::signature_pieces(signatures, b.shown, b.signature_checks).skip(k),
        ) + rest_b,
        forall|l: int| 0 <= l < k ==> show_the_same(#[trigger] a.shown[l], b.shown[l]),
    decreases k,
{
    let x = verification::signature_pieces(signatures, a.shown, a.signature_checks);
    let y = verification::signature_pieces(signatures, b.shown, b.signature_checks);
    if k == 0 {
        assert(x.skip(0) =~= x);
        assert(y.skip(0) =~= y);
    } else {
        let m = k - 1;
        lemma_disclosures_are_bound(signatures, a, rest_a, b, rest_b, m);
        lemma_joined_front(x.skip(m));
        lemma_joined_front(y.skip(m));
        assert(x.skip(m).drop_first() =~= x.skip(k));
        assert(y.skip(m).drop_first() =~= y.skip(k));
        let after_a = creation::joined(x.skip(k)) + rest_a;
        let after_b = creation::joined(y.skip(k)) + rest_b;
        assert(creation::joined(x.skip(m)) + rest_a =~= x[m] + after_a);
        assert(creation::joined(y.skip(m)) + rest_b =~= y[m] + after_b);
        let id = signatures[m].1->Signature_0.id@;
        let own = verification::bound(a.signature_checks[m]);
        assert(x[m] + after_a =~= challenge::disclosed_log(id, a.shown[m]) + (own + after_a));
        assert(y[m] + after_b =~= challenge::disclosed_log(id, b.shown[m]) + (own + after_b));
        disclosed_claims_are_told(id, a.shown[m], own + after_a, id, b.shown[m], own + after_b);
        assert(after_a =~= (own + after_a).skip(own.len() as int));
        assert(after_b =~= (own + after_b).skip(own.len() as int));
    }
}

/// The challenge is bound to what is disclosed: where the schema and the proofs contribute the
/// same, and all that is bound is the same, the labels and the encodings of the disclosed claims
/// are the same, for every signature statement.
pub proof fn disclosures_are_bound(
    nonce: Seq<u8>,
    signatures: Seq<(Seq<char>, Statements)>,
    a: VerifyRun,
    b: VerifyRun,
    k: int,
)
    requires
        transcript::contributed(a.binding@) == transcript::contributed(b.binding@),
        bind_the_same(a.signature_checks, b.signature_checks),
        verification::verification_log(nonce, signatures, a) == verification::verification_log(
            nonce,
            signatures,
            b,
        ),
        0 <= k < a.signature_checks.len(),
    ensures
        show_the_same(a.shown[k], b.shown[k]),
{
    let opening = challenge::opening_log(nonce, a.binding@);
    assert(opening == challenge::opening_log(nonce, b.binding@));
    let x = creation::joined(
        verification::signature_pieces(signatures, a.shown, a.signature_checks),
    );
    let y = creation::joined(
        verification::signature_pieces(signatures, b.shown, b.signature_checks),
    );
    let rest_a = creation::joined(verification::predicate_pieces(a.predicate_checks));
    let rest_b = creation::joined(verification::predicate_pieces(b.predicate_checks));
    assert(opening + x + rest_a == opening + y + rest_b);
    assert((opening + x + rest_a).skip(opening.len() as int) =~= x + rest_a);
    assert((opening + y + rest_b).skip(opening.len() as int) =~= y + rest_b);
    lemma_disclosures_are_bound(signatures, a, rest_a, b, rest_b, k + 1);
}

/// The suite binds a schema always in the same way.
pub open spec fn binds_the_same<S: ProofSuite>(schema: &PresentationSchema) -> bool {
    forall|a: Vec<Contribution>, b: Vec<Contribution>|
        #![trigger call_ensures(S::bind_schema, (schema,), a), call_ensures(
            S::bind_schema,
            (schema,),
            b,
        )]
        call_ensures(S::bind_schema, (schema,), a) && call_ensures(S::bind_schema, (schema,), b)
            ==> transcript::contributed(a@) == transcript::contributed(b@)
}

/// The suite says always the same of what a proof contributes.
pub open spec fn contributes_the_same<S: ProofSuite>(
    verifier: ProofVerifiers<'_>,
    challenge: Scalar,
) -> bool {
    forall|a: CredxResult<Vec<Contribution>>, b: CredxResult<Vec<Contribution>>|
        #![trigger verifiers::contribution_given::<S>(
            verifier,
            challenge,
            a,
        ), verifiers::contribution_given::<S>(verifier, challenge, b)]
        verifiers::contribution_given::<S>(verifier, challenge, a)
            && verifiers::contribution_given::<S>(verifier, challenge, b) ==> {
            &&& a is Ok <==> b is Ok
            &&& a is Ok ==> transcript::contributed(a->Ok_0@) == transcript::contributed(b->Ok_0@)
        }
}

/// Two entries of disclosed claims have different labels, or the suite encodes the claims
/// differently.
pub open spec fn claims_differ<S: ProofSuite>(
    a: (Seq<char>, ClaimData),
    b: (Seq<char>, ClaimData),
) -> bool {
    a.0 != b.0 || forall|e: EncodingView, f: EncodingView|
        suite::encoded::<S>(a.1, e) && suite::encoded::<S>(b.1, f) ==> e != f
}

/// One of two lists of disclosed claims has an entry that the other has not, or they differ in an
/// entry.
pub open spec fn disclosures_differ<S: ProofSuite>(
    a: OrderedMap<ClaimData>,
    b: OrderedMap<ClaimData>,
) -> bool {
    a.listing().len() != b.listing().len() || exists|i: int|
        0 <= i < a.listing().len() && claims_differ::<S>(#[trigger] a.listing()[i], b.listing()[i])
}

/// A presentation that is accepted is refused once what it discloses for a signature statement is
/// changed, wherever the suite answers the same when it is asked again and different logs give
/// different challenges.
pub proof fn changed_disclosures_are_refused<S: ProofSuite>(
    schema: &PresentationSchema,
    nonce: &[u8],
    accepted: Presentation,
    run_a: VerifyRun,
    changed: Presentation,
    run_b: VerifyRun,
    result: CredxResult<()>,
    k: int,
)
    requires
        verification::verified::<S>(accepted, schema, nonce, run_a, Ok(())),
        verification::verified::<S>(changed, schema, nonce, run_b, result),
        changed.proofs == accepted.proofs,
        changed.challenge == accepted.challenge,
        0 <= k < message_types::signatures_of(schema.statements.listing()).len(),
        disclosures_differ::<S>(
            verification::disclosed_for(
                accepted,
                message_types::signatures_of(schema.statements.listing())[k].1,
            ),
            verification::disclosed_for(
                changed,
                message_types::signatures_of(schema.statements.listing())[k].1,
            ),
        ),
        binds_the_same::<S>(schema),
        forall|verifier: ProofVerifiers<'_>| #[trigger]
            contributes_the_same::<S>(verifier, accepted.challenge),
        ({
            let signatures = message_types::signatures_of(schema.statements.listing());
            let a = verification::verification_log(nonce@, signatures, run_a);
            let b = verification::verification_log(nonce@, signatures, run_b);
            a != b ==> challenge::challenge_value(a) != challenge::challenge_value(b)
        }),
    ensures
        result == Err::<(), Error>(Error::InvalidPresentationData),
{
    let signatures = message_types::signatures_of(schema.statements.listing());
    let predicates = message_types::predicates_of(schema.statements.listing());
    message_types::lemma_parts(schema.statements.listing());
    lemma_checks_repeat::<S>(
        schema,
        nonce,
        signatures,
        accepted,
        run_a.signature_checks,
        changed,
        run_b.signature_checks,
    );
    lemma_checks_repeat::<S>(
        schema,
        nonce,
        predicates,
        accepted,
        run_a.predicate_checks,
        changed,
        run_b.predicate_checks,
    );
    let a = verification::verification_log(nonce@, signatures, run_a);
    let b = verification::verification_log(nonce@, signatures, run_b);
    if run_b.signature_checks.len() == signatures.len() && a == b {
        assert(bind_the_same(run_a.signature_checks, run_b.signature_checks));
        disclosures_are_bound(nonce@, signatures, run_a, run_b, k);
        let p = verification::disclosed_for(accepted, signatures[k].1);
        let q = verification::disclosed_for(changed, signatures[k].1);
        assert(verification::statement_check::<S>(
            schema,
            accepted,
            nonce,
            signatures[k],
            run_a.signature_checks[k],
        ));
        assert(signatures[k].1 is Signature);
        assert(verification::has_signature(accepted, signatures[k].0));
        assert(challenge::claims_encoded::<S>(p, run_a.shown[k]));
        assert(challenge::claims_encoded::<S>(q, run_b.shown[k]));
        if p.listing().len() == q.listing().len() {
            let i = choose|i: int|
                0 <= i < p.listing().len() && claims_differ::<S>(
                    #[trigger] p.listing()[i],
                    q.listing()[i],
                );
            let (e, f) = (run_a.shown[k][i], run_b.shown[k][i]);
            assert(suite::encoded::<S>(p.listing()[i].1, e.1));
            assert(suite::encoded::<S>(q.listing()[i].1, f.1));
            assert(e.1 == f.1);
        }
        assert(false);
    }
}

/// The same proofs are checked in the same way, wherever the suite answers the same when it is
/// asked again.
proof fn lemma_checks_repeat<S: ProofSuite>(
    schema: &PresentationSchema,
    nonce: &[u8],
    statements: Seq<(Seq<char>, Statements)>,
    a: Presentation,
    checks_a: Seq<Check>,
    b: Presentation,
    checks_b: Seq<Check>,
)
    requires
        verification::checks_made::<S>(schema, a, nonce, statements, checks_a),
        verification::checks_finished(checks_a, statements.len() as int),
        verification::checks_made::<S>(schema, b, nonce, statements, checks_b),
        b.proofs == a.proofs,
        b.challenge == a.challenge,
        forall|verifier: ProofVerifiers<'_>| #[trigger]
            contributes_the_same::<S>(verifier, a.challenge),
    ensures
        forall|k: int|
            0 <= k < checks_b.len() ==> !(#[trigger] checks_b[k] is Failed) && verification::bound(
                checks_a[k],
            ) == verification::bound(checks_b[k]),
{
    assert forall|k: int| 0 <= k < checks_b.len() implies !(#[trigger] checks_b[k] is Failed)
        && verification::bound(checks_a[k]) == verification::bound(checks_b[k]) by {
        assert(verification::statement_check::<S>(schema, a, nonce, statements[k], checks_a[k]));
        assert(verification::statement_check::<S>(schema, b, nonce, statements[k], checks_b[k]));
        assert(!(checks_a[k] is Failed));
        let v = verification::matched(schema, &a.proofs, nonce, statements[k])->0;
        assert(contributes_the_same::<S>(v, a.challenge));
        let x = Ok::<Vec<Contribution>, Error>(checks_a[k]->Bound_0);
        assert(verifiers::contribution_given::<S>(v, a.challenge, x));
        match checks_b[k] {
            Check::Bound(c) => {
                assert(verifiers::contribution_given::<S>(
                    v,
                    a.challenge,
                    Ok::<Vec<Contribution>, Error>(c),
                ));
            },
            Check::Failed(e) => {
                assert(verifiers::contribution_given::<S>(
                    v,
                    a.challenge,
                    Err::<Vec<Contribution>, Error>(e),
                ));
            },
        }
    }
}

} // verus!
