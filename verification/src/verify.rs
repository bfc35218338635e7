//! Verifying a presentation.
use vstd::prelude::*;
use merlin::Transcript;
use crate::challenge;
use crate::claim::{ClaimData, EncodingView};
use crate::creation;
use crate::error::{CredxResult, Error};
use crate::message_types;
use crate::ordered_map::OrderedMap;
use crate::presentation::Presentation;
use crate::proofs::PresentationProofs;
use crate::scalar;
use crate::scalar::Scalar;
use crate::statement::{PresentationSchema, Statements};
use crate::suite::ProofSuite;
use crate::transcript;
use crate::verification;
use crate::verification::{Check, VerifyRun};
use crate::verifiers;
use crate::verifiers::ProofVerifiers;

verus! {

impl Presentation {
    /// Verifies this presentation.
    ///
    /// It is accepted where every statement has a proof of its kind under its id, the challenge is
    /// the one that is drawn again from the nonce, the schema, the disclosed claims and what the
    /// proofs contribute, and the suite accepts each proof. A range statement is never accepted.
    pub fn verify<S: ProofSuite>(&self, schema: &PresentationSchema, nonce: &[u8]) -> (r:
        CredxResult<()>)
        requires
            nonce@.len() <= u32::MAX,
            verification::disclosures_are_there(
                *self,
                message_types::signatures_of(schema.statements.listing()),
            ),
        ensures
            exists|run: VerifyRun| #[trigger] verification::verified::<S>(
                *self,
                schema,
                nonce,
                run,
                r,
            ),
    {
        let binding = S::bind_schema(schema);
        let mut transcript = Self::open_transcript(nonce, &binding);
        let (signatures, predicates) = Self::split_statements(schema);
        let ghost sigs = message_types::borrowed(signatures);
        let ghost preds = message_types::borrowed(predicates);
        let ghost mut run = VerifyRun {
            binding,
            shown: seq![],
            signature_checks: seq![],
            predicate_checks: seq![],
            verdicts: seq![],
        };
        proof {
            message_types::lemma_parts(schema.statements.listing());
        }
        let mut verifiers: Vec<ProofVerifiers<'_>> = Vec::new();
        let (error, Ghost(made)) = self.check_signatures::<S>(
            schema,
            nonce,
            &signatures,
            &mut transcript,
            &mut verifiers,
        );
        proof {
            run.signature_checks = made.0;
            run.shown = made.1;
        }
        if let Some(e) = error {
            assert(verification::verified::<S>(*self, schema, nonce, run, Err(e)));
            return Err(e);
        }
        let (error, Ghost(predicate_checks)) = self.check_predicates::<S>(
            schema,
            nonce,
            &predicates,
            &mut transcript,
            &mut verifiers,
        );
        proof {
            run.predicate_checks = predicate_checks;
        }
        if let Some(e) = error {
            assert(verification::verified::<S>(*self, schema, nonce, run, Err(e)));
            return Err(e);
        }
        let ghost log = transcript::transcript_log(transcript);
        let challenge = Self::draw_challenge(transcript);
        assert(log =~= verification::verification_log(nonce@, sigs, run));
        if !challenge.same(&self.challenge) {
            proof {
                if self.challenge.value() == challenge.value() {
                    scalar::lemma_le_value_injective(self.challenge.bytes@, challenge.bytes@);
                    assert(self.challenge.bytes =~= challenge.bytes);
                }
                assert(verification::verified::<S>(
                    *self,
                    schema,
                    nonce,
                    run,
                    Err(Error::InvalidPresentationData),
                ));
            }
            return Err(Error::InvalidPresentationData);
        }
        let (r, Ghost(verdicts)) = Self::judge::<S>(&verifiers, self.challenge);
        proof {
            run.verdicts = verdicts;
            assert(verification::verified::<S>(*self, schema, nonce, run, r));
        }
        r
    }

    /// Verifies a presentation of which nothing is known: nothing comes back where the nonce is too
    /// long for a transcript, or where the disclosed claims of a signature statement with a proof
    /// of a signature are missing or too long.
    pub fn verify_untrusted<S: ProofSuite>(&self, schema: &PresentationSchema, nonce: &[u8]) -> (r:
        Option<CredxResult<()>>)
        ensures
            r is Some <==> nonce@.len() <= u32::MAX && verification::disclosures_are_there(
                *self,
                message_types::signatures_of(schema.statements.listing()),
            ),
            r matches Some(result) ==> exists|run: VerifyRun| #[trigger]
                verification::verified::<S>(*self, schema, nonce, run, result),
    {
        if nonce.len() > u32::MAX as usize || !self.has_disclosures(schema) {
            return None;
        }
        Some(self.verify::<S>(schema, nonce))
    }

    /// Whether the disclosed claims of each signature statement are there, up to the first
    /// signature statement without a proof of a signature.
    fn has_disclosures(&self, schema: &PresentationSchema) -> (r: bool)
        ensures
            r == verification::disclosures_are_there(
                *self,
                message_types::signatures_of(schema.statements.listing()),
            ),
    {
        let (signatures, _) = Self::split_statements(schema);
        let ghost all = message_types::borrowed(signatures);
        let n = signatures.len();
        let mut k: usize = 0;
        proof {
            message_types::lemma_parts(schema.statements.listing());
        }
        while k < n
            invariant
                n == all.len(),
                all == message_types::borrowed(signatures),
                all == message_types::signatures_of(schema.statements.listing()),
                forall|k: int| 0 <= k < all.len() ==> (#[trigger] all[k]).1 is Signature,
                k <= n,
                forall|j: int|
                    0 <= j < k ==> verification::has_signature(*self, (#[trigger] all[j]).0)
                        && verification::disclosure_is_there(*self, all[j].1),
            decreases n - k,
        {
            let id = signatures.key_at(k);
            let statement = *signatures.value_at(k);
            assert(all[k as int] == (id@, *statement));
            match self.proofs.get(id.as_str()) {
                Some(PresentationProofs::Signature(_)) => {},
                _ => {
                    assert(!verification::has_signature(*self, all[k as int].0));
                    return true;
                },
            }
            if let Statements::Signature(ss) = statement {
                let there = match self.disclosed_messages.get(ss.id.as_str()) {
                    Some(claims) => Self::text_fits(&ss.id) && Self::labels_fit(claims),
                    None => false,
                };
                if !there {
                    assert(forall|j: int|
                        0 <= j <= k ==> verification::has_signature(*self, (#[trigger] all[j]).0));
                    assert(!verification::disclosure_is_there(*self, all[k as int].1));
                    return false;
                }
            }
            k = k + 1;
        }
        true
    }

    /// Whether a text is short enough for a transcript.
    pub(crate) fn text_fits(text: &String) -> (r: bool)
        ensures
            r == challenge::text_fits(text@),
    {
        text.as_str().as_bytes().len() <= u32::MAX as usize
    }

    /// Whether the labels of disclosed claims are short enough for a transcript.
    fn labels_fit(claims: &OrderedMap<ClaimData>) -> (r: bool)
        ensures
            r == challenge::labels_fit(*claims),
    {
        let n = claims.len();
        let mut i: usize = 0;
        while i < n
            invariant
                n == claims.listing().len(),
                i <= n,
                forall|j: int|
                    0 <= j < i ==> challenge::text_fits((#[trigger] claims.listing()[j]).0),
            decreases n - i,
        {
            if !Self::text_fits(claims.key_at(i)) {
                assert(!challenge::text_fits(claims.listing()[i as int].0));
                return false;
            }
            i = i + 1;
        }
        true
    }

    /// The verifier of a statement, if there is a proof of its kind under its id.
    fn verifier_of<'a>(
        schema: &'a PresentationSchema,
        proofs: &'a OrderedMap<PresentationProofs>,
        nonce: &'a [u8],
        id: &String,
        statement: &'a Statements,
    ) -> (r: Option<ProofVerifiers<'a>>)
        ensures
            r == verification::matched(schema, proofs, nonce, (id@, *statement)),
    {
        match (statement, proofs.get(id.as_str())) {
            (Statements::Signature(s), Some(PresentationProofs::Signature(p))) => Some(
                ProofVerifiers::Signature(s, p),
            ),
            (
                Statements::AccumulatorSetMembership(s),
                Some(PresentationProofs::AccumulatorSetMembership(p)),
            ) => Some(ProofVerifiers::AccumulatorSetMembership(s, p, nonce)),
            (Statements::Equality(s), Some(PresentationProofs::Equality(_))) => Some(
                ProofVerifiers::Equality(s, schema, proofs),
            ),
            (Statements::Commitment(s), Some(PresentationProofs::Commitment(p))) => Some(
                ProofVerifiers::Commitment(s, p),
            ),
            (
                Statements::VerifiableEncryption(s),
                Some(PresentationProofs::VerifiableEncryption(p)),
            ) => Some(ProofVerifiers::VerifiableEncryption(s, p)),
            (_, _) => None,
        }
    }

    /// Asks the suite what a proof binds.
    fn ask<S: ProofSuite>(verifier: &ProofVerifiers<'_>, challenge: Scalar) -> (r: Check)
        ensures
            verification::asked::<S>(*verifier, challenge, r),
    {
        match verifier.add_challenge_contribution::<S>(challenge) {
            Ok(c) => Check::Bound(c),
            Err(e) => Check::Failed(e),
        }
    }

    /// Goes through the signature statements: binds the disclosed claims and what the proofs
    /// contribute, and collects the verifiers. Gives back the error that ended it, if any.
    #[verifier::spinoff_prover]
    fn check_signatures<'a, S: ProofSuite>(
        &'a self,
        schema: &'a PresentationSchema,
        nonce: &'a [u8],
        signatures: &OrderedMap<&'a Statements>,
        transcript: &mut Transcript,
        verifiers: &mut Vec<ProofVerifiers<'a>>,
    ) -> (r: (Option<Error>, Ghost<(Seq<Check>, Seq<Seq<(Seq<char>, EncodingView)>>)>))
        requires
            forall|k: int|
                0 <= k < message_types::borrowed(*signatures).len() ==> (
                #[trigger] message_types::borrowed(*signatures)[k]).1 is Signature,
            verification::disclosures_are_there(*self, message_types::borrowed(*signatures)),
            old(verifiers)@.len() == 0,
        ensures
            verification::checks_made::<S>(
                schema,
                *self,
                nonce,
                message_types::borrowed(*signatures),
                r.1@.0,
            ),
            verification::disclosures_encoded::<S>(
                *self,
                message_types::borrowed(*signatures),
                r.1@.1,
            ),
            r.1@.1.len() == r.1@.0.len(),
            r.0 matches Some(e) ==> verification::checks_stopped(r.1@.0, e),
            r.0 is None ==> {
                &&& verification::checks_finished(
                    r.1@.0,
                    message_types::borrowed(*signatures).len() as int,
                )
                &&& final(verifiers)@ == verification::all_matched(
                    schema,
                    &self.proofs,
                    nonce,
                    message_types::borrowed(*signatures),
                )
                &&& transcript::transcript_log(*final(transcript)) == transcript::transcript_log(
                    *old(transcript),
                ) + creation::joined(
                    verification::signature_pieces(
                        message_types::borrowed(*signatures),
                        r.1@.1,
                        r.1@.0,
                    ),
                )
            },
    {
        let ghost all = message_types::borrowed(*signatures);
        let ghost opening = transcript::transcript_log(*transcript);
        let ghost mut checks: Seq<Check> = seq![];
        let ghost mut shown: Seq<Seq<(Seq<char>, EncodingView)>> = seq![];
        let n = signatures.len();
        let mut k: usize = 0;
        proof {
            assert(all.take(0) =~= seq![]);
            assert(verification::signature_pieces(all, shown, checks) =~= seq![]);
            assert(opening =~= opening + creation::joined(
                verification::signature_pieces(all, shown, checks),
            ));
            assert(verifiers@ =~= verification::all_matched(
                schema,
                &self.proofs,
                nonce,
                all.take(0),
            ));
        }
        while k < n
            invariant
                n == all.len(),
                all == message_types::borrowed(*signatures),
                k <= n,
                forall|k: int| 0 <= k < all.len() ==> (#[trigger] all[k]).1 is Signature,
                verification::disclosures_are_there(*self, all),
                forall|j: int|
                    0 <= j < k ==> verification::has_signature(*self, (#[trigger] all[j]).0),
                checks.len() == k,
                shown.len() == k,
                verification::disclosures_encoded::<S>(*self, all, shown),
                verification::checks_made::<S>(schema, *self, nonce, all, checks),
                forall|p: int| 0 <= p < k ==> !(#[trigger] checks[p] is Failed),
                verifiers@ == verification::all_matched(
                    schema,
                    &self.proofs,
                    nonce,
                    all.take(k as int),
                ),
                transcript::transcript_log(*transcript) == opening + creation::joined(
                    verification::signature_pieces(all, shown, checks),
                ),
            decreases n - k,
        {
            let id = signatures.key_at(k);
            let statement = *signatures.value_at(k);
            assert(all[k as int] == (id@, *statement));
            match (statement, Self::verifier_of(schema, &self.proofs, nonce, id, statement)) {
                (Statements::Signature(ss), Some(verifier)) => {
                    proof {
                        assert(verification::has_signature(*self, all[k as int].0));
                        assert(verification::disclosure_is_there(*self, all[k as int].1));
                    }
                    let dm = self.disclosed_messages.get(ss.id.as_str()).unwrap();
                    let Ghost(encodings) =
                        Self::add_disclosed_messages_challenge_contribution::<S>(
                        &ss.id,
                        dm,
                        transcript,
                    );
                    let check = Self::ask::<S>(&verifier, self.challenge);
                    proof {
                        lemma_signature_checked::<S>(
                            schema,
                            *self,
                            nonce,
                            all,
                            opening,
                            (shown, checks),
                            encodings,
                            check,
                        );
                        checks = checks.push(check);
                        shown = shown.push(encodings);
                    }
                    match check {
                        Check::Bound(contributions) => {
                            transcript::append_contributions(transcript, &contributions);
                            verifiers.push(verifier);
                        },
                        Check::Failed(e) => {
                            return (Some(e), Ghost((checks, shown)));
                        },
                    }
                },
                (_, _) => {
                    proof {
                        let check = Check::Failed(Error::InvalidPresentationData);
                        lemma_signature_checked::<S>(
                            schema,
                            *self,
                            nonce,
                            all,
                            opening,
                            (shown, checks),
                            seq![],
                            check,
                        );
                        checks = checks.push(check);
                        shown = shown.push(seq![]);
                    }
                    return (Some(Error::InvalidPresentationData), Ghost((checks, shown)));
                },
            }
            k = k + 1;
        }
        proof {
            assert(all.take(n as int) =~= all);
        }
        (None, Ghost((checks, shown)))
    }

    /// Goes through the statements that are not about signatures: binds what the proofs contribute,
    /// and collects the verifiers. Gives back the error that ended it, if any.
    fn check_predicates<'a, S: ProofSuite>(
        &'a self,
        schema: &'a PresentationSchema,
        nonce: &'a [u8],
        predicates: &OrderedMap<&'a Statements>,
        transcript: &mut Transcript,
        verifiers: &mut Vec<ProofVerifiers<'a>>,
    ) -> (r: (Option<Error>, Ghost<Seq<Check>>))
        ensures
            verification::checks_made::<S>(
                schema,
                *self,
                nonce,
                message_types::borrowed(*predicates),
                r.1@,
            ),
            r.0 matches Some(e) ==> verification::checks_stopped(r.1@, e),
            r.0 is None ==> {
                &&& verification::checks_finished(
                    r.1@,
                    message_types::borrowed(*predicates).len() as int,
                )
                &&& final(verifiers)@ == old(verifiers)@ + verification::all_matched(
                    schema,
                    &self.proofs,
                    nonce,
                    message_types::borrowed(*predicates),
                )
                &&& transcript::transcript_log(*final(transcript)) == transcript::transcript_log(
                    *old(transcript),
                ) + creation::joined(verification::predicate_pieces(r.1@))
            },
    {
        let ghost all = message_types::borrowed(*predicates);
        let ghost opening = transcript::transcript_log(*transcript);
        let ghost given = verifiers@;
        let ghost mut checks: Seq<Check> = seq![];
        let n = predicates.len();
        let mut k: usize = 0;
        proof {
            assert(all.take(0) =~= seq![]);
            assert(verification::predicate_pieces(checks) =~= seq![]);
            assert(opening =~= opening + creation::joined(verification::predicate_pieces(checks)));
            assert(given =~= given + verification::all_matched(
                schema,
                &self.proofs,
                nonce,
                all.take(0),
            ));
        }
        while k < n
            invariant
                n == all.len(),
                all == message_types::borrowed(*predicates),
                k <= n,
                checks.len() == k,
                forall|p: int|
                    0 <= p < k ==> verification::statement_check::<S>(
                        schema,
                        *self,
                        nonce,
                        all[p],
                        #[trigger] checks[p],
                    ) && !(checks[p] is Failed),
                verifiers@ == given + verification::all_matched(
                    schema,
                    &self.proofs,
                    nonce,
                    all.take(k as int),
                ),
                transcript::transcript_log(*transcript) == opening + creation::joined(
                    verification::predicate_pieces(checks),
                ),
            decreases n - k,
        {
            let id = predicates.key_at(k);
            let statement = *predicates.value_at(k);
            assert(all[k as int] == (id@, *statement));
            let ghost pieces = verification::predicate_pieces(checks);
            proof {
                assert(all.take(k + 1).drop_last() =~= all.take(k as int));
                assert(all.take(k + 1).last() == all[k as int]);
            }
            match Self::verifier_of(schema, &self.proofs, nonce, id, statement) {
                Some(verifier) => {
                    let check = Self::ask::<S>(&verifier, self.challenge);
                    proof {
                        checks = checks.push(check);
                    }
                    match check {
                        Check::Bound(contributions) => {
                            transcript::append_contributions(transcript, &contributions);
                            verifiers.push(verifier);
                            proof {
                                let now = verification::predicate_pieces(checks);
                                assert(now.drop_last() =~= pieces);
                                assert(transcript::transcript_log(*transcript) =~= opening
                                    + creation::joined(now));
                                assert(verifiers@ =~= given + verification::all_matched(
                                    schema,
                                    &self.proofs,
                                    nonce,
                                    all.take(k + 1),
                                ));
                            }
                        },
                        Check::Failed(e) => {
                            return (Some(e), Ghost(checks));
                        },
                    }
                },
                None => {
                    proof {
                        checks = checks.push(Check::Failed(Error::InvalidPresentationData));
                    }
                    return (Some(Error::InvalidPresentationData), Ghost(checks));
                },
            }
            k = k + 1;
        }
        proof {
            assert(all.take(n as int) =~= all);
        }
        (None, Ghost(checks))
    }

    /// Asks the suite for its verdict on each proof, up to the first refusal.
    fn judge<S: ProofSuite>(verifiers: &Vec<ProofVerifiers<'_>>, challenge: Scalar) -> (r: (
        CredxResult<()>,
        Ghost<Seq<CredxResult<()>>>,
    ))
        ensures
            verification::verdicts_given::<S>(verifiers@, challenge, r.1@),
            r.0 matches Err(e) ==> r.1@.len() > 0 && r.1@.last() == Err::<(), Error>(e),
            r.0 is Ok ==> r.1@.len() == verifiers@.len() && forall|k: int|
                0 <= k < r.1@.len() ==> #[trigger] r.1@[k] is Ok,
    {
        let ghost mut verdicts: Seq<CredxResult<()>> = seq![];
        let mut i: usize = 0;
        while i < verifiers.len()
            invariant
                i <= verifiers@.len(),
                verdicts.len() == i,
                forall|k: int|
                    0 <= k < i ==> verifiers::proof_checked::<S>(
                        verifiers@[k],
                        challenge,
                        #[trigger] verdicts[k],
                    ) && verdicts[k] is Ok,
            decreases verifiers@.len() - i,
        {
            let verdict = verifiers[i].verify::<S>(challenge);
            proof {
                verdicts = verdicts.push(verdict);
            }
            if let Err(e) = verdict {
                return (Err(e), Ghost(verdicts));
            }
            i = i + 1;
        }
        (Ok(()), Ghost(verdicts))
    }
}

/// The check of one more signature statement comes behind those of the others, and so do the
/// encodings of its disclosed claims, its verifier and what it binds.
proof fn lemma_signature_checked<S: ProofSuite>(
    schema: &PresentationSchema,
    presentation: Presentation,
    nonce: &[u8],
    signatures: Seq<(Seq<char>, Statements)>,
    log: Seq<(Seq<char>, Seq<u8>)>,
    before: (Seq<Seq<(Seq<char>, EncodingView)>>, Seq<Check>),
    encodings: Seq<(Seq<char>, EncodingView)>,
    check: Check,
)
    requires
        before.0.len() == before.1.len(),
        before.1.len() < signatures.len(),
        verification::checks_made::<S>(schema, presentation, nonce, signatures, before.1),
        verification::disclosures_encoded::<S>(presentation, signatures, before.0),
        verification::statement_check::<S>(
            schema,
            presentation,
            nonce,
            signatures[before.1.len() as int],
            check,
        ),
        verification::has_signature(presentation, signatures[before.0.len() as int].0)
            ==> challenge::claims_encoded::<S>(
            verification::disclosed_for(presentation, signatures[before.0.len() as int].1),
            encodings,
        ),
    ensures
        ({
            let (shown, checks) = (before.0.push(encodings), before.1.push(check));
            let k = before.1.len() as int;
            let verifiers = verification::all_matched(
                schema,
                &presentation.proofs,
                nonce,
                signatures.take(k),
            );
            &&& verification::checks_made::<S>(schema, presentation, nonce, signatures, checks)
            &&& verification::disclosures_encoded::<S>(presentation, signatures, shown)
            &&& log + creation::joined(verification::signature_pieces(signatures, shown, checks))
                == log + creation::joined(
                verification::signature_pieces(signatures, before.0, before.1),
            ) + challenge::disclosed_log(signatures[k].1->Signature_0.id@, encodings)
                + verification::bound(check)
            &&& verification::all_matched(
                schema,
                &presentation.proofs,
                nonce,
                signatures.take(k + 1),
            ) == match verification::matched(
                schema,
                &presentation.proofs,
                nonce,
                signatures[k],
            ) {
                Some(v) => verifiers.push(v),
                None => verifiers,
            }
        }),
{
    let (shown, checks) = (before.0.push(encodings), before.1.push(check));
    let k = before.1.len() as int;
    assert forall|p: int| 0 <= p < checks.len() implies verification::statement_check::<S>(
        schema,
        presentation,
        nonce,
        signatures[p],
        #[trigger] checks[p],
    ) by {
        if p < k {
            assert(checks[p] == before.1[p]);
        }
    }
    assert forall|p: int|
        0 <= p < shown.len() && verification::has_signature(
            presentation,
            signatures[p].0,
        ) implies challenge::claims_encoded::<S>(
        verification::disclosed_for(presentation, signatures[p].1),
        #[trigger] shown[p],
    ) by {
        if p < k {
            assert(shown[p] == before.0[p]);
        }
    }
    let pieces = verification::signature_pieces(signatures, before.0, before.1);
    let more = verification::signature_pieces(signatures, shown, checks);
    assert(more.drop_last() =~= pieces);
    assert(log + creation::joined(more) =~= log + creation::joined(pieces)
        + challenge::disclosed_log(signatures[k].1->Signature_0.id@, encodings)
        + verification::bound(check));
    assert(signatures.take(k + 1).drop_last() =~= signatures.take(k));
    assert(signatures.take(k + 1).last() == signatures[k]);
}

} // verus!
