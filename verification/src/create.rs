//! Making a presentation.
use vstd::prelude::*;
use merlin::Transcript;
use crate::challenge;
use crate::claim::{ClaimData, EncodingView};
use crate::creation;
use crate::creation::{CreateRun, Step};
use crate::credential::Credential;
use crate::error::{CredxResult, Error};
use crate::laws::statements;
use crate::message::ProofMessage;
use crate::message_types;
use crate::ordered_map;
use crate::ordered_map::OrderedMap;
use crate::presentation::Presentation;
use crate::proofs::PresentationProofs;
use crate::scalar::{Draws, Scalar};
use crate::statement;
use crate::statement::{PresentationSchema, SignatureStatement, Statements};
use crate::suite;
use crate::suite::{PresentationBuilders, ProofSuite};
use crate::transcript;
use crate::transcript::Contribution;

verus! {

impl Presentation {
    /// Creates a new presentation, composed of one to many proofs: one for each statement of the
    /// schema.
    ///
    /// There must be a statement, the credentials must be those of the signature statements, what
    /// the other statements speak of must be there, and a membership, commitment or encryption must
    /// be about a claim of a credential; else, and where it is about a claim that is revealed or
    /// the suite refuses a statement, there is an error. A range statement is committed to next to
    /// the commitment that it refers to, after all other statements.
    pub fn create<S: ProofSuite>(
        credentials: &OrderedMap<Credential>,
        schema: &PresentationSchema,
        nonce: &[u8],
    ) -> (r: CredxResult<Presentation>)
        requires
            nonce@.len() <= u32::MAX,
            creation::is_answerable(*credentials, *schema) ==> creation::is_presentable(
                *credentials,
                *schema,
            ),
        ensures
            !creation::is_answerable(*credentials, *schema) ==> r == Err::<Presentation, Error>(
                Error::InvalidPresentationData,
            ),
            creation::is_answerable(*credentials, *schema) ==> exists|run: CreateRun<S>|
                #[trigger] creation::created(*credentials, *schema, nonce, run, r),
            r matches Ok(p) ==> p.proofs.listing().len() > 0,
    {
        let mut draws = Draws::new();
        Self::create_from::<S>(credentials, schema, nonce, &mut draws)
    }

    /// The same, with the blinders drawn from `draws`: one for each claim that stays hidden and
    /// that a predicate speaks of, and no other.
    pub fn create_from<S: ProofSuite>(
        credentials: &OrderedMap<Credential>,
        schema: &PresentationSchema,
        nonce: &[u8],
        draws: &mut Draws,
    ) -> (r: CredxResult<Presentation>)
        requires
            nonce@.len() <= u32::MAX,
            creation::is_answerable(*credentials, *schema) ==> creation::is_presentable(
                *credentials,
                *schema,
            ),
        ensures
            !creation::is_answerable(*credentials, *schema) ==> r == Err::<Presentation, Error>(
                Error::InvalidPresentationData,
            ) && final(draws).drawn() == old(draws).drawn(),
            creation::is_answerable(*credentials, *schema) ==> exists|run: CreateRun<S>|
                #[trigger] creation::created(*credentials, *schema, nonce, run, r)
                    && final(draws).drawn() == old(draws).drawn() + run.draws,
            r matches Ok(p) ==> p.proofs.listing().len() > 0,
    {
        let binding = S::bind_schema(schema);
        let transcript = Self::open_transcript(nonce, &binding);
        let (signatures, predicates) = Self::split_statements(schema);
        let ghost sigs = message_types::borrowed(signatures);
        let ghost preds = message_types::borrowed(predicates);
        proof {
            message_types::lemma_parts(schema.statements.listing());
        }
        if schema.statements.len() == 0 || !Self::credentials_fit(credentials, &signatures) {
            return Err(Error::InvalidPresentationData);
        }
        assert(message_types::signatures_are_held(credentials@, sigs)) by {
            assert forall|p: int| 0 <= p < sigs.len() implies (#[trigger] sigs[p]).1 is Signature
                && credentials@.dom().contains(sigs[p].0) by {
                assert(ordered_map::has_key(sigs, sigs[p].0));
            }
        }
        let ghost before = draws.drawn();
        let messages = match Self::get_message_types::<S>(
            credentials,
            &signatures,
            &predicates,
            draws,
        ) {
            Ok(messages) => messages,
            Err(e) => return Err(e),
        };
        let ghost drawn = draws.drawn().skip(before.len() as int);
        proof {
            use_type_invariant(&signatures);
            message_types::lemma_borrowed_ascending(signatures);
            assert(draws.drawn() =~= before + drawn);
            lemma_messages_are_ready::<S>(*credentials, sigs, preds, drawn, messages);
        }
        let (r, Ghost(run)) = Self::create_with::<S>(
            credentials,
            &signatures,
            &predicates,
            &messages,
            nonce,
            transcript,
            draws,
            Ghost(binding),
            Ghost(drawn),
        );
        proof {
            assert(creation::created(*credentials, *schema, nonce, run, r));
            if r is Ok {
                use_type_invariant(&schema.statements);
                statements::lemma_members(schema.statements.listing());
                lemma_has_proofs(*credentials, *schema, nonce, run, r->Ok_0);
            }
        }
        r
    }

    /// Makes a presentation where nothing is known of what is given: nothing comes back where the
    /// nonce is too long for a transcript, or where a schema that is answerable has a claim without
    /// a label, compares what is not a claim of a signature, or would disclose what is too long.
    pub fn create_untrusted<S: ProofSuite>(
        credentials: &OrderedMap<Credential>,
        schema: &PresentationSchema,
        nonce: &[u8],
    ) -> (r: Option<CredxResult<Presentation>>)
        ensures
            r is Some <==> nonce@.len() <= u32::MAX && (creation::is_answerable(
                *credentials,
                *schema,
            ) ==> creation::is_presentable(*credentials, *schema)),
            r matches Some(result) ==> !creation::is_answerable(*credentials, *schema) ==> result
                == Err::<Presentation, Error>(Error::InvalidPresentationData),
            r matches Some(result) ==> creation::is_answerable(*credentials, *schema) ==> exists|
                run: CreateRun<S>,
            | #[trigger]
                creation::created(*credentials, *schema, nonce, run, result),
            r matches Some(Ok(p)) ==> p.proofs.listing().len() > 0,
    {
        if nonce.len() > u32::MAX as usize || !Self::can_be_made(credentials, schema) {
            return None;
        }
        Some(Self::create::<S>(credentials, schema, nonce))
    }

    /// Whether there is a credential for each of the signature statements and no other.
    pub(crate) fn credentials_fit(
        credentials: &OrderedMap<Credential>,
        signatures: &OrderedMap<&Statements>,
    ) -> (r: bool)
        ensures
            r <==> (forall|id: Seq<char>| #[trigger]
                credentials@.dom().contains(id) <==> ordered_map::has_key(
                    message_types::borrowed(*signatures),
                    id,
                )),
    {
        let ghost sigs = message_types::borrowed(*signatures);
        let ghost held = credentials.listing();
        proof {
            use_type_invariant(signatures);
            use_type_invariant(credentials);
            message_types::lemma_borrowed_ascending(*signatures);
            ordered_map::lemma_same_keys(sigs, held);
            assert(forall|id: Seq<char>| #[trigger]
                credentials@.dom().contains(id) <==> ordered_map::has_key(held, id));
            if forall|id: Seq<char>| #[trigger]
                credentials@.dom().contains(id) <==> ordered_map::has_key(sigs, id) {
                assert forall|id: Seq<char>| #[trigger]
                    ordered_map::has_key(held, id) <==> ordered_map::has_key(sigs, id) by {
                    assert(credentials@.dom().contains(id) <==> ordered_map::has_key(sigs, id));
                }
            }
            if forall|id: Seq<char>| #[trigger]
                ordered_map::has_key(held, id) <==> ordered_map::has_key(sigs, id) {
                assert forall|id: Seq<char>| #[trigger]
                    credentials@.dom().contains(id) <==> ordered_map::has_key(sigs, id) by {
                    assert(ordered_map::has_key(held, id) <==> ordered_map::has_key(sigs, id));
                }
            }
        }
        if signatures.len() != credentials.len() {
            return false;
        }
        let n = signatures.len();
        let mut k: usize = 0;
        while k < n
            invariant
                n == sigs.len(),
                sigs == message_types::borrowed(*signatures),
                held == credentials.listing(),
                k <= n,
                forall|p: int|
                    0 <= p < k ==> ordered_map::has_key(held, (#[trigger] sigs[p]).0),
                (forall|p: int|
                    0 <= p < sigs.len() ==> ordered_map::has_key(held, (#[trigger] sigs[p]).0))
                    <==> (forall|id: Seq<char>| #[trigger]
                    credentials@.dom().contains(id) <==> ordered_map::has_key(sigs, id)),
            decreases n - k,
        {
            assert(sigs[k as int].0 == signatures.listing()[k as int].0);
            if !credentials.contains_key(signatures.key_at(k).as_str()) {
                return false;
            }
            k = k + 1;
        }
        true
    }

    /// Creates the presentation of the statements, given the messages, from a transcript that holds
    /// what is bound before any of them.
    fn create_with<S: ProofSuite>(
        credentials: &OrderedMap<Credential>,
        signatures: &OrderedMap<&Statements>,
        predicates: &OrderedMap<&Statements>,
        messages: &OrderedMap<Vec<ProofMessage>>,
        nonce: &[u8],
        transcript: Transcript,
        draws: &mut Draws,
        binding: Ghost<Vec<Contribution>>,
        drawn: Ghost<Seq<Scalar>>,
    ) -> (r: (CredxResult<Presentation>, Ghost<CreateRun<S>>))
        requires
            transcript::transcript_log(transcript) == challenge::opening_log(nonce@, binding@@),
            creation::disclosures_fit(
                *credentials,
                message_types::borrowed(*signatures),
                message_types::revealed_claims(
                    credentials@,
                    message_types::borrowed(*signatures),
                    message_types::borrowed(*predicates),
                ),
            ),
            message_types::signatures_are_held(
                credentials@,
                message_types::borrowed(*signatures),
            ),
            message_types::claims_are_labelled(
                credentials@,
                message_types::borrowed(*signatures),
            ),
            messages_are_complete(
                *credentials,
                *messages,
                message_types::borrowed(*signatures),
                message_types::revealed_claims(
                    credentials@,
                    message_types::borrowed(*signatures),
                    message_types::borrowed(*predicates),
                ),
            ),
            subjects_are_ready(*credentials, *messages, message_types::borrowed(*predicates)),
            no_signatures(message_types::borrowed(*predicates)),
        ensures
            final(draws).drawn() == old(draws).drawn(),
            r.1@.binding == binding@,
            r.1@.draws == drawn@,
            r.1@.messages == *messages,
            run_taken(
                *credentials,
                message_types::borrowed(*signatures),
                message_types::borrowed(*predicates),
                nonce,
                r.1@,
                r.0,
            ),
    {
        let mut transcript = transcript;
        let ghost sigs = message_types::borrowed(*signatures);
        let ghost preds = message_types::borrowed(*predicates);
        let ghost mut run = CreateRun::<S> {
            binding: binding@,
            draws: drawn@,
            messages: *messages,
            disclosed: seq![],
            shown: seq![],
            signature_steps: seq![],
            predicate_steps: seq![],
            range_steps: seq![],
            proofs: seq![],
        };
        let ghost revealed = message_types::revealed_claims(credentials@, sigs, preds);
        let mut builders: Vec<PresentationBuilders<S>> = Vec::new();
        let mut disclosed_messages: OrderedMap<OrderedMap<ClaimData>> = OrderedMap::new();
        let (error, Ghost(taken)) = Self::commit_to_signatures::<S>(
            credentials,
            signatures,
            messages,
            &mut transcript,
            &mut builders,
            &mut disclosed_messages,
            Ghost(revealed),
        );
        proof {
            run.signature_steps = taken.0;
            run.disclosed = taken.1;
            run.shown = taken.2;
        }
        if let Some(e) = error {
            return (Err(e), Ghost(run));
        }
        let mut id_to_builder: OrderedMap<usize> = OrderedMap::new();
        let (error, Ghost(predicate_steps)) = Self::commit_to_predicates::<S>(
            credentials,
            predicates,
            messages,
            nonce,
            draws,
            &mut transcript,
            &mut builders,
            &mut id_to_builder,
        );
        proof {
            run.predicate_steps = predicate_steps;
        }
        if let Some(e) = error {
            return (Err(e), Ghost(run));
        }
        let mut range_builders: Vec<PresentationBuilders<S>> = Vec::new();
        let ghost before = transcript::transcript_log(transcript);
        proof {
            assert(before =~= creation::log_before_ranges(nonce@, sigs, run));
        }
        let (error, Ghost(range_steps)) = Self::commit_to_ranges::<S>(
            credentials,
            predicates,
            &builders,
            &id_to_builder,
            &mut transcript,
            &mut range_builders,
        );
        proof {
            run.range_steps = range_steps;
        }
        if let Some(e) = error {
            return (Err(e), Ghost(run));
        }
        let ghost log = transcript::transcript_log(transcript);
        let challenge = Self::draw_challenge(transcript);
        let mut proofs: OrderedMap<PresentationProofs> = OrderedMap::new();
        let ghost none = Seq::<PresentationProofs>::empty();
        let Ghost(first) = Self::add_proofs(range_builders, challenge, &mut proofs, Ghost(none));
        let Ghost(second) = Self::add_proofs(
            builders,
            challenge,
            &mut proofs,
            Ghost(none + first),
        );
        proof {
            run.proofs = first + second;
            assert(none + first =~= first);
            assert(log =~= creation::creation_log(nonce@, sigs, run));
            lemma_proofs_joined(
                range_steps,
                taken.0,
                predicate_steps,
                challenge,
                first,
                second,
            );
        }
        (Ok(Presentation { proofs, challenge, disclosed_messages }), Ghost(run))
    }

    /// Goes through the signature statements: for each the revealed claims are disclosed and bound,
    /// and the suite commits. Gives back the error that ended it, if any.
    fn commit_to_signatures<S: ProofSuite>(
        credentials: &OrderedMap<Credential>,
        signatures: &OrderedMap<&Statements>,
        messages: &OrderedMap<Vec<ProofMessage>>,
        transcript: &mut Transcript,
        builders: &mut Vec<PresentationBuilders<S>>,
        disclosed: &mut OrderedMap<OrderedMap<ClaimData>>,
        revealed: Ghost<Map<Seq<char>, Seq<bool>>>,
    ) -> (r: (
        Option<Error>,
        Ghost<
            (Seq<Step<S>>, Seq<OrderedMap<ClaimData>>, Seq<Seq<(Seq<char>, EncodingView)>>),
        >,
    ))
        requires
            message_types::signatures_are_held(
                credentials@,
                message_types::borrowed(*signatures),
            ),
            message_types::claims_are_labelled(
                credentials@,
                message_types::borrowed(*signatures),
            ),
            creation::disclosures_fit(
                *credentials,
                message_types::borrowed(*signatures),
                revealed@,
            ),
            messages_are_complete(
                *credentials,
                *messages,
                message_types::borrowed(*signatures),
                revealed@,
            ),
            old(builders)@.len() == 0,
            old(disclosed)@ == Map::<Seq<char>, OrderedMap<ClaimData>>::empty(),
        ensures
            creation::signature_steps_taken(
                *credentials,
                *messages,
                message_types::borrowed(*signatures),
                r.1@.0,
            ),
            creation::discloses::<S>(
                *credentials,
                message_types::borrowed(*signatures),
                revealed@,
                r.1@.1,
                r.1@.2,
            ),
            r.1@.1.len() == r.1@.0.len(),
            r.0 matches Some(e) ==> creation::stopped(r.1@.0, e),
            r.0 is None ==> {
                &&& creation::finished(r.1@.0, message_types::borrowed(*signatures).len() as int)
                &&& final(builders)@ == creation::built(r.1@.0)
                &&& transcript::transcript_log(*final(transcript)) == transcript::transcript_log(
                    *old(transcript),
                ) + creation::joined(
                    creation::signature_pieces(
                        message_types::borrowed(*signatures),
                        r.1@.2,
                        r.1@.0,
                    ),
                )
                &&& creation::are_under_their_ids(
                    message_types::borrowed(*signatures),
                    r.1@.1,
                    *final(disclosed),
                )
            },
    {
        let ghost all = message_types::borrowed(*signatures);
        let ghost opening = transcript::transcript_log(*transcript);
        let ghost mut steps: Seq<Step<S>> = seq![];
        let ghost mut kept: Seq<OrderedMap<ClaimData>> = seq![];
        let ghost mut shown: Seq<Seq<(Seq<char>, EncodingView)>> = seq![];
        let n = signatures.len();
        let mut k: usize = 0;
        proof {
            use_type_invariant(signatures);
            message_types::lemma_borrowed_ascending(*signatures);
            assert(creation::signature_pieces(all, shown, steps) =~= seq![]);
            assert(transcript::transcript_log(*transcript) =~= opening + creation::joined(
                creation::signature_pieces(all, shown, steps),
            ));
            assert(builders@ =~= creation::built(steps));
        }
        while k < n
            invariant
                n == all.len(),
                all == message_types::borrowed(*signatures),
                ordered_map::ascending(all),
                k <= n,
                message_types::signatures_are_held(credentials@, all),
                message_types::claims_are_labelled(credentials@, all),
                creation::disclosures_fit(*credentials, all, revealed@),
                messages_are_complete(*credentials, *messages, all, revealed@),
                steps.len() == k,
                kept.len() == k,
                creation::discloses::<S>(*credentials, all, revealed@, kept, shown),
                forall|p: int|
                    0 <= p < k ==> creation::signature_step(
                        *credentials,
                        *messages,
                        all[p],
                        #[trigger] steps[p],
                    ) && !(steps[p] is Failed),
                builders@ == creation::built(steps),
                transcript::transcript_log(*transcript) == opening + creation::joined(
                    creation::signature_pieces(all, shown, steps),
                ),
                forall|id: Seq<char>| #[trigger]
                    disclosed@.dom().contains(id) ==> ordered_map::has_key(all, id),
                forall|p: int|
                    0 <= p < k ==> disclosed@.dom().contains((#[trigger] all[p]).0)
                        && disclosed@[all[p].0] == kept[p],
            decreases n - k,
        {
            let id = signatures.key_at(k);
            assert(all[k as int].0 == id@);
            if let Statements::Signature(statement) = *signatures.value_at(k) {
                assert(all[k as int] == (id@, Statements::Signature(*statement)));
                let credential = credentials.get(id.as_str()).unwrap();
                let own = messages.get(id.as_str()).unwrap();
                proof {
                    assert forall|i: int| 0 <= i < credential.claims@.len() implies (
                    #[trigger] statement.issuer.schema.label(i)) is Some by {
                        assert(all[k as int].1->Signature_0.issuer.schema.label(i) is Some);
                    }
                }
                let dm = Self::disclosed_claims(statement, credential, own);
                proof {
                    use_type_invariant(&dm);
                    use_type_invariant(&statement.issuer.schema.claim_indices);
                    lemma_labels_fit(*statement, *credential, revealed@[id@], dm);
                }
                let Ghost(encodings) = Self::add_disclosed_messages_challenge_contribution::<S>(
                    id,
                    &dm,
                    transcript,
                );
                let step = Self::commit_to_signature::<S>(credentials, messages, id, statement);
                let ghost pieces = creation::signature_pieces(all, shown, steps);
                let ghost disclosed_before = disclosed@;
                proof {
                    assert(steps.push(step).drop_last() =~= steps);
                    steps = steps.push(step);
                    let before = (kept, shown);
                    kept = kept.push(dm);
                    shown = shown.push(encodings);
                    assert forall|p: int| 0 <= p < kept.len() implies {
                        &&& creation::shown_map(#[trigger] kept[p]) == creation::disclosure(
                            all[p].1->Signature_0,
                            credentials@[all[p].0],
                            revealed@[all[p].0],
                        )
                        &&& challenge::claims_encoded::<S>(kept[p], shown[p])
                    } by {
                        if p < k {
                            assert(kept[p] == before.0[p] && shown[p] == before.1[p]);
                        }
                    }
                }
                match step {
                    Step::Built(builder, contributions) => {
                        transcript::append_contributions(transcript, &contributions);
                        builders.push(builder);
                        disclosed.insert(id.clone(), dm);
                        proof {
                            let now = creation::signature_pieces(all, shown, steps);
                            assert(now.drop_last() =~= pieces);
                            assert(now.last() =~= challenge::disclosed_log(id@, encodings)
                                + transcript::contributed(contributions@));
                            assert(transcript::transcript_log(*transcript) =~= opening
                                + creation::joined(now));
                            assert forall|p: int| 0 <= p < k + 1 implies disclosed@.dom().contains(
                                (#[trigger] all[p]).0,
                            ) && disclosed@[all[p].0] == kept[p] by {
                                if p < k {
                                    ordered_map::lemma_text_order(all[p].0, all[k as int].0);
                                    assert(disclosed_before[all[p].0] == kept[p]);
                                }
                            }
                        }
                    },
                    Step::Skipped => {
                        proof {
                            assert(false);
                        }
                    },
                    Step::Failed(e) => {
                        return (Some(e), Ghost((steps, kept, shown)));
                    },
                }
            }
            k = k + 1;
        }
        proof {
            assert forall|id: Seq<char>| ordered_map::has_key(all, id) implies
                disclosed@.dom().contains(id) by {
                let p = ordered_map::key_index(all, id);
                assert(disclosed@.dom().contains(all[p].0));
            }
        }
        (None, Ghost((steps, kept, shown)))
    }

    /// Takes the step of the signature statement `id`.
    fn commit_to_signature<S: ProofSuite>(
        credentials: &OrderedMap<Credential>,
        messages: &OrderedMap<Vec<ProofMessage>>,
        id: &String,
        statement: &SignatureStatement,
    ) -> (r: Step<S>)
        requires
            credentials@.dom().contains(id@),
            messages@.dom().contains(id@),
        ensures
            creation::signature_step(
                *credentials,
                *messages,
                (id@, Statements::Signature(*statement)),
                r,
            ),
    {
        let credential = credentials.get(id.as_str()).unwrap();
        let own = messages.get(id.as_str()).unwrap();
        match S::commit_signature(statement, &credential.signature, own) {
            Ok(c) => Step::Built(PresentationBuilders::Signature(c.builder), c.contributions),
            Err(e) => Step::Failed(e),
        }
    }

    /// The claims of a credential whose messages are revealed, under their labels.
    pub fn disclosed_claims(
        statement: &SignatureStatement,
        credential: &Credential,
        messages: &Vec<ProofMessage>,
    ) -> (r: OrderedMap<ClaimData>)
        requires
            messages@.len() == credential.claims@.len(),
            forall|i: int|
                0 <= i < credential.claims@.len() ==> (
                #[trigger] statement.issuer.schema.label(i)) is Some,
        ensures
            creation::shown_map(r) == creation::disclosure(
                *statement,
                *credential,
                creation::revealed_among(messages@),
            ),
    {
        let mut disclosed: OrderedMap<ClaimData> = OrderedMap::new();
        let ghost indices = statement.issuer.schema.claim_indices@;
        let n = credential.claims.len();
        let mut i: usize = 0;
        proof {
            use_type_invariant(&statement.issuer.schema.claim_indices);
        }
        while i < n
            invariant
                n == credential.claims@.len(),
                n == messages@.len(),
                statement.issuer.schema.claim_indices.wf(),
                indices == statement.issuer.schema.claim_indices@,
                i <= n,
                forall|j: int| 0 <= j < n ==> (#[trigger] statement.issuer.schema.label(j)) is Some,
                forall|label: Seq<char>| #[trigger]
                    creation::shown_map(disclosed).dom().contains(label) ==> {
                        let j = indices[label] as int;
                        &&& 0 <= j < i
                        &&& messages@[j] is Revealed
                        &&& statement.issuer.schema.label(j) == Some(label)
                        &&& creation::shown_map(disclosed)[label] == credential.claims@[j]@
                    },
                forall|j: int|
                    0 <= j < i && messages@[j] is Revealed ==> creation::shown_map(
                        disclosed,
                    ).dom().contains(
                        (#[trigger] statement.issuer.schema.label(j))->0,
                    ),
            decreases n - i,
        {
            let label = statement.issuer.schema.claim_label(i).unwrap();
            let ghost before = disclosed;
            proof {
                statement::lemma_label_index(*statement, i as int);
            }
            if messages[i].is_revealed() {
                let claim = credential.claims[i].clone();
                let ghost shown = claim@;
                disclosed.insert(label.clone(), claim);
                proof {
                    assert(creation::shown_map(disclosed) =~= creation::shown_map(before).insert(
                        label@,
                        shown,
                    ));
                }
            }
            i = i + 1;
        }
        proof {
            let wanted = creation::disclosure(
                *statement,
                *credential,
                creation::revealed_among(messages@),
            );
            assert forall|label: Seq<char>| #[trigger]
                creation::shown_map(disclosed).dom().contains(label) == wanted.dom().contains(
                    label,
                ) by {
                if wanted.dom().contains(label) {
                    let j = choose|j: int|
                        0 <= j < credential.claims@.len() && creation::revealed_among(messages@)[j]
                            && #[trigger] statement.issuer.schema.label(j) == Some(label);
                    assert(messages@[j] is Revealed);
                }
                if creation::shown_map(disclosed).dom().contains(label) {
                    assert(creation::revealed_among(messages@)[indices[label] as int]);
                }
            }
            assert(creation::shown_map(disclosed) =~= wanted);
        }
        disclosed
    }

    /// Goes through the statements that are not about signatures: for each but the ranges the suite
    /// commits, and the place of its builder is registered. Gives back the error that ended it, if
    /// any.
    fn commit_to_predicates<S: ProofSuite>(
        credentials: &OrderedMap<Credential>,
        predicates: &OrderedMap<&Statements>,
        messages: &OrderedMap<Vec<ProofMessage>>,
        nonce: &[u8],
        draws: &mut Draws,
        transcript: &mut Transcript,
        builders: &mut Vec<PresentationBuilders<S>>,
        id_to_builder: &mut OrderedMap<usize>,
    ) -> (r: (Option<Error>, Ghost<Seq<Step<S>>>))
        requires
            subjects_are_ready(*credentials, *messages, message_types::borrowed(*predicates)),
            no_signatures(message_types::borrowed(*predicates)),
            old(id_to_builder)@ == Map::<Seq<char>, usize>::empty(),
        ensures
            final(draws).drawn() == old(draws).drawn(),
            creation::predicate_steps_taken(
                *credentials,
                *messages,
                nonce,
                message_types::borrowed(*predicates),
                r.1@,
            ),
            r.0 matches Some(e) ==> creation::stopped(r.1@, e),
            r.0 is None ==> {
                &&& creation::finished(r.1@, message_types::borrowed(*predicates).len() as int)
                &&& final(builders)@ == old(builders)@ + creation::built(r.1@)
                &&& transcript::transcript_log(*final(transcript)) == transcript::transcript_log(
                    *old(transcript),
                ) + creation::joined(creation::step_pieces(r.1@))
                &&& creation::positions(*final(id_to_builder)) == creation::registry(
                    message_types::borrowed(*predicates),
                    r.1@,
                    old(builders)@.len() as int,
                    message_types::borrowed(*predicates).len() as int,
                )
                &&& forall|id: Seq<char>| #[trigger]
                    final(id_to_builder)@.dom().contains(id) ==> final(id_to_builder)@[id]
                        < final(builders)@.len()
            },
    {
        let ghost all = message_types::borrowed(*predicates);
        let ghost opening = transcript::transcript_log(*transcript);
        let ghost given = builders@;
        let ghost mut steps: Seq<Step<S>> = seq![];
        let n = predicates.len();
        let mut k: usize = 0;
        proof {
            assert(creation::step_pieces(steps) =~= seq![]);
            assert(transcript::transcript_log(*transcript) =~= opening + creation::joined(
                creation::step_pieces(steps),
            ));
            assert(builders@ =~= given + creation::built(steps));
            assert(creation::positions(*id_to_builder) =~= creation::registry(
                all,
                steps,
                given.len() as int,
                0,
            ));
        }
        while k < n
            invariant
                n == all.len(),
                all == message_types::borrowed(*predicates),
                k <= n,
                subjects_are_ready(*credentials, *messages, all),
                draws.drawn() == old(draws).drawn(),
                no_signatures(all),
                steps.len() == k,
                forall|p: int|
                    0 <= p < k ==> creation::predicate_step(
                        *credentials,
                        *messages,
                        nonce,
                        all[p].1,
                        #[trigger] steps[p],
                    ) && !(steps[p] is Failed),
                builders@ == given + creation::built(steps),
                transcript::transcript_log(*transcript) == opening + creation::joined(
                    creation::step_pieces(steps),
                ),
                creation::positions(*id_to_builder) == creation::registry(
                    all,
                    steps,
                    given.len() as int,
                    k as int,
                ),
                forall|id: Seq<char>| #[trigger]
                    id_to_builder@.dom().contains(id) ==> id_to_builder@[id] < builders@.len(),
            decreases n - k,
        {
            let id = predicates.key_at(k);
            let statement = *predicates.value_at(k);
            assert(all[k as int] == (id@, *statement));
            assert(subject_is_ready(*credentials, *messages, all[k as int].1));
            let step = Self::commit_to_predicate::<S>(
                credentials,
                messages,
                nonce,
                draws,
                statement,
            );
            let ghost before = steps;
            proof {
                steps = steps.push(step);
                assert(steps.drop_last() =~= before);
                assert(steps.take(k as int) =~= before);
                assert(creation::step_pieces(steps).drop_last() =~= creation::step_pieces(before));
                assert(creation::step_pieces(steps).last() == creation::bound(step));
                lemma_registry_prefix(all, before, steps, given.len() as int, k as int);
            }
            let ghost registered = *id_to_builder;
            match step {
                Step::Built(builder, contributions) => {
                    id_to_builder.insert(id.clone(), builders.len());
                    transcript::append_contributions(transcript, &contributions);
                    builders.push(builder);
                    proof {
                        assert(transcript::transcript_log(
                            *transcript,
                        ) =~= opening + creation::joined(
                            creation::step_pieces(steps),
                        ));
                        assert(builders@ =~= given + creation::built(steps));
                        assert(creation::positions(*id_to_builder) =~= creation::positions(
                            registered,
                        ).insert(
                            id@,
                            (given.len() + creation::built(before).len()) as int,
                        ));
                        assert(creation::positions(*id_to_builder) =~= creation::registry(
                            all,
                            steps,
                            given.len() as int,
                            k + 1,
                        ));
                    }
                },
                Step::Skipped => {
                    proof {
                        assert(transcript::transcript_log(
                            *transcript,
                        ) =~= opening + creation::joined(
                            creation::step_pieces(steps),
                        ));
                        assert(builders@ =~= given + creation::built(steps));
                    }
                },
                Step::Failed(e) => {
                    return (Some(e), Ghost(steps));
                },
            }
            k = k + 1;
        }
        (None, Ghost(steps))
    }

    /// Takes the step of a statement that is not about a signature.
    fn commit_to_predicate<S: ProofSuite>(
        credentials: &OrderedMap<Credential>,
        messages: &OrderedMap<Vec<ProofMessage>>,
        nonce: &[u8],
        draws: &mut Draws,
        statement: &Statements,
    ) -> (r: Step<S>)
        requires
            subject_is_ready(*credentials, *messages, *statement),
        ensures
            final(draws).drawn() == old(draws).drawn(),
            creation::predicate_step(*credentials, *messages, nonce, *statement, r),
    {
        match statement {
            Statements::Equality(e) => match S::commit_equality(e, credentials) {
                Ok(b) => Step::Built(PresentationBuilders::Equality(b), Vec::new()),
                Err(error) => Step::Failed(error),
            },
            Statements::AccumulatorSetMembership(a) => {
                let credential = match credentials.get(a.reference_id.as_str()) {
                    Some(credential) => credential,
                    None => return Step::Failed(Error::InvalidPresentationData),
                };
                let message = messages.get(a.reference_id.as_str()).unwrap()[a.claim];
                if message.is_revealed() {
                    return Step::Failed(Error::InvalidClaimData);
                }
                match S::commit_membership(a, credential, message, nonce) {
                    Ok(c) => Step::Built(
                        PresentationBuilders::AccumulatorSetMembership(c.builder),
                        c.contributions,
                    ),
                    Err(error) => Step::Failed(error),
                }
            },
            Statements::Commitment(s) => {
                if !credentials.contains_key(s.reference_id.as_str()) {
                    return Step::Failed(Error::InvalidPresentationData);
                }
                let message = messages.get(s.reference_id.as_str()).unwrap()[s.claim];
                if message.is_revealed() {
                    return Step::Failed(Error::InvalidClaimData);
                }
                let blinder = message.get_blinder(draws).unwrap();
                match S::commit_commitment(s, message.get_message(), blinder) {
                    Ok(c) => Step::Built(
                        PresentationBuilders::Commitment(c.builder),
                        c.contributions,
                    ),
                    Err(error) => Step::Failed(error),
                }
            },
            Statements::VerifiableEncryption(v) => {
                if !credentials.contains_key(v.reference_id.as_str()) {
                    return Step::Failed(Error::InvalidPresentationData);
                }
                let message = messages.get(v.reference_id.as_str()).unwrap()[v.claim];
                if message.is_revealed() {
                    return Step::Failed(Error::InvalidClaimData);
                }
                let blinder = message.get_blinder(draws).unwrap();
                match S::commit_encryption(v, message.get_message(), blinder) {
                    Ok(c) => Step::Built(
                        PresentationBuilders::VerifiableEncryption(c.builder),
                        c.contributions,
                    ),
                    Err(error) => Step::Failed(error),
                }
            },
            // Ranges come after these since they depend on the builders of commitments.
            Statements::Range(_) => Step::Skipped,
            Statements::Signature(_) => Step::Skipped,
        }
    }

    /// Goes through the range statements, once the builders of all others are there. Gives back the
    /// error that ended it, if any.
    #[verifier::spinoff_prover]
    fn commit_to_ranges<S: ProofSuite>(
        credentials: &OrderedMap<Credential>,
        predicates: &OrderedMap<&Statements>,
        builders: &Vec<PresentationBuilders<S>>,
        id_to_builder: &OrderedMap<usize>,
        transcript: &mut Transcript,
        range_builders: &mut Vec<PresentationBuilders<S>>,
    ) -> (r: (Option<Error>, Ghost<Seq<Step<S>>>))
        requires
            forall|id: Seq<char>| #[trigger]
                id_to_builder@.dom().contains(id) ==> id_to_builder@[id] < builders@.len(),
            old(range_builders)@.len() == 0,
        ensures
            creation::range_steps_taken(
                *credentials,
                message_types::borrowed(*predicates),
                builders@,
                creation::positions(*id_to_builder),
                transcript::transcript_log(*old(transcript)),
                r.1@,
            ),
            r.0 matches Some(e) ==> creation::stopped(r.1@, e),
            r.0 is None ==> {
                &&& creation::finished(r.1@, message_types::borrowed(*predicates).len() as int)
                &&& final(range_builders)@ == creation::built(r.1@)
                &&& transcript::transcript_log(*final(transcript)) == transcript::transcript_log(
                    *old(transcript),
                ) + creation::joined(creation::step_pieces(r.1@))
            },
    {
        let ghost all = message_types::borrowed(*predicates);
        let ghost opening = transcript::transcript_log(*transcript);
        let ghost mut steps: Seq<Step<S>> = seq![];
        let n = predicates.len();
        let mut k: usize = 0;
        proof {
            assert(creation::step_pieces(steps) =~= seq![]);
            assert(transcript::transcript_log(*transcript) =~= opening + creation::joined(
                creation::step_pieces(steps),
            ));
            assert(range_builders@ =~= creation::built(steps));
        }
        while k < n
            invariant
                n == all.len(),
                all == message_types::borrowed(*predicates),
                opening == transcript::transcript_log(*old(transcript)),
                k <= n,
                forall|id: Seq<char>| #[trigger]
                    id_to_builder@.dom().contains(id) ==> id_to_builder@[id] < builders@.len(),
                steps.len() == k,
                creation::range_steps_taken(
                    *credentials,
                    all,
                    builders@,
                    creation::positions(*id_to_builder),
                    opening,
                    steps,
                ),
                forall|p: int| 0 <= p < k ==> !(#[trigger] steps[p] is Failed),
                range_builders@ == creation::built(steps),
                transcript::transcript_log(*transcript) == opening + creation::joined(
                    creation::step_pieces(steps),
                ),
            decreases n - k,
        {
            let statement = *predicates.value_at(k);
            assert(all[k as int].1 == *statement);
            let step = Self::commit_to_range::<S>(
                credentials,
                builders,
                id_to_builder,
                statement,
                transcript,
            );
            proof {
                lemma_range_step_added(
                    *credentials,
                    all,
                    builders@,
                    creation::positions(*id_to_builder),
                    opening,
                    steps,
                    step,
                );
                steps = steps.push(step);
            }
            match step {
                Step::Built(builder, contributions) => {
                    transcript::append_contributions(transcript, &contributions);
                    range_builders.push(builder);
                },
                Step::Skipped => {},
                Step::Failed(e) => {
                    return (Some(e), Ghost(steps));
                },
            }
            k = k + 1;
        }
        (None, Ghost(steps))
    }

    /// Takes the step of a statement at the stage of the ranges.
    fn commit_to_range<S: ProofSuite>(
        credentials: &OrderedMap<Credential>,
        builders: &Vec<PresentationBuilders<S>>,
        id_to_builder: &OrderedMap<usize>,
        statement: &Statements,
        transcript: &Transcript,
    ) -> (r: Step<S>)
        requires
            forall|id: Seq<char>| #[trigger]
                id_to_builder@.dom().contains(id) ==> id_to_builder@[id] < builders@.len(),
        ensures
            creation::range_step(
                *credentials,
                builders@,
                creation::positions(*id_to_builder),
                transcript::transcript_log(*transcript),
                *statement,
                r,
            ),
    {
        match statement {
            Statements::Range(s) => {
                let credential = match credentials.get(s.signature_id.as_str()) {
                    Some(credential) => credential,
                    None => return Step::Failed(Error::InvalidPresentationData),
                };
                let at = match id_to_builder.get(s.reference_id.as_str()) {
                    Some(at) => *at,
                    None => return Step::Failed(Error::InvalidPresentationData),
                };
                match suite::commit_range::<S>(s, &builders[at], credential, transcript) {
                    Ok(c) => Step::Built(PresentationBuilders::Range(c.builder), c.contributions),
                    Err(error) => Step::Failed(error),
                }
            },
            _ => Step::Skipped,
        }
    }

    /// Adds the answers of builders to the challenge to `proofs`, in order.
    fn add_proofs<S: ProofSuite>(
        builders: Vec<PresentationBuilders<S>>,
        challenge: Scalar,
        proofs: &mut OrderedMap<PresentationProofs>,
        given: Ghost<Seq<PresentationProofs>>,
    ) -> (r: Ghost<Seq<PresentationProofs>>)
        requires
            old(proofs)@ == creation::collected(given@),
        ensures
            final(proofs)@ == creation::collected(given@ + r@),
            r@.len() == builders@.len(),
            forall|j: int|
                0 <= j < builders@.len() ==> suite::proof_made(
                    #[trigger] builders@[j],
                    challenge,
                    r@[j],
                ),
    {
        let ghost all = builders@;
        let ghost mut made: Seq<PresentationProofs> = seq![];
        assert(given@ + made =~= given@);
        for builder in it: builders
            invariant
                it.seq() == all,
                made.len() == it.index(),
                proofs@ == creation::collected(given@ + made),
                forall|j: int|
                    0 <= j < made.len() ==> suite::proof_made(
                        #[trigger] all[j],
                        challenge,
                        made[j],
                    ),
        {
            let one = builder.gen_proof(challenge);
            let ghost before = made;
            proof {
                made = made.push(one);
                assert((given@ + made).drop_last() =~= given@ + before);
            }
            proofs.insert(one.id().clone(), one);
        }
        Ghost(made)
    }
}

/// Where a statement is about a claim of a credential, the message of that claim is there, and
/// either revealed or behind a blinder that proofs share.
spec fn subject_is_ready(
    credentials: OrderedMap<Credential>,
    messages: OrderedMap<Vec<ProofMessage>>,
    statement: Statements,
) -> bool {
    statement.subject() matches Some(s) ==> credentials@.dom().contains(s.0) ==> {
        &&& messages@.dom().contains(s.0)
        &&& s.1 < messages@[s.0]@.len()
        &&& messages@[s.0]@[s.1 as int] is Revealed || messages@[s.0]@[s.1 as int].is_shared()
    }
}

/// The same for all statements.
spec fn subjects_are_ready(
    credentials: OrderedMap<Credential>,
    messages: OrderedMap<Vec<ProofMessage>>,
    predicates: Seq<(Seq<char>, Statements)>,
) -> bool {
    forall|k: int|
        0 <= k < predicates.len() ==> subject_is_ready(
            credentials,
            messages,
            (#[trigger] predicates[k]).1,
        )
}

/// None of the statements is about a signature.
spec fn no_signatures(predicates: Seq<(Seq<char>, Statements)>) -> bool {
    forall|k: int| 0 <= k < predicates.len() ==> !((#[trigger] predicates[k]).1 is Signature)
}

/// There is a message for each claim of each credential, revealed where `revealed` has it.
spec fn messages_are_complete(
    credentials: OrderedMap<Credential>,
    messages: OrderedMap<Vec<ProofMessage>>,
    signatures: Seq<(Seq<char>, Statements)>,
    revealed: Map<Seq<char>, Seq<bool>>,
) -> bool {
    forall|k: int|
        0 <= k < signatures.len() ==> {
            let id = (#[trigger] signatures[k]).0;
            &&& messages@.dom().contains(id)
            &&& messages@[id]@.len() == credentials@[id].claims@.len()
            &&& creation::revealed_among(messages@[id]@) == revealed[id]
        }
}

/// A run and what came of it, given the messages.
spec fn run_taken<S: ProofSuite>(
    credentials: OrderedMap<Credential>,
    signatures: Seq<(Seq<char>, Statements)>,
    predicates: Seq<(Seq<char>, Statements)>,
    nonce: &[u8],
    run: CreateRun<S>,
    result: CredxResult<Presentation>,
) -> bool {
    &&& creation::discloses::<S>(
        credentials,
        signatures,
        message_types::revealed_claims(credentials@, signatures, predicates),
        run.disclosed,
        run.shown,
    )
    &&& run.disclosed.len() == run.signature_steps.len()
    &&& creation::signature_steps_taken(credentials, run.messages, signatures, run.signature_steps)
    &&& creation::predicate_steps_taken(
        credentials,
        run.messages,
        nonce,
        predicates,
        run.predicate_steps,
    )
    &&& creation::range_steps_taken(
        credentials,
        predicates,
        creation::built(run.signature_steps) + creation::built(run.predicate_steps),
        creation::registry(
            predicates,
            run.predicate_steps,
            creation::built(run.signature_steps).len() as int,
            predicates.len() as int,
        ),
        creation::log_before_ranges(nonce@, signatures, run),
        run.range_steps,
    )
    &&& match result {
        Err(e) => creation::stopped_with(
            run,
            signatures.len() as int,
            predicates.len() as int,
            e,
        ),
        Ok(p) => {
            &&& creation::all_finished(run, signatures.len() as int, predicates.len() as int)
            &&& creation::are_under_their_ids(signatures, run.disclosed, p.disclosed_messages)
            &&& creation::proved(signatures, nonce@, run, p)
        },
    }
}

/// The proofs of the ranges and of all others are the proofs of all builders.
proof fn lemma_proofs_joined<S: ProofSuite>(
    range_steps: Seq<Step<S>>,
    signature_steps: Seq<Step<S>>,
    predicate_steps: Seq<Step<S>>,
    challenge: Scalar,
    first: Seq<PresentationProofs>,
    second: Seq<PresentationProofs>,
)
    requires
        first.len() == creation::built(range_steps).len(),
        second.len() == (creation::built(signature_steps) + creation::built(predicate_steps)).len(),
        forall|j: int|
            0 <= j < first.len() ==> suite::proof_made(
                #[trigger] creation::built(range_steps)[j],
                challenge,
                first[j],
            ),
        forall|j: int|
            0 <= j < second.len() ==> suite::proof_made(
                #[trigger] (creation::built(signature_steps) + creation::built(predicate_steps))[j],
                challenge,
                second[j],
            ),
    ensures
        (first + second).len() == (creation::built(range_steps) + creation::built(
            signature_steps,
        ) + creation::built(
            predicate_steps,
        )).len(),
        forall|j: int|
            0 <= j < (first + second).len() ==> suite::proof_made(
                #[trigger] (creation::built(range_steps) + creation::built(
                    signature_steps,
                ) + creation::built(
                    predicate_steps,
                ))[j],
                challenge,
                (first + second)[j],
            ),
{
    let others = creation::built(signature_steps) + creation::built(predicate_steps);
    let all = creation::built(range_steps) + creation::built(signature_steps) + creation::built(
        predicate_steps,
    );
    assert(all =~= creation::built(range_steps) + others);
    assert forall|j: int| 0 <= j < all.len() implies suite::proof_made(
        #[trigger] all[j],
        challenge,
        (first + second)[j],
    ) by {
        if j < first.len() {
            assert(suite::proof_made(creation::built(range_steps)[j], challenge, first[j]));
        } else {
            assert(suite::proof_made(others[j - first.len()], challenge, second[j - first.len()]));
        }
    }
}

/// The messages are those of all claims, and those of the claims that statements are about are
/// ready.
proof fn lemma_messages_are_ready<S: ProofSuite>(
    credentials: OrderedMap<Credential>,
    signatures: Seq<(Seq<char>, Statements)>,
    predicates: Seq<(Seq<char>, Statements)>,
    draws: Seq<Scalar>,
    messages: OrderedMap<Vec<ProofMessage>>,
)
    requires
        forall|id: Seq<char>| #[trigger]
            credentials@.dom().contains(id) <==> ordered_map::has_key(signatures, id),
        message_types::references_resolve(credentials@, predicates),
        message_types::has_message_types::<S>(
            credentials@,
            signatures,
            predicates,
            draws,
            message_types::lists(messages),
        ),
    ensures
        messages_are_complete(
            credentials,
            messages,
            signatures,
            message_types::revealed_claims(credentials@, signatures, predicates),
        ),
        subjects_are_ready(credentials, messages, predicates),
{
    let revealed = message_types::revealed_claims(credentials@, signatures, predicates);
    let table = message_types::lists(messages);
    message_types::lemma_message_types::<S>(credentials@, signatures, predicates, draws, table);
    assert forall|k: int| 0 <= k < signatures.len() implies ({
        let id = (#[trigger] signatures[k]).0;
        &&& messages@.dom().contains(id)
        &&& messages@[id]@.len() == credentials@[id].claims@.len()
        &&& creation::revealed_among(messages@[id]@) == revealed[id]
    }) by {
        let id = signatures[k].0;
        assert(ordered_map::has_key(signatures, id));
        assert(table.dom().contains(id));
        assert(table[id] == messages@[id]@);
        assert(creation::revealed_among(table[id]) =~= revealed[id]);
    }
    assert forall|k: int| 0 <= k < predicates.len() implies subject_is_ready(
        credentials,
        messages,
        (#[trigger] predicates[k]).1,
    ) by {
        if let Some(subject) = predicates[k].1.subject() {
            if credentials@.dom().contains(subject.0) {
                assert(predicates[k].1.references()[0] == subject);
                assert(message_types::reference_resolves(
                    credentials@,
                    predicates,
                    predicates[k].1.references()[0],
                ));
                assert(message_types::is_referenced(predicates, subject.0, subject.1 as int));
                assert(table.dom().contains(subject.0));
                assert(table[subject.0][subject.1 as int]
                    == messages@[subject.0]@[subject.1 as int]);
            }
        }
    }
}

/// A presentation that is made holds a proof.
proof fn lemma_has_proofs<S: ProofSuite>(
    credentials: OrderedMap<Credential>,
    schema: PresentationSchema,
    nonce: &[u8],
    run: CreateRun<S>,
    presentation: Presentation,
)
    requires
        schema.statements.listing().len() > 0,
        message_types::signatures_of(schema.statements.listing()).len()
            + message_types::predicates_of(schema.statements.listing()).len()
            == schema.statements.listing().len(),
        creation::created(credentials, schema, nonce, run, Ok(presentation)),
    ensures
        presentation.proofs.listing().len() > 0,
{
    let signatures = message_types::signatures_of(schema.statements.listing());
    let predicates = message_types::predicates_of(schema.statements.listing());
    message_types::lemma_parts(schema.statements.listing());
    if signatures.len() > 0 {
        assert(creation::signature_step(
            credentials,
            run.messages,
            signatures[0],
            run.signature_steps[0],
        ));
        lemma_one_built(run.signature_steps, 0);
    } else {
        assert(creation::predicate_step(
            credentials,
            run.messages,
            nonce,
            predicates[0].1,
            run.predicate_steps[0],
        ));
        if predicates[0].1 is Range {
            assert(!(run.range_steps[0] is Failed));
            lemma_one_built(run.range_steps, 0);
        } else {
            assert(!(run.predicate_steps[0] is Failed));
            lemma_one_built(run.predicate_steps, 0);
        }
    }
    let id = run.proofs.last().inner().id@;
    assert(presentation.proofs@.dom().contains(id));
    let p = ordered_map::key_index(presentation.proofs.listing(), id);
    assert(ordered_map::has_key(presentation.proofs.listing(), id));
}

/// A step that has given a builder is among the builders.
proof fn lemma_one_built<S: ProofSuite>(steps: Seq<Step<S>>, k: int)
    requires
        0 <= k < steps.len(),
        steps[k] is Built,
    ensures
        creation::built(steps).len() > 0,
    decreases steps.len(),
{
    if k < steps.len() - 1 {
        lemma_one_built(steps.drop_last(), k);
    }
}

/// What is registered of the first steps does not depend on later ones.
proof fn lemma_registry_prefix<S: ProofSuite>(
    predicates: Seq<(Seq<char>, Statements)>,
    before: Seq<Step<S>>,
    after: Seq<Step<S>>,
    base: int,
    n: int,
)
    requires
        0 <= n <= before.len() <= after.len(),
        before =~= after.take(before.len() as int),
    ensures
        creation::registry(predicates, before, base, n) == creation::registry(
            predicates,
            after,
            base,
            n,
        ),
    decreases n,
{
    if n > 0 {
        lemma_registry_prefix(predicates, before, after, base, n - 1);
        assert(before[n - 1] == after[n - 1]);
        assert(before.take(n - 1) =~= after.take(n - 1));
    }
}

/// The labels of what is disclosed fit in a transcript where those of the revealed claims do.
proof fn lemma_labels_fit(
    statement: SignatureStatement,
    credential: Credential,
    revealed: Seq<bool>,
    disclosed: OrderedMap<ClaimData>,
)
    requires
        disclosed.wf(),
        creation::shown_map(disclosed) == creation::disclosure(statement, credential, revealed),
        creation::disclosure_fits(statement, credential, revealed),
    ensures
        challenge::labels_fit(disclosed),
{
    let listing = disclosed.listing();
    assert forall|i: int| 0 <= i < listing.len() implies challenge::text_fits(
        (#[trigger] listing[i]).0,
    ) by {
        ordered_map::lemma_entry_found(listing, i);
        let label = listing[i].0;
        assert(creation::shown_map(disclosed).dom().contains(label));
        let j = choose|j: int|
            0 <= j < credential.claims@.len() && revealed[j]
                && #[trigger] statement.issuer.schema.label(j) == Some(label);
        assert(revealed[j]);
    }
}

/// The step of one more range statement, taken with what the steps before it have bound, comes
/// behind them, and so do its builder and what it binds.
proof fn lemma_range_step_added<S: ProofSuite>(
    credentials: OrderedMap<Credential>,
    predicates: Seq<(Seq<char>, Statements)>,
    builders: Seq<PresentationBuilders<S>>,
    registry: Map<Seq<char>, int>,
    log: Seq<(Seq<char>, Seq<u8>)>,
    steps: Seq<Step<S>>,
    step: Step<S>,
)
    requires
        steps.len() < predicates.len(),
        creation::range_steps_taken(credentials, predicates, builders, registry, log, steps),
        creation::range_step(
            credentials,
            builders,
            registry,
            log + creation::joined(creation::step_pieces(steps)),
            predicates[steps.len() as int].1,
            step,
        ),
    ensures
        creation::range_steps_taken(
            credentials,
            predicates,
            builders,
            registry,
            log,
            steps.push(step),
        ),
        log + creation::joined(creation::step_pieces(steps.push(step))) == log + creation::joined(
            creation::step_pieces(steps),
        ) + creation::bound(step),
        creation::built(steps.push(step)) == match step {
            Step::Built(b, _) => creation::built(steps).push(b),
            _ => creation::built(steps),
        },
{
    let more = steps.push(step);
    assert(more.drop_last() =~= steps);
    let pieces = creation::step_pieces(more);
    assert(pieces.drop_last() =~= creation::step_pieces(steps));
    assert(pieces.last() == creation::bound(step));
    assert(log + creation::joined(pieces) =~= log + creation::joined(
        creation::step_pieces(steps),
    ) + creation::bound(step));
    assert forall|k: int| 0 <= k < more.len() implies creation::range_step(
        credentials,
        builders,
        registry,
        log + creation::joined(creation::step_pieces(more.take(k))),
        predicates[k].1,
        #[trigger] more[k],
    ) by {
        if k < steps.len() {
            assert(more.take(k) =~= steps.take(k));
            assert(more[k] == steps[k]);
        } else {
            assert(more.take(k) =~= steps);
        }
    }
}

} // verus!
