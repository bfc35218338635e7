//! Parting the statements of a schema, and finding out how each claim takes part in the proofs.
use vstd::prelude::*;
use crate::credential::Credential;
use crate::error::{CredxResult, Error};
use crate::linking;
use crate::message::{HiddenMessage, ProofMessage};
use crate::message_types;
use crate::ordered_map;
use crate::ordered_map::OrderedMap;
use crate::presentation::Presentation;
use crate::scalar::{Draws, Scalar};
use crate::statement::{PresentationSchema, SignatureStatement, StatementType, Statements};
use crate::suite;
use crate::suite::ProofSuite;

verus! {

impl Presentation {
    /// Parts the statements of a schema into those about signatures and all others.
    pub fn split_statements(schema: &PresentationSchema) -> (r: (
        OrderedMap<&Statements>,
        OrderedMap<&Statements>,
    ))
        ensures
            message_types::borrowed(r.0) == message_types::signatures_of(
                schema.statements.listing(),
            ),
            message_types::borrowed(r.1) == message_types::predicates_of(
                schema.statements.listing(),
            ),
    {
        let mut signatures: OrderedMap<&Statements> = OrderedMap::new();
        let mut predicates: OrderedMap<&Statements> = OrderedMap::new();
        let ghost all = schema.statements.listing();
        let n = schema.statements.len();
        let mut i: usize = 0;
        proof {
            reveal(Seq::filter);
            assert(all.take(0) =~= seq![]);
            assert(message_types::borrowed(signatures) =~= message_types::signatures_of(
                all.take(0),
            ));
            assert(message_types::borrowed(predicates) =~= message_types::predicates_of(
                all.take(0),
            ));
            use_type_invariant(&schema.statements);
        }
        while i < n
            invariant
                n == all.len(),
                all == schema.statements.listing(),
                ordered_map::ascending(all),
                i <= n,
                message_types::borrowed(signatures) == message_types::signatures_of(
                    all.take(i as int),
                ),
                message_types::borrowed(predicates) == message_types::predicates_of(
                    all.take(i as int),
                ),
                forall|p: int|
                    0 <= p < signatures.listing().len() && i < n ==> ordered_map::text_before(
                        (#[trigger] signatures.listing()[p]).0,
                        all[i as int].0,
                    ),
                forall|p: int|
                    0 <= p < predicates.listing().len() && i < n ==> ordered_map::text_before(
                        (#[trigger] predicates.listing()[p]).0,
                        all[i as int].0,
                    ),
            decreases n - i,
        {
            let id = schema.statements.key_at(i);
            let statement = schema.statements.value_at(i);
            let ghost signatures_before = signatures.listing();
            let ghost predicates_before = predicates.listing();
            match statement.statement_type() {
                StatementType::PS | StatementType::BBS => {
                    signatures.insert(id.clone(), statement);
                },
                _ => {
                    predicates.insert(id.clone(), statement);
                },
            }
            proof {
                reveal(Seq::filter);
                let now = all.take(i + 1);
                assert(now.drop_last() =~= all.take(i as int));
                assert(now.last() == all[i as int]);
                assert(message_types::borrowed(signatures) =~= message_types::signatures_of(now));
                assert(message_types::borrowed(predicates) =~= message_types::predicates_of(now));
                if i + 1 < n {
                    assert forall|p: int|
                        0 <= p < signatures.listing().len() implies ordered_map::text_before(
                        (#[trigger] signatures.listing()[p]).0,
                        all[i + 1].0,
                    ) by {
                        if p < signatures_before.len() {
                            ordered_map::lemma_text_order_transitive(
                                signatures_before[p].0,
                                all[i as int].0,
                                all[i + 1].0,
                            );
                        }
                    }
                    assert forall|p: int|
                        0 <= p < predicates.listing().len() implies ordered_map::text_before(
                        (#[trigger] predicates.listing()[p]).0,
                        all[i + 1].0,
                    ) by {
                        if p < predicates_before.len() {
                            ordered_map::lemma_text_order_transitive(
                                predicates_before[p].0,
                                all[i as int].0,
                                all[i + 1].0,
                            );
                        }
                    }
                }
            }
            i = i + 1;
        }
        assert(all.take(n as int) =~= all);
        (signatures, predicates)
    }

    /// For every claim of every credential, whether a predicate speaks of it; an error where a
    /// predicate speaks of what is neither a claim nor a predicate.
    pub fn referenced_claims(
        credentials: &OrderedMap<Credential>,
        predicates: &OrderedMap<&Statements>,
    ) -> (r: CredxResult<OrderedMap<Vec<bool>>>)
        ensures
            r is Ok <==> message_types::references_resolve(
                credentials@,
                message_types::borrowed(*predicates),
            ),
            r matches Err(e) ==> e == Error::InvalidPresentationData,
            r matches Ok(flags) ==> message_types::flags_references(
                flags,
                *credentials,
                message_types::borrowed(*predicates),
            ),
    {
        let mut flags = Self::no_references(credentials);
        let ghost all = message_types::borrowed(*predicates);
        let n = predicates.len();
        let mut k: usize = 0;
        proof {
            use_type_invariant(credentials);
            use_type_invariant(predicates);
            assert forall|id: Seq<char>| flags@.dom().contains(id) implies #[trigger] flags@[id]@
                =~= Seq::new(
                credentials@[id].claims@.len(),
                |i: int| is_referenced_by(all, 0, 0, id, i),
            ) by {}
        }
        while k < n
            invariant
                n == all.len(),
                k <= n,
                all == message_types::borrowed(*predicates),
                flags@.dom() == credentials@.dom(),
                forall|id: Seq<char>| #[trigger]
                    flags@.dom().contains(id) ==> flags@[id]@ =~= Seq::new(
                        credentials@[id].claims@.len(),
                        |i: int| is_referenced_by(all, k as int, 0, id, i),
                    ),
                forall|p: int, q: int|
                    0 <= p < k && 0 <= q < all[p].1.references().len()
                        ==> message_types::reference_resolves(
                        credentials@,
                        all,
                        #[trigger] all[p].1.references()[q],
                    ),
            decreases n - k,
        {
            let statement = *predicates.value_at(k);
            let ids = statement.reference_ids();
            let ghost references = statement.references();
            let mut j: usize = 0;
            assert(all[k as int].1 == *statement);
            while j < ids.len()
                invariant
                    n == all.len(),
                    k < n,
                    all == message_types::borrowed(*predicates),
                    all[k as int].1 == *statement,
                    references == statement.references(),
                    ids@.len() == references.len(),
                    forall|q: int| 0 <= q < ids@.len() ==> (#[trigger] ids@[q])@ == references[q].0,
                    j <= ids@.len(),
                    flags@.dom() == credentials@.dom(),
                    forall|id: Seq<char>| #[trigger]
                        flags@.dom().contains(id) ==> flags@[id]@ =~= Seq::new(
                            credentials@[id].claims@.len(),
                            |i: int| is_referenced_by(all, k as int, j as int, id, i),
                        ),
                    forall|p: int, q: int|
                        0 <= p < k && 0 <= q < all[p].1.references().len()
                            ==> message_types::reference_resolves(
                            credentials@,
                            all,
                            #[trigger] all[p].1.references()[q],
                        ),
                    forall|q: int|
                        0 <= q < j ==> message_types::reference_resolves(
                            credentials@,
                            all,
                            #[trigger] references[q],
                        ),
                decreases ids@.len() - j,
            {
                let id = ids[j].as_str();
                let ghost reference = references[j as int];
                assert(all[k as int].1.references()[j as int] == reference);
                match flags.position(id) {
                    None => {
                        if !predicates.contains_key(id) {
                            proof {
                                message_types::lemma_borrowed_keys(*predicates, id@);
                            }
                            return Err(Error::InvalidPresentationData);
                        }
                        proof {
                            message_types::lemma_borrowed_keys(*predicates, id@);
                        }
                    },
                    Some(at) => {
                        let index = statement.get_claim_index(id);
                        let mut marks = flags.value_at(at).clone();
                        if index >= marks.len() {
                            return Err(Error::InvalidPresentationData);
                        }
                        marks.set(index, true);
                        flags.set(at, marks);
                    },
                }
                j = j + 1;
            }
            k = k + 1;
        }
        Ok(flags)
    }

    /// Flags for every claim of every credential, none of them set.
    fn no_references(credentials: &OrderedMap<Credential>) -> (r: OrderedMap<Vec<bool>>)
        ensures
            r@.dom() == credentials@.dom(),
            forall|id: Seq<char>| #[trigger]
                r@.dom().contains(id) ==> r@[id]@ =~= Seq::new(
                    credentials@[id].claims@.len(),
                    |i: int| false,
                ),
    {
        let mut flags: OrderedMap<Vec<bool>> = OrderedMap::new();
        let ghost all = credentials.listing();
        let n = credentials.len();
        let mut i: usize = 0;
        while i < n
            invariant
                n == all.len(),
                all == credentials.listing(),
                i <= n,
                forall|id: Seq<char>|
                    #[trigger] flags@.dom().contains(id) <==> ordered_map::has_key(
                        all.take(i as int),
                        id,
                    ),
                forall|id: Seq<char>| #[trigger]
                    flags@.dom().contains(id) ==> flags@[id]@ =~= Seq::new(
                        credentials@[id].claims@.len(),
                        |i: int| false,
                    ),
            decreases n - i,
        {
            let claims = credentials.value_at(i).claims.len();
            let mut marks: Vec<bool> = Vec::new();
            let mut j: usize = 0;
            while j < claims
                invariant
                    j <= claims,
                    marks@ =~= Seq::new(j as nat, |i: int| false),
                decreases claims - j,
            {
                marks.push(false);
                j = j + 1;
            }
            flags.insert(credentials.key_at(i).clone(), marks);
            proof {
                use_type_invariant(credentials);
                ordered_map::lemma_entry_found(all, i as int);
                let now = all.take(i + 1);
                assert forall|id: Seq<char>| #[trigger]
                    flags@.dom().contains(id) <==> ordered_map::has_key(now, id) by {
                    if ordered_map::has_key(now, id) {
                        let p = ordered_map::key_index(now, id);
                        if p < i {
                            assert(all.take(i as int)[p].0 == id);
                        }
                    }
                    if ordered_map::has_key(all.take(i as int), id) {
                        let p = ordered_map::key_index(all.take(i as int), id);
                        assert(now[p].0 == id);
                    }
                    assert(now[i as int].0 == all[i as int].0);
                }
            }
            i = i + 1;
        }
        proof {
            assert(all.take(n as int) =~= all);
            assert(flags@.dom() =~= credentials@.dom());
        }
        flags
    }

    /// Whether the statement discloses the claim at `index`, which has a label.
    fn is_disclosed(statement: &SignatureStatement, index: usize) -> (r: bool)
        requires
            statement.issuer.schema.label(index as int) is Some,
        ensures
            r == statement.discloses(index as int),
    {
        let label = statement.issuer.schema.claim_label(index).unwrap();
        statement.disclosed.contains_key(label.as_str())
    }

    /// Draws a blinder for each claim that is shared, in order of signature statements and then of
    /// indices.
    fn draw_blinders(
        credentials: &OrderedMap<Credential>,
        signatures: &OrderedMap<&Statements>,
        flags: &OrderedMap<Vec<bool>>,
        open: &Vec<Vec<bool>>,
        draws: &mut Draws,
        predicates: Ghost<Seq<(Seq<char>, Statements)>>,
    ) -> (r: OrderedMap<Vec<Scalar>>)
        requires
            message_types::signatures_are_held(credentials@, message_types::borrowed(*signatures)),
            message_types::flags_references(*flags, *credentials, predicates@),
            are_open(
                credentials@,
                message_types::borrowed(*signatures),
                predicates@,
                open@,
            ),
        ensures
            message_types::is_per_claim(
                credentials@,
                message_types::borrowed(*signatures),
                message_types::lists(r),
            ),
            draws_made(
                message_types::borrowed(*signatures),
                predicates@,
                message_types::lists(r),
                old(draws).drawn(),
                final(draws).drawn(),
            ),
    {
        let mut blinders: OrderedMap<Vec<Scalar>> = OrderedMap::new();
        let ghost all = message_types::borrowed(*signatures);
        let ghost start = draws.drawn();
        let ghost mut fresh: Seq<Scalar> = seq![];
        let n = signatures.len();
        let mut k: usize = 0;
        proof {
            use_type_invariant(signatures);
            message_types::lemma_borrowed_ascending(*signatures);
            assert(draws.drawn() =~= start + fresh);
        }
        while k < n
            invariant
                n == all.len(),
                all == message_types::borrowed(*signatures),
                ordered_map::ascending(all),
                k <= n,
                message_types::signatures_are_held(credentials@, all),
                message_types::flags_references(*flags, *credentials, predicates@),
                are_open(credentials@, all, predicates@, open@),
                start == old(draws).drawn(),
                draws.drawn() == start + fresh,
                fresh == message_types::shared_draws(
                    all,
                    predicates@,
                    message_types::lists(blinders),
                    k as int,
                ),
                forall|j: int| 0 <= j < fresh.len() ==> (#[trigger] fresh[j]).is_drawn(),
                forall|p: int|
                    0 <= p < k ==> message_types::lists(blinders).dom().contains(
                        (#[trigger] all[p]).0,
                    ) && message_types::lists(blinders)[all[p].0].len()
                        == credentials@[all[p].0].claims@.len(),
            decreases n - k,
        {
            let id = signatures.key_at(k);
            assert(all[k as int].0 == id@);
            assert(credentials@.dom().contains(all[k as int].0));
            let marks = flags.get(id.as_str()).unwrap();
            let (own, Ghost(more)) = Self::draw_own_blinders(
                marks,
                &open[k],
                draws,
                Ghost(all),
                predicates,
                Ghost(k as int),
            );
            let ghost before = blinders;
            let ghost now = own;
            blinders.insert(id.clone(), own);
            proof {
                assert(message_types::lists(blinders) =~= message_types::lists(before).insert(
                    id@,
                    now@,
                ));
                assert forall|p: int| 0 <= p < k implies (#[trigger] all[p]).0 != id@ by {
                    ordered_map::lemma_text_order(all[p].0, all[k as int].0);
                }
                lemma_draws_kept(
                    all,
                    predicates@,
                    message_types::lists(before),
                    message_types::lists(blinders),
                    k as int,
                );
                assert(draws.drawn() =~= start + (fresh + more));
                fresh = fresh + more;
            }
            k = k + 1;
        }
        proof {
            let after = draws.drawn();
            assert(after.skip(start.len() as int) =~= fresh);
            assert(after =~= start + fresh);
        }
        blinders
    }

    /// Draws a blinder for each claim of the `k`-th signature statement that is shared.
    fn draw_own_blinders(
        marks: &Vec<bool>,
        open: &Vec<bool>,
        draws: &mut Draws,
        signatures: Ghost<Seq<(Seq<char>, Statements)>>,
        predicates: Ghost<Seq<(Seq<char>, Statements)>>,
        k: Ghost<int>,
    ) -> (r: (Vec<Scalar>, Ghost<Seq<Scalar>>))
        requires
            marks@.len() == open@.len(),
            forall|i: int|
                0 <= i < marks@.len() ==> (#[trigger] marks@[i]) == message_types::is_referenced(
                    predicates@,
                    signatures@[k@].0,
                    i,
                ),
            forall|i: int|
                0 <= i < open@.len() ==> (#[trigger] open@[i]) == linking::is_open(
                    signatures@,
                    predicates@,
                    (k@, i),
                ),
        ensures
            r.0@.len() == marks@.len(),
            r.1@ == message_types::own_draws(
                signatures@,
                predicates@,
                r.0@,
                k@,
                r.0@.len() as int,
            ),
            final(draws).drawn() == old(draws).drawn() + r.1@,
            forall|j: int| 0 <= j < r.1@.len() ==> (#[trigger] r.1@[j]).is_drawn(),
    {
        let ghost start = draws.drawn();
        let ghost mut fresh: Seq<Scalar> = seq![];
        let mut own: Vec<Scalar> = Vec::new();
        let mut i: usize = 0;
        assert(draws.drawn() =~= start + fresh);
        while i < marks.len()
            invariant
                marks@.len() == open@.len(),
                forall|i: int|
                    0 <= i < marks@.len() ==> (#[trigger] marks@[i])
                        == message_types::is_referenced(predicates@, signatures@[k@].0, i),
                forall|i: int|
                    0 <= i < open@.len() ==> (#[trigger] open@[i]) == linking::is_open(
                        signatures@,
                        predicates@,
                        (k@, i),
                    ),
                i <= marks@.len(),
                own@.len() == i,
                start == old(draws).drawn(),
                draws.drawn() == start + fresh,
                fresh == message_types::own_draws(
                    signatures@,
                    predicates@,
                    own@,
                    k@,
                    i as int,
                ),
                forall|j: int| 0 <= j < fresh.len() ==> (#[trigger] fresh[j]).is_drawn(),
            decreases marks@.len() - i,
        {
            let ghost before = own@;
            if !open[i] && marks[i] {
                let blinder = draws.draw();
                own.push(blinder);
                proof {
                    assert(draws.drawn() =~= start + fresh.push(blinder));
                    fresh = fresh.push(blinder);
                }
            } else {
                own.push(Scalar::zero());
            }
            proof {
                lemma_own_draws_kept(signatures@, predicates@, before, own@, k@, i as int);
            }
            i = i + 1;
        }
        (own, Ghost(fresh))
    }

    /// The scalars of all claims, as the suite encodes them.
    fn encode_claims<S: ProofSuite>(
        credentials: &OrderedMap<Credential>,
        signatures: &OrderedMap<&Statements>,
    ) -> (r: OrderedMap<Vec<Scalar>>)
        requires
            message_types::signatures_are_held(credentials@, message_types::borrowed(*signatures)),
        ensures
            message_types::is_per_claim(
                credentials@,
                message_types::borrowed(*signatures),
                message_types::lists(r),
            ),
            message_types::scalars_are_encoded::<S>(
                credentials@,
                message_types::borrowed(*signatures),
                message_types::lists(r),
            ),
    {
        let mut scalars: OrderedMap<Vec<Scalar>> = OrderedMap::new();
        let ghost all = message_types::borrowed(*signatures);
        let n = signatures.len();
        let mut k: usize = 0;
        proof {
            use_type_invariant(signatures);
            message_types::lemma_borrowed_ascending(*signatures);
        }
        while k < n
            invariant
                n == all.len(),
                all == message_types::borrowed(*signatures),
                ordered_map::ascending(all),
                k <= n,
                message_types::signatures_are_held(credentials@, all),
                forall|p: int|
                    0 <= p < k ==> message_types::lists(scalars).dom().contains(
                        (#[trigger] all[p]).0,
                    ) && scalars_fit::<S>(
                        credentials@[all[p].0],
                        message_types::lists(scalars)[all[p].0],
                    ),
            decreases n - k,
        {
            let id = signatures.key_at(k);
            assert(all[k as int].0 == id@);
            let credential = credentials.get(id.as_str()).unwrap();
            let mut own: Vec<Scalar> = Vec::new();
            let mut i: usize = 0;
            while i < credential.claims.len()
                invariant
                    i <= credential.claims@.len(),
                    own@.len() == i,
                    forall|j: int|
                        0 <= j < i ==> message_types::scalar_given::<S>(
                            credential.claims@[j],
                            #[trigger] own@[j],
                        ),
                decreases credential.claims@.len() - i,
            {
                let encoding = S::encode_claim(&credential.claims[i]);
                proof {
                    assert(suite::encoded::<S>(credential.claims@[i as int], encoding@));
                }
                own.push(encoding.to_scalar());
                i = i + 1;
            }
            let ghost before = scalars;
            let ghost now = own;
            scalars.insert(id.clone(), own);
            proof {
                assert(message_types::lists(scalars) =~= message_types::lists(before).insert(
                    id@,
                    now@,
                ));
                assert forall|p: int| 0 <= p < k + 1 implies message_types::lists(
                    scalars,
                ).dom().contains((#[trigger] all[p]).0) && scalars_fit::<S>(
                    credentials@[all[p].0],
                    message_types::lists(scalars)[all[p].0],
                ) by {
                    if p < k {
                        ordered_map::lemma_text_order(all[p].0, all[k as int].0);
                    }
                }
            }
            k = k + 1;
        }
        proof {
            let table = message_types::lists(scalars);
            assert forall|k: int, i: int|
                0 <= k < all.len() && 0 <= i < credentials@[all[k].0].claims@.len()
                implies message_types::scalar_given::<S>(
                credentials@[all[k].0].claims@[i],
                #[trigger] table[all[k].0][i],
            ) by {
                assert(scalars_fit::<S>(credentials@[all[k].0], table[all[k].0]));
            }
        }
        scalars
    }

    /// For each claim the first of the claims that comparisons link it with.
    fn lead_claims(
        credentials: &OrderedMap<Credential>,
        signatures: &OrderedMap<&Statements>,
        predicates: &OrderedMap<&Statements>,
    ) -> (r: Vec<Vec<(usize, usize)>>)
        requires
            message_types::signatures_are_held(credentials@, message_types::borrowed(*signatures)),
            message_types::shared_claims_are_signed(
                message_types::borrowed(*signatures),
                message_types::borrowed(*predicates),
            ),
            message_types::references_resolve(credentials@, message_types::borrowed(*predicates)),
        ensures
            is_led(
                credentials@,
                message_types::borrowed(*signatures),
                message_types::borrowed(*predicates),
                r@,
            ),
    {
        let ghost sigs = message_types::borrowed(*signatures);
        let ghost all = message_types::borrowed(*predicates);
        let mut leaders = Self::lead_themselves(credentials, signatures);
        let n = predicates.len();
        let mut k: usize = 0;
        proof {
            use_type_invariant(signatures);
            message_types::lemma_borrowed_ascending(*signatures);
            assert(all.take(0) =~= seq![]);
        }
        while k < n
            invariant
                n == all.len(),
                all == message_types::borrowed(*predicates),
                ordered_map::ascending(sigs),
                sigs == message_types::borrowed(*signatures),
                k <= n,
                message_types::signatures_are_held(credentials@, sigs),
                message_types::shared_claims_are_signed(sigs, all),
                message_types::references_resolve(credentials@, all),
                is_led(credentials@, sigs, all.take(k as int), leaders@),
            decreases n - k,
        {
            let statement = *predicates.value_at(k);
            proof {
                assert(all[k as int].1 == *statement);
                assert(all.take(k + 1) =~= all.take(k as int).push(all[k as int]));
                lemma_references_are_places(credentials@, sigs, all, k as int);
            }
            let tied = Self::tied_leaders(credentials, signatures, statement, &leaders);
            let merged = Self::merge_leaders(&leaders, &tied);
            proof {
                lemma_merged(
                    credentials@,
                    sigs,
                    all.take(k as int),
                    all[k as int],
                    leaders@,
                    tied@,
                    merged@,
                );
            }
            leaders = merged;
            k = k + 1;
        }
        assert(all.take(n as int) =~= all);
        leaders
    }

    /// Each claim alone.
    fn lead_themselves(
        credentials: &OrderedMap<Credential>,
        signatures: &OrderedMap<&Statements>,
    ) -> (r: Vec<Vec<(usize, usize)>>)
        requires
            message_types::signatures_are_held(credentials@, message_types::borrowed(*signatures)),
        ensures
            is_led(credentials@, message_types::borrowed(*signatures), seq![], r@),
    {
        let ghost sigs = message_types::borrowed(*signatures);
        let mut leaders: Vec<Vec<(usize, usize)>> = Vec::new();
        let n = signatures.len();
        let mut p: usize = 0;
        while p < n
            invariant
                n == sigs.len(),
                sigs == message_types::borrowed(*signatures),
                message_types::signatures_are_held(credentials@, sigs),
                p <= n,
                leaders@.len() == p,
                forall|q: int|
                    0 <= q < p ==> (#[trigger] leaders@[q])@.len()
                        == credentials@[sigs[q].0].claims@.len(),
                forall|q: int, j: int|
                    0 <= q < p && 0 <= j < leaders@[q]@.len() ==> place(
                        #[trigger] leaders@[q]@[j],
                    ) == (q, j),
            decreases n - p,
        {
            let id = signatures.key_at(p);
            assert(sigs[p as int].0 == id@);
            let claims = credentials.get(id.as_str()).unwrap().claims.len();
            let mut own: Vec<(usize, usize)> = Vec::new();
            let mut i: usize = 0;
            while i < claims
                invariant
                    i <= claims,
                    own@.len() == i,
                    forall|j: int| 0 <= j < i ==> place(#[trigger] own@[j]) == (p as int, j),
                decreases claims - i,
            {
                own.push((p, i));
                i = i + 1;
            }
            leaders.push(own);
            p = p + 1;
        }
        proof {
            assert forall|a: (int, int)| is_place(credentials@, sigs, a) implies is_place(
                credentials@,
                sigs,
                #[trigger] leader_at(leaders@, a),
            ) && linking::is_led_by(sigs, seq![], a, leader_at(leaders@, a)) by {
                assert(place(leaders@[a.0]@[a.1]) == (a.0, a.1));
                assert(leader_at(leaders@, a) == a);
                linking::lemma_linked(sigs, seq![], a, a);
                assert forall|c: (int, int)| #[trigger]
                    linking::are_linked(sigs, seq![], a, c) implies !linking::place_before(
                    c,
                    a,
                ) by {
                    linking::lemma_linked_by_none(sigs, a, c);
                }
            }
        }
        leaders
    }

    /// The leaders of the claims that a statement of several claims speaks of.
    fn tied_leaders(
        credentials: &OrderedMap<Credential>,
        signatures: &OrderedMap<&Statements>,
        statement: &Statements,
        leaders: &Vec<Vec<(usize, usize)>>,
    ) -> (r: Vec<(usize, usize)>)
        requires
            message_types::signatures_are_held(credentials@, message_types::borrowed(*signatures)),
            statement.references().len() > 1 ==> forall|j: int|
                0 <= j < statement.references().len() ==> reference_is_place(
                    credentials@,
                    message_types::borrowed(*signatures),
                    #[trigger] statement.references()[j],
                ),
            has_shape(credentials@, message_types::borrowed(*signatures), leaders@),
        ensures
            are_tied(message_types::borrowed(*signatures), *statement, leaders@, r@),
    {
        let ghost sigs = message_types::borrowed(*signatures);
        let ids = statement.reference_ids();
        let ghost references = statement.references();
        let mut tied: Vec<(usize, usize)> = Vec::new();
        if ids.len() <= 1 {
            return tied;
        }
        proof {
            use_type_invariant(signatures);
            message_types::lemma_borrowed_ascending(*signatures);
        }
        let mut j: usize = 0;
        while j < ids.len()
            invariant
                sigs == message_types::borrowed(*signatures),
                ordered_map::ascending(sigs),
                message_types::signatures_are_held(credentials@, sigs),
                references == statement.references(),
                ids@.len() == references.len(),
                references.len() > 1,
                forall|q: int| 0 <= q < ids@.len() ==> (#[trigger] ids@[q])@ == references[q].0,
                forall|q: int|
                    0 <= q < references.len() ==> reference_is_place(
                        credentials@,
                        sigs,
                        #[trigger] references[q],
                    ),
                has_shape(credentials@, sigs, leaders@),
                j <= ids@.len(),
                forall|q: int|
                    0 <= q < j ==> has_leader(
                        tied@,
                        leader_at(leaders@, place_of(sigs, #[trigger] references[q])),
                    ),
                forall|t: int|
                    0 <= t < tied@.len() ==> leads_tied(
                        sigs,
                        *statement,
                        leaders@,
                        #[trigger] tied@[t],
                    ),
            decreases ids@.len() - j,
        {
            let id = ids[j].as_str();
            let ghost reference = references[j as int];
            assert(reference.0 == id@);
            assert(ordered_map::has_key(sigs, id@));
            let ghost p = ordered_map::key_index(sigs, id@);
            proof {
                assert(signatures.listing()[p].0 == id@);
                assert(ordered_map::has_key(signatures.listing(), id@));
            }
            let at = signatures.position(id).unwrap();
            let index = statement.get_claim_index(id);
            proof {
                assert(sigs[at as int].0 == id@);
                ordered_map::lemma_entry_found(sigs, at as int);
                assert(index == reference.1) by {
                    assert(statement.references()[j as int].0 == id@);
                }
            }
            let ghost here = (at as int, index as int);
            assert(here == place_of(sigs, reference));
            assert(is_place(credentials@, sigs, here));
            let leader = leaders[at][index];
            let ghost before = tied@;
            tied.push(leader);
            proof {
                assert(tied@[before.len() as int] == leader);
                assert forall|q: int| 0 <= q < j + 1 implies has_leader(
                    tied@,
                    leader_at(leaders@, place_of(sigs, #[trigger] references[q])),
                ) by {
                    if q < j {
                        let l = leader_at(leaders@, place_of(sigs, references[q]));
                        assert(has_leader(before, l));
                        let t = choose|t: int|
                            0 <= t < before.len() && place(#[trigger] before[t]) == l;
                        assert(tied@[t] == before[t]);
                    } else {
                        assert(place(tied@[before.len() as int]) == leader_at(
                            leaders@,
                            place_of(sigs, references[q]),
                        ));
                    }
                }
                assert(leads_tied(sigs, *statement, leaders@, leader)) by {
                    assert(statement.references()[j as int].0 == sigs[at as int].0);
                    assert(linking::ties(sigs, *statement, (at as int, index as int)));
                }
            }
            j = j + 1;
        }
        proof {
            assert forall|a: (int, int)| #[trigger]
                linking::ties(sigs, *statement, a) implies has_leader(
                tied@,
                leader_at(leaders@, a),
            ) by {
                let q = choose|q: int|
                    0 <= q < references.len() && (#[trigger] references[q]).0 == sigs[a.0].0
                        && references[q].1 == a.1;
                ordered_map::lemma_entry_found(sigs, a.0);
                assert(place_of(sigs, references[q]) == a);
            }
        }
        tied
    }

    /// Gives all claims that are led by one of `tied` the first of these as their leader.
    fn merge_leaders(leaders: &Vec<Vec<(usize, usize)>>, tied: &Vec<(usize, usize)>) -> (r: Vec<
        Vec<(usize, usize)>,
    >)
        ensures
            are_merged(leaders@, tied@, r@),
    {
        let mut best: (usize, usize) = (0, 0);
        let mut t: usize = 0;
        while t < tied.len()
            invariant
                t <= tied@.len(),
                t > 0 ==> is_first(tied@.take(t as int), best),
            decreases tied@.len() - t,
        {
            let one = tied[t];
            let ghost before = best;
            if t == 0 || one.0 < best.0 || (one.0 == best.0 && one.1 < best.1) {
                best = one;
            }
            proof {
                let now = tied@.take(t + 1);
                let earlier = tied@.take(t as int);
                assert(now[t as int] == one);
                assert forall|u: int| 0 <= u < now.len() implies !linking::place_before(
                    place(#[trigger] now[u]),
                    place(best),
                ) by {
                    if u < t {
                        assert(now[u] == earlier[u]);
                    }
                }
                if best != one {
                    let u = choose|u: int| 0 <= u < earlier.len()
                        && #[trigger] earlier[u] == before;
                    assert(now[u] == best);
                }
            }
            t = t + 1;
        }
        assert(tied@.take(tied@.len() as int) =~= tied@);
        let mut merged: Vec<Vec<(usize, usize)>> = Vec::new();
        let mut p: usize = 0;
        while p < leaders.len()
            invariant
                p <= leaders@.len(),
                tied@.len() > 0 ==> is_first(tied@, best),
                merged@.len() == p,
                forall|q: int|
                    0 <= q < p ==> (#[trigger] merged@[q])@.len() == leaders@[q]@.len(),
                forall|q: int, i: int|
                    0 <= q < p && 0 <= i < leaders@[q]@.len() ==> (#[trigger] merged@[q]@[i])
                        == if tied@.contains(leaders@[q]@[i]) {
                        best
                    } else {
                        leaders@[q]@[i]
                    },
            decreases leaders@.len() - p,
        {
            let mut row: Vec<(usize, usize)> = Vec::new();
            let mut i: usize = 0;
            while i < leaders[p].len()
                invariant
                    0 <= p < leaders@.len(),
                    i <= leaders@[p as int]@.len(),
                    row@.len() == i,
                    forall|j: int|
                        0 <= j < i ==> (#[trigger] row@[j]) == if tied@.contains(
                            leaders@[p as int]@[j],
                        ) {
                            best
                        } else {
                            leaders@[p as int]@[j]
                        },
                decreases leaders@[p as int]@.len() - i,
            {
                let leader = leaders[p][i];
                if Self::is_among(&leader, tied) {
                    row.push(best);
                } else {
                    row.push(leader);
                }
                i = i + 1;
            }
            merged.push(row);
            p = p + 1;
        }
        assert(place(best).0 == best.0);
        merged
    }

    /// Whether a place is among others.
    fn is_among(leader: &(usize, usize), tied: &Vec<(usize, usize)>) -> (r: bool)
        ensures
            r == tied@.contains(*leader),
    {
        let mut t: usize = 0;
        while t < tied.len()
            invariant
                t <= tied@.len(),
                forall|u: int| 0 <= u < t ==> tied@[u] != *leader,
            decreases tied@.len() - t,
        {
            if tied[t].0 == leader.0 && tied[t].1 == leader.1 {
                assert(tied@[t as int] == *leader);
                return true;
            }
            t = t + 1;
        }
        false
    }

    /// The leaders of the claims that are not disclosed.
    fn hidden_leaders(
        credentials: &OrderedMap<Credential>,
        signatures: &OrderedMap<&Statements>,
        leaders: &Vec<Vec<(usize, usize)>>,
    ) -> (r: Vec<(usize, usize)>)
        requires
            message_types::signatures_are_held(credentials@, message_types::borrowed(*signatures)),
            message_types::claims_are_labelled(credentials@, message_types::borrowed(*signatures)),
            has_shape(credentials@, message_types::borrowed(*signatures), leaders@),
        ensures
            lead_hidden(credentials@, message_types::borrowed(*signatures), leaders@, r@),
    {
        let ghost sigs = message_types::borrowed(*signatures);
        let mut hidden: Vec<(usize, usize)> = Vec::new();
        let n = signatures.len();
        let mut k: usize = 0;
        while k < n
            invariant
                n == sigs.len(),
                sigs == message_types::borrowed(*signatures),
                k <= n,
                message_types::signatures_are_held(credentials@, sigs),
                message_types::claims_are_labelled(credentials@, sigs),
                has_shape(credentials@, sigs, leaders@),
                forall|a: (int, int)|
                    a.0 < k && is_place(credentials@, sigs, a) && linking::is_hidden(sigs, a)
                        ==> has_leader(hidden@, #[trigger] leader_at(leaders@, a)),
                forall|t: int|
                    0 <= t < hidden@.len() ==> leads_hidden(
                        credentials@,
                        sigs,
                        leaders@,
                        #[trigger] hidden@[t],
                    ),
            decreases n - k,
        {
            let row = &leaders[k];
            if let Statements::Signature(statement) = *signatures.value_at(k) {
                assert(sigs[k as int].1->Signature_0 == *statement);
                let mut i: usize = 0;
                while i < row.len()
                    invariant
                        n == sigs.len(),
                        0 <= k < n,
                        *row == leaders@[k as int],
                        sigs[k as int].1->Signature_0 == *statement,
                        message_types::claims_are_labelled(credentials@, sigs),
                        has_shape(credentials@, sigs, leaders@),
                        i <= row@.len(),
                        forall|a: (int, int)|
                            (a.0 < k || (a.0 == k && a.1 < i)) && is_place(credentials@, sigs, a)
                                && linking::is_hidden(sigs, a) ==> has_leader(
                                hidden@,
                                #[trigger] leader_at(leaders@, a),
                            ),
                        forall|t: int|
                            0 <= t < hidden@.len() ==> leads_hidden(
                                credentials@,
                                sigs,
                                leaders@,
                                #[trigger] hidden@[t],
                            ),
                    decreases row@.len() - i,
                {
                    assert(sigs[k as int].1->Signature_0.issuer.schema.label(i as int) is Some);
                    if !Self::is_disclosed(statement, i) {
                        let ghost before = hidden@;
                        hidden.push(row[i]);
                        proof {
                            let here = (k as int, i as int);
                            assert(is_place(credentials@, sigs, here));
                            assert(linking::is_hidden(sigs, here));
                            assert(leader_at(leaders@, here) == place(row@[i as int]));
                            assert(leads_hidden(credentials@, sigs, leaders@, row@[i as int]));
                            assert(hidden@[before.len() as int] == row@[i as int]);
                            assert forall|a: (int, int)|
                                (a.0 < k || (a.0 == k && a.1 < i + 1)) && is_place(
                                    credentials@,
                                    sigs,
                                    a,
                                ) && linking::is_hidden(sigs, a) implies has_leader(
                                hidden@,
                                #[trigger] leader_at(leaders@, a),
                            ) by {
                                let l = leader_at(leaders@, a);
                                if a == here {
                                    assert(place(hidden@[before.len() as int]) == l);
                                } else {
                                    assert(has_leader(before, l));
                                    let t = choose|t: int|
                                        0 <= t < before.len() && place(#[trigger] before[t]) == l;
                                    assert(hidden@[t] == before[t]);
                                }
                            }
                        }
                    }
                    i = i + 1;
                }
            }
            proof {
                assert(sigs[k as int].1 is Signature);
            }
            k = k + 1;
        }
        hidden
    }

    /// For each claim whether all claims that comparisons link it with are disclosed.
    fn open_claims(
        credentials: &OrderedMap<Credential>,
        signatures: &OrderedMap<&Statements>,
        predicates: &OrderedMap<&Statements>,
        leaders: &Vec<Vec<(usize, usize)>>,
    ) -> (r: Vec<Vec<bool>>)
        requires
            message_types::signatures_are_held(credentials@, message_types::borrowed(*signatures)),
            message_types::claims_are_labelled(credentials@, message_types::borrowed(*signatures)),
            message_types::shared_claims_are_signed(
                message_types::borrowed(*signatures),
                message_types::borrowed(*predicates),
            ),
            message_types::references_resolve(credentials@, message_types::borrowed(*predicates)),
            is_led(
                credentials@,
                message_types::borrowed(*signatures),
                message_types::borrowed(*predicates),
                leaders@,
            ),
        ensures
            are_open(
                credentials@,
                message_types::borrowed(*signatures),
                message_types::borrowed(*predicates),
                r@,
            ),
    {
        let ghost sigs = message_types::borrowed(*signatures);
        let ghost all = message_types::borrowed(*predicates);
        let hidden = Self::hidden_leaders(credentials, signatures, leaders);
        let mut open: Vec<Vec<bool>> = Vec::new();
        let mut k: usize = 0;
        proof {
            use_type_invariant(signatures);
            message_types::lemma_borrowed_ascending(*signatures);
        }
        while k < leaders.len()
            invariant
                has_shape(credentials@, sigs, leaders@),
                k <= leaders@.len(),
                open@.len() == k,
                forall|p: int|
                    0 <= p < k ==> (#[trigger] open@[p])@.len() == leaders@[p]@.len(),
                forall|p: int, i: int|
                    0 <= p < k && 0 <= i < leaders@[p]@.len() ==> (#[trigger] open@[p]@[i])
                        == !hidden@.contains(leaders@[p]@[i]),
            decreases leaders@.len() - k,
        {
            let mut row: Vec<bool> = Vec::new();
            let mut i: usize = 0;
            while i < leaders[k].len()
                invariant
                    0 <= k < leaders@.len(),
                    i <= leaders@[k as int]@.len(),
                    row@.len() == i,
                    forall|j: int|
                        0 <= j < i ==> (#[trigger] row@[j]) == !hidden@.contains(
                            leaders@[k as int]@[j],
                        ),
                decreases leaders@[k as int]@.len() - i,
            {
                row.push(!Self::is_among(&leaders[k][i], &hidden));
                i = i + 1;
            }
            open.push(row);
            k = k + 1;
        }
        proof {
            assert forall|p: int, i: int|
                0 <= p < open@.len() && 0 <= i < open@[p]@.len() implies (#[trigger] open@[p]@[i])
                == linking::is_open(sigs, all, (p, i)) by {
                lemma_open_by_leaders(credentials@, sigs, all, leaders@, hidden@, (p, i));
            }
        }
        open
    }

    /// Which claims of each credential are revealed.
    pub(crate) fn revealed_claims(
        credentials: &OrderedMap<Credential>,
        signatures: &OrderedMap<&Statements>,
        predicates: &OrderedMap<&Statements>,
    ) -> (r: OrderedMap<Vec<bool>>)
        requires
            message_types::signatures_are_held(credentials@, message_types::borrowed(*signatures)),
            message_types::claims_are_labelled(credentials@, message_types::borrowed(*signatures)),
            message_types::shared_claims_are_signed(
                message_types::borrowed(*signatures),
                message_types::borrowed(*predicates),
            ),
            message_types::references_resolve(credentials@, message_types::borrowed(*predicates)),
        ensures
            message_types::lists(r) == message_types::revealed_claims(
                credentials@,
                message_types::borrowed(*signatures),
                message_types::borrowed(*predicates),
            ),
    {
        let ghost sigs = message_types::borrowed(*signatures);
        let ghost all = message_types::borrowed(*predicates);
        let ghost wanted = message_types::revealed_claims(credentials@, sigs, all);
        let leaders = Self::lead_claims(credentials, signatures, predicates);
        let open = Self::open_claims(credentials, signatures, predicates, &leaders);
        let mut revealed: OrderedMap<Vec<bool>> = OrderedMap::new();
        let n = signatures.len();
        let mut k: usize = 0;
        proof {
            use_type_invariant(signatures);
            message_types::lemma_borrowed_ascending(*signatures);
        }
        while k < n
            invariant
                n == sigs.len(),
                sigs == message_types::borrowed(*signatures),
                ordered_map::ascending(sigs),
                k <= n,
                wanted == message_types::revealed_claims(credentials@, sigs, all),
                are_open(credentials@, sigs, all, open@),
                forall|id: Seq<char>| #[trigger]
                    message_types::lists(revealed).dom().contains(id) ==> ordered_map::has_key(
                        sigs,
                        id,
                    ) && message_types::lists(revealed)[id] == wanted[id],
                forall|p: int|
                    0 <= p < k ==> message_types::lists(revealed).dom().contains(
                        (#[trigger] sigs[p]).0,
                    ),
            decreases n - k,
        {
            let id = signatures.key_at(k);
            assert(sigs[k as int].0 == id@);
            let mut own: Vec<bool> = Vec::new();
            let mut i: usize = 0;
            while i < open[k].len()
                invariant
                    0 <= k < open@.len(),
                    i <= open@[k as int]@.len(),
                    own@ == open@[k as int]@.take(i as int),
                decreases open@[k as int]@.len() - i,
            {
                own.push(open[k][i]);
                proof {
                    assert(own@ =~= open@[k as int]@.take(i + 1));
                }
                i = i + 1;
            }
            let ghost before = revealed;
            let ghost now = own;
            revealed.insert(id.clone(), own);
            proof {
                assert(message_types::lists(revealed) =~= message_types::lists(before).insert(
                    id@,
                    now@,
                ));
                ordered_map::lemma_entry_found(sigs, k as int);
                assert(now@ =~= wanted[id@]);
            }
            k = k + 1;
        }
        proof {
            assert forall|id: Seq<char>| ordered_map::has_key(
                sigs,
                id,
            ) implies message_types::lists(
                revealed,
            ).dom().contains(id) by {
                let p = ordered_map::key_index(sigs, id);
                assert(message_types::lists(revealed).dom().contains(sigs[p].0));
            }
            assert(message_types::lists(revealed) =~= wanted);
        }
        revealed
    }

    /// How each claim of each credential takes part in the proofs, given whether a predicate speaks
    /// of it, its scalar and a blinder.
    pub fn assign_message_types(
        credentials: &OrderedMap<Credential>,
        signatures: &OrderedMap<&Statements>,
        predicates: &OrderedMap<&Statements>,
        flags: &OrderedMap<Vec<bool>>,
        scalars: &OrderedMap<Vec<Scalar>>,
        blinders: &OrderedMap<Vec<Scalar>>,
    ) -> (r: OrderedMap<Vec<ProofMessage>>)
        requires
            message_types::signatures_are_held(credentials@, message_types::borrowed(*signatures)),
            message_types::claims_are_labelled(credentials@, message_types::borrowed(*signatures)),
            message_types::shared_claims_are_signed(
                message_types::borrowed(*signatures),
                message_types::borrowed(*predicates),
            ),
            message_types::references_resolve(credentials@, message_types::borrowed(*predicates)),
            message_types::flags_references(
                *flags,
                *credentials,
                message_types::borrowed(*predicates),
            ),
            message_types::is_per_claim(
                credentials@,
                message_types::borrowed(*signatures),
                message_types::lists(*scalars),
            ),
            message_types::is_per_claim(
                credentials@,
                message_types::borrowed(*signatures),
                message_types::lists(*blinders),
            ),
        ensures
            message_types::lists(r) == message_types::proof_messages(
                credentials@,
                message_types::borrowed(*signatures),
                message_types::borrowed(*predicates),
                message_types::lists(*scalars),
                message_types::lists(*blinders),
            ),
    {
        let leaders = Self::lead_claims(credentials, signatures, predicates);
        let open = Self::open_claims(credentials, signatures, predicates, &leaders);
        Self::assign_led(
            credentials,
            signatures,
            predicates,
            flags,
            scalars,
            blinders,
            &leaders,
            &open,
        )
    }

    /// The same, given the leader of each claim and whether it is open.
    fn assign_led(
        credentials: &OrderedMap<Credential>,
        signatures: &OrderedMap<&Statements>,
        predicates: &OrderedMap<&Statements>,
        flags: &OrderedMap<Vec<bool>>,
        scalars: &OrderedMap<Vec<Scalar>>,
        blinders: &OrderedMap<Vec<Scalar>>,
        leaders: &Vec<Vec<(usize, usize)>>,
        open: &Vec<Vec<bool>>,
    ) -> (r: OrderedMap<Vec<ProofMessage>>)
        requires
            message_types::signatures_are_held(credentials@, message_types::borrowed(*signatures)),
            message_types::flags_references(
                *flags,
                *credentials,
                message_types::borrowed(*predicates),
            ),
            message_types::is_per_claim(
                credentials@,
                message_types::borrowed(*signatures),
                message_types::lists(*scalars),
            ),
            message_types::is_per_claim(
                credentials@,
                message_types::borrowed(*signatures),
                message_types::lists(*blinders),
            ),
            is_led(
                credentials@,
                message_types::borrowed(*signatures),
                message_types::borrowed(*predicates),
                leaders@,
            ),
            are_open(
                credentials@,
                message_types::borrowed(*signatures),
                message_types::borrowed(*predicates),
                open@,
            ),
        ensures
            message_types::lists(r) == message_types::proof_messages(
                credentials@,
                message_types::borrowed(*signatures),
                message_types::borrowed(*predicates),
                message_types::lists(*scalars),
                message_types::lists(*blinders),
            ),
    {
        let ghost sigs = message_types::borrowed(*signatures);
        let ghost all = message_types::borrowed(*predicates);
        let ghost wanted = message_types::proof_messages(
            credentials@,
            sigs,
            all,
            message_types::lists(*scalars),
            message_types::lists(*blinders),
        );
        let mut messages: OrderedMap<Vec<ProofMessage>> = OrderedMap::new();
        let n = signatures.len();
        let mut k: usize = 0;
        proof {
            use_type_invariant(signatures);
            message_types::lemma_borrowed_ascending(*signatures);
        }
        while k < n
            invariant
                n == sigs.len(),
                sigs == message_types::borrowed(*signatures),
                all == message_types::borrowed(*predicates),
                wanted == message_types::proof_messages(
                    credentials@,
                    sigs,
                    all,
                    message_types::lists(*scalars),
                    message_types::lists(*blinders),
                ),
                ordered_map::ascending(sigs),
                k <= n,
                message_types::signatures_are_held(credentials@, sigs),
                message_types::flags_references(*flags, *credentials, all),
                message_types::is_per_claim(credentials@, sigs, message_types::lists(*scalars)),
                message_types::is_per_claim(credentials@, sigs, message_types::lists(*blinders)),
                is_led(credentials@, sigs, all, leaders@),
                are_open(credentials@, sigs, all, open@),
                forall|id: Seq<char>| #[trigger]
                    message_types::lists(messages).dom().contains(id) ==> ordered_map::has_key(
                        sigs,
                        id,
                    ) && message_types::lists(messages)[id] == wanted[id],
                forall|p: int|
                    0 <= p < k ==> message_types::lists(messages).dom().contains(
                        (#[trigger] sigs[p]).0,
                    ),
            decreases n - k,
        {
            let id = signatures.key_at(k);
            assert(sigs[k as int].0 == id@);
            let credential = credentials.get(id.as_str()).unwrap();
            let mut own: Vec<ProofMessage> = Vec::new();
            let claims = credential.claims.len();
            let mut i: usize = 0;
            while i < claims
                invariant
                    claims == credential.claims@.len(),
                    i <= claims,
                    n == sigs.len(),
                    0 <= k < n,
                    sigs == message_types::borrowed(*signatures),
                    all == message_types::borrowed(*predicates),
                    message_types::signatures_are_held(credentials@, sigs),
                    message_types::flags_references(*flags, *credentials, all),
                    message_types::is_per_claim(
                        credentials@,
                        sigs,
                        message_types::lists(*scalars),
                    ),
                    message_types::is_per_claim(
                        credentials@,
                        sigs,
                        message_types::lists(*blinders),
                    ),
                    is_led(credentials@, sigs, all, leaders@),
                    are_open(credentials@, sigs, all, open@),
                    sigs[k as int].0 == id@,
                    credentials@[id@] == *credential,
                    own@ =~= Seq::new(
                        i as nat,
                        |i: int|
                            message_types::proof_message(
                                sigs,
                                all,
                                message_types::lists(*scalars),
                                message_types::lists(*blinders),
                                (k as int, i),
                            ),
                    ),
                decreases claims - i,
            {
                let leader = leaders[k][i];
                assert(leader_at(leaders@, (k as int, i as int)) == place(leader));
                let message = Self::message_at(
                    credentials,
                    signatures,
                    predicates,
                    flags,
                    scalars,
                    blinders,
                    k,
                    i,
                    leader,
                    open[k][i],
                );
                own.push(message);
                i = i + 1;
            }
            let ghost before = messages;
            let ghost now = own;
            messages.insert(id.clone(), own);
            proof {
                assert(message_types::lists(messages) =~= message_types::lists(before).insert(
                    id@,
                    now@,
                ));
                ordered_map::lemma_entry_found(sigs, k as int);
                assert(now@ =~= wanted[id@]);
            }
            k = k + 1;
        }
        proof {
            assert forall|id: Seq<char>| ordered_map::has_key(
                sigs,
                id,
            ) implies message_types::lists(
                messages,
            ).dom().contains(id) by {
                let p = ordered_map::key_index(sigs, id);
                assert(message_types::lists(messages).dom().contains(sigs[p].0));
            }
            assert(message_types::lists(messages) =~= wanted);
        }
        messages
    }

    /// How the claim at index `i` of the `k`-th signature statement takes part, given its leader
    /// and whether it is open.
    fn message_at(
        credentials: &OrderedMap<Credential>,
        signatures: &OrderedMap<&Statements>,
        predicates: &OrderedMap<&Statements>,
        flags: &OrderedMap<Vec<bool>>,
        scalars: &OrderedMap<Vec<Scalar>>,
        blinders: &OrderedMap<Vec<Scalar>>,
        k: usize,
        i: usize,
        leader: (usize, usize),
        open: bool,
    ) -> (r: ProofMessage)
        requires
            message_types::signatures_are_held(credentials@, message_types::borrowed(*signatures)),
            message_types::flags_references(
                *flags,
                *credentials,
                message_types::borrowed(*predicates),
            ),
            message_types::is_per_claim(
                credentials@,
                message_types::borrowed(*signatures),
                message_types::lists(*scalars),
            ),
            message_types::is_per_claim(
                credentials@,
                message_types::borrowed(*signatures),
                message_types::lists(*blinders),
            ),
            is_place(
                credentials@,
                message_types::borrowed(*signatures),
                (k as int, i as int),
            ),
            is_place(credentials@, message_types::borrowed(*signatures), place(leader)),
            linking::is_led_by(
                message_types::borrowed(*signatures),
                message_types::borrowed(*predicates),
                (k as int, i as int),
                place(leader),
            ),
            open == linking::is_open(
                message_types::borrowed(*signatures),
                message_types::borrowed(*predicates),
                (k as int, i as int),
            ),
        ensures
            r == message_types::proof_message(
                message_types::borrowed(*signatures),
                message_types::borrowed(*predicates),
                message_types::lists(*scalars),
                message_types::lists(*blinders),
                (k as int, i as int),
            ),
    {
        let ghost sigs = message_types::borrowed(*signatures);
        let ghost all = message_types::borrowed(*predicates);
        let id = signatures.key_at(k);
        proof {
            assert(sigs[k as int].0 == id@);
            linking::lemma_leader_unique(sigs, all, (k as int, i as int), place(leader));
        }
        let first = signatures.key_at(leader.0);
        assert(sigs[leader.0 as int].0 == first@);
        assert(message_types::lists(*scalars).dom().contains(sigs[leader.0 as int].0));
        let message = scalars.get(first.as_str()).unwrap()[leader.1];
        assert(message_types::lists(*scalars)[first@][leader.1 as int] == message);
        if open {
            return ProofMessage::Revealed(message);
        }
        assert(credentials@.dom().contains(sigs[k as int].0));
        let marks = flags.get(id.as_str()).unwrap();
        if marks[i] {
            assert(message_types::lists(*blinders).dom().contains(sigs[leader.0 as int].0));
            let blinder = blinders.get(first.as_str()).unwrap()[leader.1];
            assert(message_types::lists(*blinders)[first@][leader.1 as int] == blinder);
            ProofMessage::Hidden(HiddenMessage::ExternalBlinding(message, blinder))
        } else {
            assert(message_types::lists(*scalars).dom().contains(sigs[k as int].0));
            let own = scalars.get(id.as_str()).unwrap()[i];
            assert(message_types::lists(*scalars)[id@][i as int] == own);
            ProofMessage::Hidden(HiddenMessage::ProofSpecificBlinding(own))
        }
    }

    /// How each claim of each credential takes part in the proofs of a presentation. Claims that
    /// comparisons link take part as the first of them does: revealed where all of them are
    /// disclosed, else hidden. A blinder is drawn for each claim that stays hidden and that a
    /// predicate speaks of, in order. There is an error where a predicate speaks of what is neither
    /// a claim nor a predicate.
    pub fn get_message_types<S: ProofSuite>(
        credentials: &OrderedMap<Credential>,
        signatures: &OrderedMap<&Statements>,
        predicates: &OrderedMap<&Statements>,
        draws: &mut Draws,
    ) -> (r: CredxResult<OrderedMap<Vec<ProofMessage>>>)
        requires
            message_types::signatures_are_held(credentials@, message_types::borrowed(*signatures)),
            message_types::references_resolve(
                credentials@,
                message_types::borrowed(*predicates),
            ) ==> message_types::claims_are_labelled(
                credentials@,
                message_types::borrowed(*signatures),
            ) && message_types::shared_claims_are_signed(
                message_types::borrowed(*signatures),
                message_types::borrowed(*predicates),
            ),
        ensures
            r is Ok <==> message_types::references_resolve(
                credentials@,
                message_types::borrowed(*predicates),
            ),
            r matches Err(e) ==> e == Error::InvalidPresentationData,
            r is Err ==> final(draws).drawn() == old(draws).drawn(),
            r matches Ok(messages) ==> old(draws).drawn().is_prefix_of(final(draws).drawn())
                && message_types::has_message_types::<S>(
                credentials@,
                message_types::borrowed(*signatures),
                message_types::borrowed(*predicates),
                final(draws).drawn().skip(old(draws).drawn().len() as int),
                message_types::lists(messages),
            ),
    {
        let flags = match Self::referenced_claims(credentials, predicates) {
            Ok(flags) => flags,
            Err(e) => return Err(e),
        };
        let scalars = Self::encode_claims::<S>(credentials, signatures);
        let leaders = Self::lead_claims(credentials, signatures, predicates);
        let open = Self::open_claims(credentials, signatures, predicates, &leaders);
        let ghost all = message_types::borrowed(*predicates);
        let blinders = Self::draw_blinders(
            credentials,
            signatures,
            &flags,
            &open,
            draws,
            Ghost(all),
        );
        Ok(
            Self::assign_led(
                credentials,
                signatures,
                predicates,
                &flags,
                &scalars,
                &blinders,
                &leaders,
                &open,
            ),
        )
    }
}

/// What was drawn after `before` is what the blinders of the shared claims are.
spec fn draws_made(
    signatures: Seq<(Seq<char>, Statements)>,
    predicates: Seq<(Seq<char>, Statements)>,
    blinders: Map<Seq<char>, Seq<Scalar>>,
    before: Seq<Scalar>,
    after: Seq<Scalar>,
) -> bool {
    before.is_prefix_of(after) && message_types::blinders_are_drawn(
        signatures,
        predicates,
        blinders,
        after.skip(before.len() as int),
    )
}

/// One more blinder leaves those of the first `n` claims as they were.
proof fn lemma_own_draws_kept(
    signatures: Seq<(Seq<char>, Statements)>,
    predicates: Seq<(Seq<char>, Statements)>,
    before: Seq<Scalar>,
    after: Seq<Scalar>,
    k: int,
    n: int,
)
    requires
        n <= before.len() <= after.len(),
        forall|i: int| 0 <= i < before.len() ==> before[i] == #[trigger] after[i],
    ensures
        message_types::own_draws(signatures, predicates, before, k, n)
            == message_types::own_draws(signatures, predicates, after, k, n),
    decreases n,
{
    if n > 0 {
        lemma_own_draws_kept(signatures, predicates, before, after, k, n - 1);
        assert(before[n - 1] == after[n - 1]);
    }
}

/// The blinders of another signature statement leave those of the first `n` as they were.
proof fn lemma_draws_kept(
    signatures: Seq<(Seq<char>, Statements)>,
    predicates: Seq<(Seq<char>, Statements)>,
    before: Map<Seq<char>, Seq<Scalar>>,
    after: Map<Seq<char>, Seq<Scalar>>,
    n: int,
)
    requires
        forall|p: int|
            0 <= p < n ==> before[(#[trigger] signatures[p]).0] == after[signatures[p].0],
    ensures
        message_types::shared_draws(signatures, predicates, before, n)
            == message_types::shared_draws(signatures, predicates, after, n),
    decreases n,
{
    if n > 0 {
        lemma_draws_kept(signatures, predicates, before, after, n - 1);
        assert(before[signatures[n - 1].0] == after[signatures[n - 1].0]);
    }
}

/// The scalars of the claims of a credential.
spec fn scalars_fit<S: ProofSuite>(credential: Credential, scalars: Seq<Scalar>) -> bool {
    &&& scalars.len() == credential.claims@.len()
    &&& forall|i: int|
        0 <= i < scalars.len() ==> message_types::scalar_given::<S>(
            credential.claims@[i],
            #[trigger] scalars[i],
        )
}

/// A place in a table, in numbers.
spec fn place(at: (usize, usize)) -> (int, int) {
    (at.0 as int, at.1 as int)
}

/// What a table of leaders has at a place.
spec fn leader_at(leaders: Seq<Vec<(usize, usize)>>, a: (int, int)) -> (int, int) {
    place(leaders[a.0]@[a.1])
}

/// There is a claim at a place.
spec fn is_place(
    credentials: Map<Seq<char>, Credential>,
    signatures: Seq<(Seq<char>, Statements)>,
    a: (int, int),
) -> bool {
    0 <= a.0 < signatures.len() && 0 <= a.1 < credentials[signatures[a.0].0].claims@.len()
}

/// The place that a reference speaks of.
spec fn place_of(
    signatures: Seq<(Seq<char>, Statements)>,
    reference: (Seq<char>, usize),
) -> (int, int) {
    (ordered_map::key_index(signatures, reference.0), reference.1 as int)
}

/// A reference is to a claim of a signature.
spec fn reference_is_place(
    credentials: Map<Seq<char>, Credential>,
    signatures: Seq<(Seq<char>, Statements)>,
    reference: (Seq<char>, usize),
) -> bool {
    ordered_map::has_key(signatures, reference.0) && is_place(
        credentials,
        signatures,
        place_of(signatures, reference),
    )
}

/// A table has an entry for each claim.
spec fn has_shape<T>(
    credentials: Map<Seq<char>, Credential>,
    signatures: Seq<(Seq<char>, Statements)>,
    table: Seq<Vec<T>>,
) -> bool {
    &&& table.len() == signatures.len()
    &&& forall|p: int|
        0 <= p < table.len() ==> (#[trigger] table[p])@.len()
            == credentials[signatures[p].0].claims@.len()
}

/// A table has the leader of each claim.
spec fn is_led(
    credentials: Map<Seq<char>, Credential>,
    signatures: Seq<(Seq<char>, Statements)>,
    predicates: Seq<(Seq<char>, Statements)>,
    leaders: Seq<Vec<(usize, usize)>>,
) -> bool {
    &&& has_shape(credentials, signatures, leaders)
    &&& forall|a: (int, int)|
        is_place(credentials, signatures, a) ==> is_place(
            credentials,
            signatures,
            #[trigger] leader_at(leaders, a),
        ) && linking::is_led_by(signatures, predicates, a, leader_at(leaders, a))
}

/// A table says of each claim whether all claims that it is linked with are disclosed.
spec fn are_open(
    credentials: Map<Seq<char>, Credential>,
    signatures: Seq<(Seq<char>, Statements)>,
    predicates: Seq<(Seq<char>, Statements)>,
    open: Seq<Vec<bool>>,
) -> bool {
    &&& has_shape(credentials, signatures, open)
    &&& forall|p: int, i: int|
        0 <= p < open.len() && 0 <= i < open[p]@.len() ==> (#[trigger] open[p]@[i])
            == linking::is_open(signatures, predicates, (p, i))
}

/// A leader is that of a claim that is not disclosed.
spec fn leads_hidden(
    credentials: Map<Seq<char>, Credential>,
    signatures: Seq<(Seq<char>, Statements)>,
    leaders: Seq<Vec<(usize, usize)>>,
    l: (usize, usize),
) -> bool {
    exists|a: (int, int)|
        is_place(credentials, signatures, a) && linking::is_hidden(signatures, a)
            && #[trigger] leader_at(leaders, a) == place(l)
}

/// The places are those of the leaders of the claims that are not disclosed.
spec fn lead_hidden(
    credentials: Map<Seq<char>, Credential>,
    signatures: Seq<(Seq<char>, Statements)>,
    leaders: Seq<Vec<(usize, usize)>>,
    hidden: Seq<(usize, usize)>,
) -> bool {
    &&& forall|a: (int, int)|
        is_place(credentials, signatures, a) && linking::is_hidden(signatures, a) ==> has_leader(
            hidden,
            #[trigger] leader_at(leaders, a),
        )
    &&& forall|t: int|
        0 <= t < hidden.len() ==> leads_hidden(
            credentials,
            signatures,
            leaders,
            #[trigger] hidden[t],
        )
}

/// A place is among others.
spec fn has_leader(tied: Seq<(usize, usize)>, l: (int, int)) -> bool {
    exists|t: int| 0 <= t < tied.len() && place(#[trigger] tied[t]) == l
}

/// A leader is that of a claim that a statement of several claims speaks of.
spec fn leads_tied(
    signatures: Seq<(Seq<char>, Statements)>,
    statement: Statements,
    leaders: Seq<Vec<(usize, usize)>>,
    l: (usize, usize),
) -> bool {
    exists|a: (int, int)| #[trigger]
        linking::ties(signatures, statement, a) && leader_at(leaders, a) == place(l)
}

/// The places are those of the leaders of the claims that a statement of several claims speaks of.
spec fn are_tied(
    signatures: Seq<(Seq<char>, Statements)>,
    statement: Statements,
    leaders: Seq<Vec<(usize, usize)>>,
    tied: Seq<(usize, usize)>,
) -> bool {
    &&& forall|a: (int, int)| #[trigger]
        linking::ties(signatures, statement, a) ==> has_leader(tied, leader_at(leaders, a))
    &&& forall|t: int|
        0 <= t < tied.len() ==> leads_tied(signatures, statement, leaders, #[trigger] tied[t])
}

/// `best` is the first of the places.
spec fn is_first(tied: Seq<(usize, usize)>, best: (usize, usize)) -> bool {
    &&& exists|t: int| 0 <= t < tied.len() && #[trigger] tied[t] == best
    &&& forall|t: int|
        0 <= t < tied.len() ==> !linking::place_before(place(#[trigger] tied[t]), place(best))
}

/// A table is another one, with the first of the places in the place of each of them.
spec fn are_merged(
    leaders: Seq<Vec<(usize, usize)>>,
    tied: Seq<(usize, usize)>,
    merged: Seq<Vec<(usize, usize)>>,
) -> bool {
    &&& merged.len() == leaders.len()
    &&& forall|p: int|
        0 <= p < merged.len() ==> (#[trigger] merged[p])@.len() == leaders[p]@.len()
    &&& exists|best: (usize, usize)|
        #![trigger place(best)]
        (tied.len() > 0 ==> is_first(tied, best)) && forall|p: int, i: int|
            0 <= p < merged.len() && 0 <= i < leaders[p]@.len() ==> (#[trigger] merged[p]@[i])
                == if tied.contains(leaders[p]@[i]) {
                best
            } else {
                leaders[p]@[i]
            }
}

/// Merging the leaders of the claims that a statement ties gives the leaders with that statement.
proof fn lemma_merged(
    credentials: Map<Seq<char>, Credential>,
    signatures: Seq<(Seq<char>, Statements)>,
    predicates: Seq<(Seq<char>, Statements)>,
    entry: (Seq<char>, Statements),
    leaders: Seq<Vec<(usize, usize)>>,
    tied: Seq<(usize, usize)>,
    merged: Seq<Vec<(usize, usize)>>,
)
    requires
        is_led(credentials, signatures, predicates, leaders),
        are_tied(signatures, entry.1, leaders, tied),
        are_merged(leaders, tied, merged),
        ordered_map::ascending(signatures),
        entry.1.references().len() > 1 ==> forall|j: int|
            0 <= j < entry.1.references().len() ==> reference_is_place(
                credentials,
                signatures,
                #[trigger] entry.1.references()[j],
            ),
    ensures
        is_led(credentials, signatures, predicates.push(entry), merged),
{
    let more = predicates.push(entry);
    let best = choose|best: (usize, usize)|
        #![trigger place(best)]
        (tied.len() > 0 ==> is_first(tied, best)) && forall|p: int, i: int|
            0 <= p < merged.len() && 0 <= i < leaders[p]@.len() ==> (#[trigger] merged[p]@[i])
                == if tied.contains(leaders[p]@[i]) {
                best
            } else {
                leaders[p]@[i]
            };
    assert forall|a: (int, int)| is_place(credentials, signatures, a) implies is_place(
        credentials,
        signatures,
        #[trigger] leader_at(merged, a),
    ) && linking::is_led_by(signatures, more, a, leader_at(merged, a)) by {
        let was = leaders[a.0]@[a.1];
        assert(merged[a.0]@[a.1] == if tied.contains(was) {
            best
        } else {
            was
        });
        assert(place(was) == leader_at(leaders, a));
        if tied.contains(was) {
            lemma_merged_tied(
                credentials,
                signatures,
                predicates,
                entry,
                leaders,
                tied,
                best,
                a,
            );
        } else {
            lemma_merged_apart(credentials, signatures, predicates, entry, leaders, tied, a);
        }
    }
}

/// What a statement of several claims refers to are claims of signatures.
proof fn lemma_references_are_places(
    credentials: Map<Seq<char>, Credential>,
    signatures: Seq<(Seq<char>, Statements)>,
    predicates: Seq<(Seq<char>, Statements)>,
    k: int,
)
    requires
        0 <= k < predicates.len(),
        message_types::signatures_are_held(credentials, signatures),
        message_types::shared_claims_are_signed(signatures, predicates),
        message_types::references_resolve(credentials, predicates),
    ensures
        predicates[k].1.references().len() > 1 ==> forall|j: int|
            0 <= j < predicates[k].1.references().len() ==> reference_is_place(
                credentials,
                signatures,
                #[trigger] predicates[k].1.references()[j],
            ),
{
    let references = predicates[k].1.references();
    assert forall|j: int| 0 <= j < references.len() && references.len() > 1 implies
        reference_is_place(credentials, signatures, #[trigger] references[j]) by {
        let reference = predicates[k].1.references()[j];
        assert(ordered_map::has_key(signatures, reference.0));
        let p = ordered_map::key_index(signatures, reference.0);
        assert(credentials.dom().contains(signatures[p].0));
        assert(message_types::reference_resolves(credentials, predicates, reference));
    }
}

/// A claim is open exactly where its leader is not that of a claim that is not disclosed.
proof fn lemma_open_by_leaders(
    credentials: Map<Seq<char>, Credential>,
    signatures: Seq<(Seq<char>, Statements)>,
    predicates: Seq<(Seq<char>, Statements)>,
    leaders: Seq<Vec<(usize, usize)>>,
    hidden: Seq<(usize, usize)>,
    a: (int, int),
)
    requires
        ordered_map::ascending(signatures),
        message_types::signatures_are_held(credentials, signatures),
        message_types::shared_claims_are_signed(signatures, predicates),
        message_types::references_resolve(credentials, predicates),
        is_led(credentials, signatures, predicates, leaders),
        lead_hidden(credentials, signatures, leaders, hidden),
        is_place(credentials, signatures, a),
    ensures
        linking::is_open(signatures, predicates, a) == !hidden.contains(leaders[a.0]@[a.1]),
{
    let l = leader_at(leaders, a);
    assert(linking::is_led_by(signatures, predicates, a, l));
    if hidden.contains(leaders[a.0]@[a.1]) {
        let t = choose|t: int| 0 <= t < hidden.len() && hidden[t] == leaders[a.0]@[a.1];
        assert(leads_hidden(credentials, signatures, leaders, hidden[t]));
        let b = choose|b: (int, int)|
            is_place(credentials, signatures, b) && linking::is_hidden(signatures, b)
                && #[trigger] leader_at(leaders, b) == place(hidden[t]);
        assert(linking::is_led_by(signatures, predicates, b, l));
        linking::lemma_linked_symmetric(signatures, predicates, b, l);
        linking::lemma_linked_transitive(signatures, predicates, a, l, b);
    } else {
        assert forall|b: (int, int)| #[trigger]
            linking::are_linked(signatures, predicates, a, b) implies !linking::is_hidden(
            signatures,
            b,
        ) by {
            if linking::is_hidden(signatures, b) {
                linking::lemma_linked_is_tied(signatures, predicates, a, b);
                if a != b {
                    let k = choose|k: int|
                        0 <= k < predicates.len() && linking::ties(
                            signatures,
                            (#[trigger] predicates[k]).1,
                            b,
                        );
                    lemma_references_are_places(credentials, signatures, predicates, k);
                    lemma_tied_place(credentials, signatures, predicates[k].1, b);
                }
                linking::lemma_linked_share_leader(signatures, predicates, a, b);
                linking::lemma_leader_unique(signatures, predicates, a, l);
                linking::lemma_leader_unique(
                    signatures,
                    predicates,
                    b,
                    leader_at(leaders, b),
                );
                assert(has_leader(hidden, l));
                let t = choose|t: int| 0 <= t < hidden.len() && place(#[trigger] hidden[t]) == l;
                assert(hidden[t] == leaders[a.0]@[a.1]);
            }
        }
    }
}

/// A place that a statement ties is one of a claim.
proof fn lemma_tied_place(
    credentials: Map<Seq<char>, Credential>,
    signatures: Seq<(Seq<char>, Statements)>,
    statement: Statements,
    a: (int, int),
)
    requires
        ordered_map::ascending(signatures),
        linking::ties(signatures, statement, a),
        forall|j: int|
            0 <= j < statement.references().len() ==> reference_is_place(
                credentials,
                signatures,
                #[trigger] statement.references()[j],
            ),
    ensures
        is_place(credentials, signatures, a),
{
    let j = choose|j: int|
        0 <= j < statement.references().len() && (#[trigger] statement.references()[j]).0
            == signatures[a.0].0 && statement.references()[j].1 == a.1;
    ordered_map::lemma_entry_found(signatures, a.0);
    assert(place_of(signatures, statement.references()[j]) == a);
}

/// The same for a claim whose leader is among those that are merged.
proof fn lemma_merged_tied(
    credentials: Map<Seq<char>, Credential>,
    signatures: Seq<(Seq<char>, Statements)>,
    predicates: Seq<(Seq<char>, Statements)>,
    entry: (Seq<char>, Statements),
    leaders: Seq<Vec<(usize, usize)>>,
    tied: Seq<(usize, usize)>,
    best: (usize, usize),
    a: (int, int),
)
    requires
        is_led(credentials, signatures, predicates, leaders),
        are_tied(signatures, entry.1, leaders, tied),
        is_first(tied, best),
        ordered_map::ascending(signatures),
        entry.1.references().len() > 1 ==> forall|j: int|
            0 <= j < entry.1.references().len() ==> reference_is_place(
                credentials,
                signatures,
                #[trigger] entry.1.references()[j],
            ),
        is_place(credentials, signatures, a),
        tied.contains(leaders[a.0]@[a.1]),
    ensures
        is_place(credentials, signatures, place(best)),
        linking::is_led_by(signatures, predicates.push(entry), a, place(best)),
{
    let more = predicates.push(entry);
    let l = leader_at(leaders, a);
    let t = choose|t: int| 0 <= t < tied.len() && tied[t] == leaders[a.0]@[a.1];
    assert(leads_tied(signatures, entry.1, leaders, tied[t]));
    let r = choose|r: (int, int)| #[trigger]
        linking::ties(signatures, entry.1, r) && leader_at(leaders, r) == place(tied[t]);
    lemma_tied_place(credentials, signatures, entry.1, r);
    linking::lemma_linked_symmetric(signatures, predicates, r, l);
    linking::lemma_linked_transitive(signatures, predicates, a, l, r);
    assert(linking::touches(signatures, predicates, entry.1, a));
    let u = choose|u: int| 0 <= u < tied.len() && #[trigger] tied[u] == best;
    assert(leads_tied(signatures, entry.1, leaders, tied[u]));
    let s = choose|s: (int, int)| #[trigger]
        linking::ties(signatures, entry.1, s) && leader_at(leaders, s) == place(tied[u]);
    lemma_tied_place(credentials, signatures, entry.1, s);
    assert(is_place(credentials, signatures, leader_at(leaders, s)));
    linking::lemma_linked_symmetric(signatures, predicates, s, place(best));
    assert(linking::touches(signatures, predicates, entry.1, place(best)));
    linking::lemma_linked_step(signatures, predicates, entry, a, place(best));
    assert forall|c: (int, int)| #[trigger]
        linking::are_linked(signatures, more, a, c) implies !linking::place_before(
        c,
        place(best),
    ) by {
        linking::lemma_linked_step(signatures, predicates, entry, a, c);
        if linking::are_linked(signatures, predicates, a, c) {
            assert(!linking::place_before(c, l));
            assert(!linking::place_before(place(tied[t]), place(best)));
        } else {
            let q = choose|q: (int, int)|
                #![trigger linking::ties(signatures, entry.1, q)]
                linking::ties(signatures, entry.1, q) && linking::are_linked(
                    signatures,
                    predicates,
                    c,
                    q,
                );
            lemma_tied_place(credentials, signatures, entry.1, q);
            linking::lemma_linked_symmetric(signatures, predicates, c, q);
            let m = leader_at(leaders, q);
            assert(!linking::place_before(c, m));
            assert(has_leader(tied, m));
            let v = choose|v: int| 0 <= v < tied.len() && place(#[trigger] tied[v]) == m;
            assert(!linking::place_before(place(tied[v]), place(best)));
        }
    }
}

/// The same for a claim whose leader is not among them.
proof fn lemma_merged_apart(
    credentials: Map<Seq<char>, Credential>,
    signatures: Seq<(Seq<char>, Statements)>,
    predicates: Seq<(Seq<char>, Statements)>,
    entry: (Seq<char>, Statements),
    leaders: Seq<Vec<(usize, usize)>>,
    tied: Seq<(usize, usize)>,
    a: (int, int),
)
    requires
        is_led(credentials, signatures, predicates, leaders),
        are_tied(signatures, entry.1, leaders, tied),
        ordered_map::ascending(signatures),
        entry.1.references().len() > 1 ==> forall|j: int|
            0 <= j < entry.1.references().len() ==> reference_is_place(
                credentials,
                signatures,
                #[trigger] entry.1.references()[j],
            ),
        is_place(credentials, signatures, a),
        !tied.contains(leaders[a.0]@[a.1]),
    ensures
        is_place(credentials, signatures, leader_at(leaders, a)),
        linking::is_led_by(signatures, predicates.push(entry), a, leader_at(leaders, a)),
{
    let more = predicates.push(entry);
    let l = leader_at(leaders, a);
    if linking::touches(signatures, predicates, entry.1, a) {
        let r = choose|r: (int, int)|
            #![trigger linking::ties(signatures, entry.1, r)]
            linking::ties(signatures, entry.1, r) && linking::are_linked(
                signatures,
                predicates,
                a,
                r,
            );
        lemma_tied_place(credentials, signatures, entry.1, r);
        linking::lemma_linked_share_leader(signatures, predicates, a, r);
        linking::lemma_leader_unique(signatures, predicates, a, l);
        linking::lemma_leader_unique(signatures, predicates, r, leader_at(leaders, r));
        assert(has_leader(tied, l));
        let t = choose|t: int| 0 <= t < tied.len() && place(#[trigger] tied[t]) == l;
        assert(tied[t] == leaders[a.0]@[a.1]);
    }
    linking::lemma_linked_step(signatures, predicates, entry, a, l);
    assert forall|c: (int, int)| #[trigger]
        linking::are_linked(signatures, more, a, c) implies !linking::place_before(c, l) by {
        linking::lemma_linked_step(signatures, predicates, entry, a, c);
    }
}

/// One of the first `n` predicates, or one of the first `m` references of the next, speaks of the
/// claim at `index` of the credential `id`.
spec fn is_referenced_by(
    predicates: Seq<(Seq<char>, Statements)>,
    n: int,
    m: int,
    id: Seq<char>,
    index: int,
) -> bool {
    exists|k: int, j: int|
        0 <= k < predicates.len() && 0 <= j < predicates[k].1.references().len() && (k < n || (k
            == n && j < m)) && (#[trigger] predicates[k].1.references()[j]).0 == id
            && predicates[k].1.references()[j].1 == index
}

} // verus!
