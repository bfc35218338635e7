//! Testing beforehand whether a presentation can be made.
use vstd::prelude::*;
use crate::challenge;
use crate::creation;
use crate::credential::Credential;
use crate::message_types;
use crate::ordered_map;
use crate::ordered_map::OrderedMap;
use crate::presentation::Presentation;
use crate::statement::{PresentationSchema, Statements};

verus! {

impl Presentation {
    /// Whether a schema that is answerable can be presented.
    pub(crate) fn can_be_made(
        credentials: &OrderedMap<Credential>,
        schema: &PresentationSchema,
    ) -> (r: bool)
        ensures
            r == (creation::is_answerable(*credentials, *schema) ==> creation::is_presentable(
                *credentials,
                *schema,
            )),
    {
        let (signatures, predicates) = Self::split_statements(schema);
        let ghost sigs = message_types::borrowed(signatures);
        proof {
            message_types::lemma_parts(schema.statements.listing());
        }
        if schema.statements.len() == 0 || !Self::credentials_fit(credentials, &signatures)
            || Self::referenced_claims(credentials, &predicates).is_err() {
            return true;
        }
        assert(message_types::signatures_are_held(credentials@, sigs)) by {
            assert forall|p: int| 0 <= p < sigs.len() implies (#[trigger] sigs[p]).1 is Signature
                && credentials@.dom().contains(sigs[p].0) by {
                assert(ordered_map::has_key(sigs, sigs[p].0));
            }
        }
        if !Self::has_labels(credentials, &signatures) || !Self::compares_signed(
            &signatures,
            &predicates,
        ) {
            return false;
        }
        let revealed = Self::revealed_claims(credentials, &signatures, &predicates);
        Self::fits_in_transcript(credentials, &signatures, &revealed)
    }

    /// Whether each claim of each credential has a label.
    fn has_labels(
        credentials: &OrderedMap<Credential>,
        signatures: &OrderedMap<&Statements>,
    ) -> (r: bool)
        requires
            message_types::signatures_are_held(credentials@, message_types::borrowed(*signatures)),
        ensures
            r == message_types::claims_are_labelled(
                credentials@,
                message_types::borrowed(*signatures),
            ),
    {
        let ghost sigs = message_types::borrowed(*signatures);
        let n = signatures.len();
        let mut k: usize = 0;
        while k < n
            invariant
                n == sigs.len(),
                sigs == message_types::borrowed(*signatures),
                message_types::signatures_are_held(credentials@, sigs),
                k <= n,
                forall|p: int, i: int|
                    0 <= p < k && 0 <= i < credentials@[sigs[p].0].claims@.len() ==> (
                    #[trigger] sigs[p].1->Signature_0.issuer.schema.label(i)) is Some,
            decreases n - k,
        {
            let id = signatures.key_at(k);
            assert(sigs[k as int].0 == id@);
            assert(sigs[k as int].1 is Signature);
            let claims = credentials.get(id.as_str()).unwrap().claims.len();
            if let Statements::Signature(statement) = *signatures.value_at(k) {
                assert(sigs[k as int].1->Signature_0 == *statement);
                let mut i: usize = 0;
                while i < claims
                    invariant
                        0 <= k < sigs.len(),
                        sigs == message_types::borrowed(*signatures),
                        sigs[k as int].1->Signature_0 == *statement,
                        claims == credentials@[sigs[k as int].0].claims@.len(),
                        i <= claims,
                        forall|j: int|
                            0 <= j < i ==> (
                            #[trigger] sigs[k as int].1->Signature_0.issuer.schema.label(
                                j,
                            )) is Some,
                    decreases claims - i,
                {
                    if statement.issuer.schema.claim_label(i).is_none() {
                        assert(sigs[k as int].1->Signature_0.issuer.schema.label(i as int) is None);
                        return false;
                    }
                    i = i + 1;
                }
            }
            k = k + 1;
        }
        true
    }

    /// Whether statements that speak of several claims speak of claims of signatures alone.
    fn compares_signed(
        signatures: &OrderedMap<&Statements>,
        predicates: &OrderedMap<&Statements>,
    ) -> (r: bool)
        ensures
            r == message_types::shared_claims_are_signed(
                message_types::borrowed(*signatures),
                message_types::borrowed(*predicates),
            ),
    {
        let ghost sigs = message_types::borrowed(*signatures);
        let ghost all = message_types::borrowed(*predicates);
        let n = predicates.len();
        let mut k: usize = 0;
        while k < n
            invariant
                n == all.len(),
                sigs == message_types::borrowed(*signatures),
                all == message_types::borrowed(*predicates),
                k <= n,
                forall|p: int, j: int|
                    0 <= p < k && 0 <= j < all[p].1.references().len()
                        && all[p].1.references().len() > 1 ==> ordered_map::has_key(
                        sigs,
                        (#[trigger] all[p].1.references()[j]).0,
                    ),
            decreases n - k,
        {
            let ids = (*predicates.value_at(k)).reference_ids();
            let ghost references = all[k as int].1.references();
            if ids.len() > 1 {
                let mut j: usize = 0;
                while j < ids.len()
                    invariant
                        0 <= k < all.len(),
                        sigs == message_types::borrowed(*signatures),
                        all == message_types::borrowed(*predicates),
                        references == all[k as int].1.references(),
                        ids@.len() == references.len(),
                        ids@.len() > 1,
                        forall|q: int|
                            0 <= q < ids@.len() ==> (#[trigger] ids@[q])@ == references[q].0,
                        j <= ids@.len(),
                        forall|q: int|
                            0 <= q < j ==> ordered_map::has_key(
                                sigs,
                                (#[trigger] references[q]).0,
                            ),
                    decreases ids@.len() - j,
                {
                    proof {
                        message_types::lemma_borrowed_keys(*signatures, ids@[j as int]@);
                    }
                    if !signatures.contains_key(ids[j].as_str()) {
                        assert(!ordered_map::has_key(
                            sigs,
                            all[k as int].1.references()[j as int].0,
                        ));
                        return false;
                    }
                    j = j + 1;
                }
            }
            k = k + 1;
        }
        true
    }

    /// Whether the ids of the signature statements and the labels of the claims that are revealed
    /// are short enough for a transcript.
    fn fits_in_transcript(
        credentials: &OrderedMap<Credential>,
        signatures: &OrderedMap<&Statements>,
        revealed: &OrderedMap<Vec<bool>>,
    ) -> (r: bool)
        requires
            message_types::signatures_are_held(credentials@, message_types::borrowed(*signatures)),
            message_types::is_per_claim(
                credentials@,
                message_types::borrowed(*signatures),
                message_types::lists(*revealed),
            ),
        ensures
            r == creation::disclosures_fit(
                *credentials,
                message_types::borrowed(*signatures),
                message_types::lists(*revealed),
            ),
    {
        let ghost sigs = message_types::borrowed(*signatures);
        let ghost table = message_types::lists(*revealed);
        let n = signatures.len();
        let mut k: usize = 0;
        while k < n
            invariant
                n == sigs.len(),
                sigs == message_types::borrowed(*signatures),
                table == message_types::lists(*revealed),
                message_types::signatures_are_held(credentials@, sigs),
                message_types::is_per_claim(credentials@, sigs, table),
                k <= n,
                forall|p: int|
                    0 <= p < k ==> fits(credentials@, #[trigger] sigs[p], table[sigs[p].0]),
            decreases n - k,
        {
            let id = signatures.key_at(k);
            let statement = *signatures.value_at(k);
            assert(sigs[k as int] == (id@, *statement));
            assert(table.dom().contains(sigs[k as int].0));
            let row = revealed.get(id.as_str()).unwrap();
            assert(table[id@] == row@);
            if !Self::signature_fits(id, statement, row, Ghost(credentials@)) {
                assert(!fits(credentials@, sigs[k as int], table[sigs[k as int].0]));
                return false;
            }
            k = k + 1;
        }
        proof {
            assert forall|p: int| 0 <= p < sigs.len() implies {
                &&& challenge::text_fits((#[trigger] sigs[p]).0)
                &&& creation::disclosure_fits(
                    sigs[p].1->Signature_0,
                    credentials@[sigs[p].0],
                    table[sigs[p].0],
                )
            } by {
                assert(fits(credentials@, sigs[p], table[sigs[p].0]));
            }
        }
        true
    }

    /// The same for one signature statement.
    fn signature_fits(
        id: &String,
        statement: &Statements,
        revealed: &Vec<bool>,
        credentials: Ghost<Map<Seq<char>, Credential>>,
    ) -> (r: bool)
        requires
            *statement is Signature,
            revealed@.len() == credentials@[id@].claims@.len(),
        ensures
            r == fits(credentials@, (id@, *statement), revealed@),
    {
        if !Self::text_fits(id) {
            return false;
        }
        if let Statements::Signature(ss) = statement {
            let mut i: usize = 0;
            while i < revealed.len()
                invariant
                    i <= revealed@.len(),
                    revealed@.len() == credentials@[id@].claims@.len(),
                    *statement == Statements::Signature(*ss),
                    forall|j: int|
                        0 <= j < i && revealed@[j] ==> (
                        #[trigger] ss.issuer.schema.label(j) matches Some(label)
                            ==> challenge::text_fits(label)),
                decreases revealed@.len() - i,
            {
                if revealed[i] {
                    if let Some(label) = ss.issuer.schema.claim_label(i) {
                        if !Self::text_fits(label) {
                            assert(ss.issuer.schema.label(i as int) == Some(label@));
                            return false;
                        }
                    }
                }
                i = i + 1;
            }
        }
        true
    }
}

/// The id of a signature statement and the labels of its claims that are revealed are short enough
/// for a transcript.
spec fn fits(
    credentials: Map<Seq<char>, Credential>,
    entry: (Seq<char>, Statements),
    revealed: Seq<bool>,
) -> bool {
    &&& challenge::text_fits(entry.0)
    &&& creation::disclosure_fits(entry.1->Signature_0, credentials[entry.0], revealed)
}

} // verus!
