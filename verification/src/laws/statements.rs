//! How the statements of a schema are parted.
use vstd::prelude::*;
use crate::message_types;
use crate::ordered_map;
use crate::statement;
use crate::statement::{CredentialSchema, SignatureStatement, Statements};

verus! {

/// The parts of the statements hold those of their kind, in the same order.
pub(crate) proof fn lemma_members(statements: Seq<(Seq<char>, Statements)>)
    requires
        ordered_map::ascending(statements),
    ensures
        ordered_map::ascending(message_types::signatures_of(statements)),
        ordered_map::ascending(message_types::predicates_of(statements)),
        message_types::signatures_of(statements).len() + message_types::predicates_of(
            statements,
        ).len() == statements.len(),
        forall|e: (Seq<char>, Statements)| #[trigger]
            message_types::signatures_of(statements).contains(e) <==> statements.contains(e)
                && e.1 is Signature,
        forall|e: (Seq<char>, Statements)| #[trigger]
            message_types::predicates_of(statements).contains(e) <==> statements.contains(e) && !(
            e.1 is Signature),
    decreases statements.len(),
{
    reveal(Seq::filter);
    let signatures = message_types::signatures_of(statements);
    let predicates = message_types::predicates_of(statements);
    if statements.len() > 0 {
        let before = statements.drop_last();
        lemma_members(before);
        let last = statements.last();
        let s = message_types::signatures_of(before);
        let p = message_types::predicates_of(before);
        assert forall|e: (Seq<char>, Statements)| #[trigger] statements.contains(e) <==> (
        before.contains(e) || e == last) by {
            if statements.contains(e) && e != last {
                let q = choose|q: int| 0 <= q < statements.len() && statements[q] == e;
                assert(before[q] == e);
            }
            if before.contains(e) {
                let q = choose|q: int| 0 <= q < before.len() && before[q] == e;
                assert(statements[q] == e);
            }
            assert(statements[statements.len() - 1] == last);
        }
        lemma_grown(s, signatures, before, last);
        lemma_grown(p, predicates, before, last);
    }
}

/// A listing that grows at most by an entry behind all others still ascends.
proof fn lemma_grown(
    part: Seq<(Seq<char>, Statements)>,
    grown: Seq<(Seq<char>, Statements)>,
    before: Seq<(Seq<char>, Statements)>,
    last: (Seq<char>, Statements),
)
    requires
        ordered_map::ascending(part),
        ordered_map::ascending(before.push(last)),
        forall|e: (Seq<char>, Statements)| #[trigger] part.contains(e) ==> before.contains(e),
        grown == part || grown == part.push(last),
    ensures
        ordered_map::ascending(grown),
        forall|e: (Seq<char>, Statements)| #[trigger]
            grown.contains(e) <==> part.contains(e) || (grown == part.push(last) && e == last),
{
    let all = before.push(last);
    if grown == part.push(last) {
        assert forall|i: int, j: int| 0 <= i < j < grown.len() implies ordered_map::text_before(
            #[trigger] grown[i].0,
            #[trigger] grown[j].0,
        ) by {
            if j == part.len() {
                assert(part.contains(part[i]));
                let q = choose|q: int| 0 <= q < before.len() && before[q] == part[i];
                assert(all[q].0 == part[i].0);
                assert(all[before.len() as int].0 == last.0);
            } else {
                assert(grown[i] == part[i] && grown[j] == part[j]);
            }
        }
        assert forall|e: (Seq<char>, Statements)| #[trigger] grown.contains(e) <==> (part.contains(
            e,
        ) || e == last) by {
            if grown.contains(e) && e != last {
                let q = choose|q: int| 0 <= q < grown.len() && grown[q] == e;
                assert(part[q] == e);
            }
            if part.contains(e) {
                let q = choose|q: int| 0 <= q < part.len() && part[q] == e;
                assert(grown[q] == e);
            }
            assert(grown[part.len() as int] == last);
        }
    }
}

/// An ascending listing has an entry under a key exactly where its map does, and it is the value.
proof fn lemma_entry_of(listing: Seq<(Seq<char>, Statements)>, key: Seq<char>, value: Statements)
    requires
        ordered_map::ascending(listing),
    ensures
        listing.contains((key, value)) <==> ordered_map::has_key(listing, key)
            && ordered_map::map_of(listing)[key] == value,
{
    if listing.contains((key, value)) {
        let q = choose|q: int| 0 <= q < listing.len() && listing[q] == (key, value);
        ordered_map::lemma_entry_found(listing, q);
    }
    if ordered_map::has_key(listing, key) && ordered_map::map_of(listing)[key] == value {
        let q = ordered_map::key_index(listing, key);
        assert(listing[q] == (key, value));
    }
}

/// Every statement of a schema goes into exactly one of the two parts, under its id: into the first
/// if it is about a signature, else into the second; and nothing else goes there.
pub proof fn statements_are_parted(statements: Seq<(Seq<char>, Statements)>, id: Seq<char>)
    requires
        ordered_map::ascending(statements),
    ensures
        message_types::signatures_of(statements).len() + message_types::predicates_of(
            statements,
        ).len() == statements.len(),
        ordered_map::has_key(message_types::signatures_of(statements), id) <==> (
        ordered_map::has_key(statements, id) && ordered_map::map_of(
            statements,
        )[id] is Signature),
        ordered_map::has_key(message_types::predicates_of(statements), id) <==> (
        ordered_map::has_key(statements, id) && !(ordered_map::map_of(
            statements,
        )[id] is Signature)),
        ordered_map::has_key(message_types::signatures_of(statements), id) ==> ordered_map::map_of(
            message_types::signatures_of(statements),
        )[id] == ordered_map::map_of(statements)[id],
        ordered_map::has_key(message_types::predicates_of(statements), id) ==> ordered_map::map_of(
            message_types::predicates_of(statements),
        )[id] == ordered_map::map_of(statements)[id],
{
    let signatures = message_types::signatures_of(statements);
    let predicates = message_types::predicates_of(statements);
    lemma_members(statements);
    let value = ordered_map::map_of(statements)[id];
    let s = ordered_map::map_of(signatures)[id];
    let p = ordered_map::map_of(predicates)[id];
    lemma_entry_of(statements, id, value);
    lemma_entry_of(statements, id, s);
    lemma_entry_of(statements, id, p);
    lemma_entry_of(signatures, id, value);
    lemma_entry_of(signatures, id, s);
    lemma_entry_of(predicates, id, value);
    lemma_entry_of(predicates, id, p);
}

/// A statement speaks of the claims that it names and of no others: a signature statement of none,
/// an equality of those that it lists, in order, and every other statement of the one claim that it
/// names. A membership, a commitment and an encryption are about that claim.
pub proof fn statements_speak_of_what_they_name(statement: Statements)
    ensures
        match statement {
            Statements::Signature(_) => statement.references().len() == 0,
            Statements::AccumulatorSetMembership(a) => statement.references().len() == 1
                && statement.references()[0] == (a.reference_id@, a.claim),
            Statements::Equality(e) => statement.references() == e.ref_id_claim_index.listing(),
            Statements::Commitment(c) => statement.references().len() == 1
                && statement.references()[0] == (c.reference_id@, c.claim),
            Statements::VerifiableEncryption(v) => statement.references().len() == 1
                && statement.references()[0] == (v.reference_id@, v.claim),
            Statements::Range(r) => statement.references().len() == 1 && statement.references()[0]
                == (r.reference_id@, r.claim),
        },
        match statement {
            Statements::AccumulatorSetMembership(_) => statement.subject() == Some(
                statement.references()[0],
            ),
            Statements::Commitment(_) => statement.subject() == Some(statement.references()[0]),
            Statements::VerifiableEncryption(_) => statement.subject() == Some(
                statement.references()[0],
            ),
            _ => statement.subject() is None,
        },
{
}

/// The label of a claim is the first one, in order, that leads to its index; where none does, the
/// claim has no label.
pub proof fn labels_are_the_first_that_lead_to_the_claim(schema: CredentialSchema, index: int)
    ensures
        match schema.label(index) {
            Some(label) => exists|p: int|
                0 <= p < schema.claim_indices.listing().len() && (
                #[trigger] schema.claim_indices.listing()[p]).0 == label
                    && schema.claim_indices.listing()[p].1 == index && forall|q: int|
                    0 <= q < p ==> (#[trigger] schema.claim_indices.listing()[q]).1 != index,
            None => forall|q: int|
                0 <= q < schema.claim_indices.listing().len() ==> (
                #[trigger] schema.claim_indices.listing()[q]).1 != index,
        },
{
    lemma_first(schema.claim_indices.listing(), index);
}

/// The same for a list of labels.
proof fn lemma_first(indices: Seq<(Seq<char>, usize)>, index: int)
    ensures
        match statement::first_label(indices, index) {
            Some(label) => exists|p: int|
                0 <= p < indices.len() && (#[trigger] indices[p]).0 == label && indices[p].1
                    == index && forall|q: int| 0 <= q < p ==> (#[trigger] indices[q]).1 != index,
            None => forall|q: int|
                0 <= q < indices.len() ==> (#[trigger] indices[q]).1 != index,
        },
    decreases indices.len(),
{
    if indices.len() > 0 && indices[0].1 != index {
        let rest = indices.drop_first();
        lemma_first(rest, index);
        match statement::first_label(rest, index) {
            Some(label) => {
                let p = choose|p: int|
                    0 <= p < rest.len() && (#[trigger] rest[p]).0 == label && rest[p].1 == index
                        && forall|q: int| 0 <= q < p ==> (#[trigger] rest[q]).1 != index;
                assert(indices[p + 1] == rest[p]);
                assert forall|q: int| 0 <= q < p + 1 implies (#[trigger] indices[q]).1
                    != index by {
                    if q > 0 {
                        assert(indices[q] == rest[q - 1]);
                    }
                }
            },
            None => {
                assert forall|q: int| 0 <= q < indices.len() implies (#[trigger] indices[q]).1
                    != index by {
                    if q > 0 {
                        assert(indices[q] == rest[q - 1]);
                    }
                }
            },
        }
    }
}

/// A signature statement discloses a claim exactly where the label of the claim is one of those
/// that it asks for.
pub proof fn claims_are_disclosed_by_their_labels(statement: SignatureStatement, index: int)
    ensures
        statement.discloses(index) <==> exists|p: int|
            0 <= p < statement.issuer.schema.claim_indices.listing().len() && (
            #[trigger] statement.issuer.schema.claim_indices.listing()[p]).1 == index
                && statement.disclosed@.dom().contains(
                statement.issuer.schema.claim_indices.listing()[p].0,
            ) && forall|q: int|
                0 <= q < p ==> (#[trigger] statement.issuer.schema.claim_indices.listing()[q]).1
                    != index,
{
    let all = statement.issuer.schema.claim_indices.listing();
    labels_are_the_first_that_lead_to_the_claim(statement.issuer.schema, index);
    if statement.issuer.schema.label(index) is Some {
        let label = statement.issuer.schema.label(index)->0;
        let p = choose|p: int|
            0 <= p < all.len() && (#[trigger] all[p]).0 == label && all[p].1 == index && forall|
                q: int,
            |
                0 <= q < p ==> (#[trigger] all[q]).1 != index;
        assert(all[p].1 == index);
        if exists|r: int|
            0 <= r < all.len() && (#[trigger] all[r]).1 == index
                && statement.disclosed@.dom().contains(all[r].0) && forall|q: int|
                0 <= q < r ==> (#[trigger] all[q]).1 != index {
            let r = choose|r: int|
                0 <= r < all.len() && (#[trigger] all[r]).1 == index
                    && statement.disclosed@.dom().contains(all[r].0) && forall|q: int|
                    0 <= q < r ==> (#[trigger] all[q]).1 != index;
            assert(r == p) by {
                if r < p {
                    assert(all[r].1 != index);
                }
                if p < r {
                    assert(all[p].1 != index);
                }
            }
        }
    }
}

} // verus!
