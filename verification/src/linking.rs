//! Which claims statements tie together.
//!
//! A claim has a place: the place of its signature statement among the signature statements, and
//! its index.
use vstd::prelude::*;
use crate::statement::Statements;

verus! {

/// The order of places: by signature statement, then by index.
pub open spec fn place_before(a: (int, int), b: (int, int)) -> bool {
    a.0 < b.0 || (a.0 == b.0 && a.1 < b.1)
}

/// The signature statement of a claim does not disclose it.
pub open spec fn is_hidden(signatures: Seq<(Seq<char>, Statements)>, a: (int, int)) -> bool {
    !signatures[a.0].1->Signature_0.discloses(a.1)
}

/// A statement speaks of a claim.
pub open spec fn speaks_of(
    signatures: Seq<(Seq<char>, Statements)>,
    statement: Statements,
    a: (int, int),
) -> bool {
    &&& 0 <= a.0 < signatures.len()
    &&& exists|j: int|
        0 <= j < statement.references().len() && (#[trigger] statement.references()[j]).0
            == signatures[a.0].0 && statement.references()[j].1 == a.1
}

/// A statement of several claims speaks of a claim.
pub open spec fn ties(
    signatures: Seq<(Seq<char>, Statements)>,
    statement: Statements,
    a: (int, int),
) -> bool {
    statement.references().len() > 1 && speaks_of(signatures, statement, a)
}

/// A statement compares two claims.
pub open spec fn are_compared(
    signatures: Seq<(Seq<char>, Statements)>,
    predicates: Seq<(Seq<char>, Statements)>,
    a: (int, int),
    b: (int, int),
) -> bool {
    exists|k: int|
        0 <= k < predicates.len() && ties(signatures, (#[trigger] predicates[k]).1, a) && ties(
            signatures,
            predicates[k].1,
            b,
        )
}

/// Each claim of the chain is compared with the next.
pub open spec fn is_chain(
    signatures: Seq<(Seq<char>, Statements)>,
    predicates: Seq<(Seq<char>, Statements)>,
    chain: Seq<(int, int)>,
) -> bool {
    &&& chain.len() > 0
    &&& forall|i: int|
        0 <= i < chain.len() - 1 ==> are_compared(
            signatures,
            predicates,
            #[trigger] chain[i],
            chain[i + 1],
        )
}

/// Two claims are one, or comparisons lead from the one to the other.
pub open spec fn are_linked(
    signatures: Seq<(Seq<char>, Statements)>,
    predicates: Seq<(Seq<char>, Statements)>,
    a: (int, int),
    b: (int, int),
) -> bool {
    exists|chain: Seq<(int, int)>| #[trigger]
        is_chain(signatures, predicates, chain) && chain.first() == a && chain.last() == b
}

/// `b` is the first of the claims that are linked with `a`.
pub open spec fn is_led_by(
    signatures: Seq<(Seq<char>, Statements)>,
    predicates: Seq<(Seq<char>, Statements)>,
    a: (int, int),
    b: (int, int),
) -> bool {
    &&& are_linked(signatures, predicates, a, b)
    &&& forall|c: (int, int)| #[trigger]
        are_linked(signatures, predicates, a, c) ==> !place_before(c, b)
}

/// The first of the claims that are linked with `a`.
pub open spec fn leader(
    signatures: Seq<(Seq<char>, Statements)>,
    predicates: Seq<(Seq<char>, Statements)>,
    a: (int, int),
) -> (int, int) {
    choose|b: (int, int)| is_led_by(signatures, predicates, a, b)
}

/// All claims that are linked with `a` are disclosed.
pub open spec fn is_open(
    signatures: Seq<(Seq<char>, Statements)>,
    predicates: Seq<(Seq<char>, Statements)>,
    a: (int, int),
) -> bool {
    forall|b: (int, int)| #[trigger]
        are_linked(signatures, predicates, a, b) ==> !is_hidden(signatures, b)
}

/// A claim is linked with itself, and with a claim that it is compared with.
pub proof fn lemma_linked(
    signatures: Seq<(Seq<char>, Statements)>,
    predicates: Seq<(Seq<char>, Statements)>,
    a: (int, int),
    b: (int, int),
)
    ensures
        are_linked(signatures, predicates, a, a),
        are_compared(signatures, predicates, a, b) ==> are_linked(signatures, predicates, a, b),
{
    assert(is_chain(signatures, predicates, seq![a]));
    assert(seq![a].first() == a && seq![a].last() == a);
    if are_compared(signatures, predicates, a, b) {
        let chain = seq![a, b];
        assert forall|i: int| 0 <= i < chain.len() - 1 implies are_compared(
            signatures,
            predicates,
            #[trigger] chain[i],
            chain[i + 1],
        ) by {
            assert(chain[i] == a && chain[i + 1] == b);
        }
        assert(is_chain(signatures, predicates, chain));
        assert(chain.first() == a && chain.last() == b);
    }
}

/// Links go both ways.
pub proof fn lemma_linked_symmetric(
    signatures: Seq<(Seq<char>, Statements)>,
    predicates: Seq<(Seq<char>, Statements)>,
    a: (int, int),
    b: (int, int),
)
    requires
        are_linked(signatures, predicates, a, b),
    ensures
        are_linked(signatures, predicates, b, a),
{
    let chain = choose|chain: Seq<(int, int)>| #[trigger]
        is_chain(signatures, predicates, chain) && chain.first() == a && chain.last() == b;
    let n = chain.len() as int;
    let back = Seq::new(chain.len(), |i: int| chain[n - 1 - i]);
    assert forall|i: int| 0 <= i < back.len() - 1 implies are_compared(
        signatures,
        predicates,
        #[trigger] back[i],
        back[i + 1],
    ) by {
        let j = n - 2 - i;
        assert(are_compared(signatures, predicates, chain[j], chain[j + 1]));
        assert(back[i] == chain[j + 1] && back[i + 1] == chain[j]);
        let k = choose|k: int|
            0 <= k < predicates.len() && ties(
                signatures,
                (#[trigger] predicates[k]).1,
                chain[j],
            ) && ties(signatures, predicates[k].1, chain[j + 1]);
        assert(ties(signatures, predicates[k].1, back[i]));
    }
    assert(is_chain(signatures, predicates, back));
    assert(back.first() == b && back.last() == a);
}

/// Links can be followed one after the other.
pub proof fn lemma_linked_transitive(
    signatures: Seq<(Seq<char>, Statements)>,
    predicates: Seq<(Seq<char>, Statements)>,
    a: (int, int),
    b: (int, int),
    c: (int, int),
)
    requires
        are_linked(signatures, predicates, a, b),
        are_linked(signatures, predicates, b, c),
    ensures
        are_linked(signatures, predicates, a, c),
{
    let x = choose|chain: Seq<(int, int)>| #[trigger]
        is_chain(signatures, predicates, chain) && chain.first() == a && chain.last() == b;
    let y = choose|chain: Seq<(int, int)>| #[trigger]
        is_chain(signatures, predicates, chain) && chain.first() == b && chain.last() == c;
    let chain = x + y.drop_first();
    assert forall|i: int| 0 <= i < chain.len() - 1 implies are_compared(
        signatures,
        predicates,
        #[trigger] chain[i],
        chain[i + 1],
    ) by {
        if i + 1 < x.len() {
            assert(are_compared(signatures, predicates, x[i], x[i + 1]));
        } else {
            let j = i + 1 - x.len();
            assert(chain[i] == y[j]);
            assert(chain[i + 1] == y[j + 1]);
            assert(are_compared(signatures, predicates, y[j], y[j + 1]));
        }
    }
    assert(is_chain(signatures, predicates, chain));
    assert(chain.first() == a);
    assert(chain.last() == c);
}

/// Comparisons by other statements may only add links.
proof fn lemma_linked_more(
    signatures: Seq<(Seq<char>, Statements)>,
    fewer: Seq<(Seq<char>, Statements)>,
    more: Seq<(Seq<char>, Statements)>,
    a: (int, int),
    b: (int, int),
)
    requires
        forall|x: (int, int), y: (int, int)|
            are_compared(signatures, fewer, x, y) ==> #[trigger] are_compared(
                signatures,
                more,
                x,
                y,
            ),
        are_linked(signatures, fewer, a, b),
    ensures
        are_linked(signatures, more, a, b),
{
    let chain = choose|chain: Seq<(int, int)>| #[trigger]
        is_chain(signatures, fewer, chain) && chain.first() == a && chain.last() == b;
    assert forall|i: int| 0 <= i < chain.len() - 1 implies are_compared(
        signatures,
        more,
        #[trigger] chain[i],
        chain[i + 1],
    ) by {
        assert(are_compared(signatures, fewer, chain[i], chain[i + 1]));
    }
    assert(is_chain(signatures, more, chain));
}

/// A statement of several claims speaks of a claim that is linked with another one.
pub proof fn lemma_linked_is_tied(
    signatures: Seq<(Seq<char>, Statements)>,
    predicates: Seq<(Seq<char>, Statements)>,
    a: (int, int),
    b: (int, int),
)
    requires
        are_linked(signatures, predicates, a, b),
    ensures
        a == b || (exists|k: int|
            0 <= k < predicates.len() && ties(signatures, (#[trigger] predicates[k]).1, b)),
        a == b || (exists|k: int|
            0 <= k < predicates.len() && ties(signatures, (#[trigger] predicates[k]).1, a)),
{
    let chain = choose|chain: Seq<(int, int)>| #[trigger]
        is_chain(signatures, predicates, chain) && chain.first() == a && chain.last() == b;
    if chain.len() > 1 {
        let i = chain.len() - 2;
        assert(are_compared(signatures, predicates, chain[i], chain[i + 1]));
        assert(are_compared(signatures, predicates, chain[0], chain[1]));
    }
}

/// Where the statements compare the same claims, the same claims are linked, lead and are open.
pub proof fn lemma_same_comparisons(
    signatures: Seq<(Seq<char>, Statements)>,
    p: Seq<(Seq<char>, Statements)>,
    q: Seq<(Seq<char>, Statements)>,
    a: (int, int),
)
    requires
        0 <= a.0 < signatures.len(),
        0 <= a.1,
        forall|x: (int, int), y: (int, int)|
            #![trigger are_compared(signatures, p, x, y)]
            #![trigger are_compared(signatures, q, x, y)]
            are_compared(signatures, p, x, y) == are_compared(signatures, q, x, y),
    ensures
        forall|b: (int, int)|
            #![trigger are_linked(signatures, p, a, b)]
            #![trigger are_linked(signatures, q, a, b)]
            are_linked(signatures, p, a, b) == are_linked(signatures, q, a, b),
        leader(signatures, p, a) == leader(signatures, q, a),
        is_open(signatures, p, a) == is_open(signatures, q, a),
{
    assert forall|b: (int, int)|
        #![trigger are_linked(signatures, p, a, b)]
        #![trigger are_linked(signatures, q, a, b)]
        are_linked(signatures, p, a, b) == are_linked(signatures, q, a, b) by {
        if are_linked(signatures, p, a, b) {
            lemma_linked_more(signatures, p, q, a, b);
        }
        if are_linked(signatures, q, a, b) {
            lemma_linked_more(signatures, q, p, a, b);
        }
    }
    lemma_leader(signatures, p, a);
    lemma_leader(signatures, q, a);
    let l = leader(signatures, p, a);
    assert(is_led_by(signatures, q, a, l));
    lemma_leader_unique(signatures, q, a, l);
}

/// Among the claims that are linked with `a` there is a first one, at or before `b`.
proof fn lemma_first_exists(
    signatures: Seq<(Seq<char>, Statements)>,
    predicates: Seq<(Seq<char>, Statements)>,
    a: (int, int),
    b: (int, int),
)
    requires
        are_linked(signatures, predicates, a, b),
        0 <= a.0,
        0 <= a.1,
        0 <= b.0,
        0 <= b.1,
    ensures
        exists|l: (int, int)| is_led_by(signatures, predicates, a, l),
    decreases b.0, b.1,
{
    if exists|c: (int, int)| #[trigger]
        are_linked(signatures, predicates, a, c) && place_before(c, b) {
        let c = choose|c: (int, int)| #[trigger]
            are_linked(signatures, predicates, a, c) && place_before(c, b);
        lemma_linked_is_tied(signatures, predicates, a, c);
        assert(0 <= c.0 && 0 <= c.1);
        lemma_first_exists(signatures, predicates, a, c);
    } else {
        assert(is_led_by(signatures, predicates, a, b));
    }
}

/// Every claim has a leader.
pub proof fn lemma_leader(
    signatures: Seq<(Seq<char>, Statements)>,
    predicates: Seq<(Seq<char>, Statements)>,
    a: (int, int),
)
    requires
        0 <= a.0,
        0 <= a.1,
    ensures
        is_led_by(signatures, predicates, a, leader(signatures, predicates, a)),
{
    lemma_linked(signatures, predicates, a, a);
    lemma_first_exists(signatures, predicates, a, a);
}

/// There is no other leader.
pub proof fn lemma_leader_unique(
    signatures: Seq<(Seq<char>, Statements)>,
    predicates: Seq<(Seq<char>, Statements)>,
    a: (int, int),
    b: (int, int),
)
    requires
        is_led_by(signatures, predicates, a, b),
    ensures
        leader(signatures, predicates, a) == b,
{
    let l = leader(signatures, predicates, a);
    assert(is_led_by(signatures, predicates, a, l));
    assert(!place_before(b, l) && !place_before(l, b));
}

/// Claims that are linked have one leader.
pub proof fn lemma_linked_share_leader(
    signatures: Seq<(Seq<char>, Statements)>,
    predicates: Seq<(Seq<char>, Statements)>,
    a: (int, int),
    b: (int, int),
)
    requires
        0 <= a.0,
        0 <= a.1,
        are_linked(signatures, predicates, a, b),
    ensures
        leader(signatures, predicates, a) == leader(signatures, predicates, b),
{
    lemma_leader(signatures, predicates, a);
    let l = leader(signatures, predicates, a);
    lemma_linked_symmetric(signatures, predicates, a, b);
    lemma_linked_transitive(signatures, predicates, b, a, l);
    assert forall|c: (int, int)| #[trigger]
        are_linked(signatures, predicates, b, c) implies !place_before(c, l) by {
        lemma_linked_transitive(signatures, predicates, a, b, c);
    }
    assert(is_led_by(signatures, predicates, b, l));
    lemma_leader_unique(signatures, predicates, b, l);
}

/// A claim that is open is disclosed, and so are all that it is linked with.
pub proof fn lemma_open(
    signatures: Seq<(Seq<char>, Statements)>,
    predicates: Seq<(Seq<char>, Statements)>,
    a: (int, int),
    b: (int, int),
)
    requires
        are_linked(signatures, predicates, a, b),
    ensures
        is_open(signatures, predicates, a) == is_open(signatures, predicates, b),
        is_open(signatures, predicates, a) ==> !is_hidden(signatures, a),
{
    lemma_linked(signatures, predicates, a, a);
    lemma_linked_symmetric(signatures, predicates, a, b);
    if is_open(signatures, predicates, a) {
        assert forall|c: (int, int)| #[trigger]
            are_linked(signatures, predicates, b, c) implies !is_hidden(signatures, c) by {
            lemma_linked_transitive(signatures, predicates, a, b, c);
        }
    }
    if is_open(signatures, predicates, b) {
        assert forall|c: (int, int)| #[trigger]
            are_linked(signatures, predicates, a, c) implies !is_hidden(signatures, c) by {
            lemma_linked_transitive(signatures, predicates, b, a, c);
        }
    }
}

/// A claim is linked with one that a statement of several claims speaks of.
pub open spec fn touches(
    signatures: Seq<(Seq<char>, Statements)>,
    predicates: Seq<(Seq<char>, Statements)>,
    statement: Statements,
    a: (int, int),
) -> bool {
    exists|r: (int, int)|
        #![trigger ties(signatures, statement, r)]
        ties(signatures, statement, r) && are_linked(signatures, predicates, a, r)
}

/// One more statement links what was linked before, and all claims that it touches.
pub(crate) proof fn lemma_linked_step(
    signatures: Seq<(Seq<char>, Statements)>,
    predicates: Seq<(Seq<char>, Statements)>,
    entry: (Seq<char>, Statements),
    a: (int, int),
    b: (int, int),
)
    ensures
        are_linked(signatures, predicates.push(entry), a, b) <==> (are_linked(
            signatures,
            predicates,
            a,
            b,
        ) || (touches(signatures, predicates, entry.1, a) && touches(
            signatures,
            predicates,
            entry.1,
            b,
        ))),
{
    let more = predicates.push(entry);
    assert forall|x: (int, int), y: (int, int)|
        are_compared(signatures, predicates, x, y) implies #[trigger] are_compared(
        signatures,
        more,
        x,
        y,
    ) by {
        let k = choose|k: int|
            0 <= k < predicates.len() && ties(
                signatures,
                (#[trigger] predicates[k]).1,
                x,
            ) && ties(signatures, predicates[k].1, y);
        assert(more[k] == predicates[k]);
    }
    if are_linked(signatures, predicates, a, b) {
        lemma_linked_more(signatures, predicates, more, a, b);
    } else if touches(signatures, predicates, entry.1, a) && touches(
        signatures,
        predicates,
        entry.1,
        b,
    ) {
        let r = choose|r: (int, int)|
            #![trigger ties(signatures, entry.1, r)]
            ties(signatures, entry.1, r) && are_linked(signatures, predicates, a, r);
        let s = choose|r: (int, int)|
            #![trigger ties(signatures, entry.1, r)]
            ties(signatures, entry.1, r) && are_linked(signatures, predicates, b, r);
        assert(more[predicates.len() as int] == entry);
        assert(are_compared(signatures, more, r, s));
        lemma_linked(signatures, more, r, s);
        lemma_linked_more(signatures, predicates, more, a, r);
        lemma_linked_more(signatures, predicates, more, b, s);
        lemma_linked_symmetric(signatures, more, b, s);
        lemma_linked_transitive(signatures, more, a, r, s);
        lemma_linked_transitive(signatures, more, a, s, b);
    }
    if are_linked(signatures, more, a, b) {
        let chain = choose|chain: Seq<(int, int)>| #[trigger]
            is_chain(signatures, more, chain) && chain.first() == a && chain.last() == b;
        lemma_chain_step(signatures, predicates, entry, chain, chain.len() - 1);
    }
}

/// The same for the claim at `i` of a chain.
proof fn lemma_chain_step(
    signatures: Seq<(Seq<char>, Statements)>,
    predicates: Seq<(Seq<char>, Statements)>,
    entry: (Seq<char>, Statements),
    chain: Seq<(int, int)>,
    i: int,
)
    requires
        is_chain(signatures, predicates.push(entry), chain),
        0 <= i < chain.len(),
    ensures
        are_linked(signatures, predicates, chain[0], chain[i]) || (touches(
            signatures,
            predicates,
            entry.1,
            chain[0],
        ) && touches(signatures, predicates, entry.1, chain[i])),
    decreases i,
{
    let (a, c) = (chain[0], chain[i]);
    if i == 0 {
        lemma_linked(signatures, predicates, a, a);
    } else {
        let b = chain[i - 1];
        lemma_chain_step(signatures, predicates, entry, chain, i - 1);
        let more = predicates.push(entry);
        assert(are_compared(signatures, more, chain[i - 1], chain[i - 1 + 1]));
        let k = choose|k: int|
            0 <= k < more.len() && ties(signatures, (#[trigger] more[k]).1, b) && ties(
                signatures,
                more[k].1,
                c,
            );
        if k < predicates.len() {
            assert(ties(signatures, predicates[k].1, b) && ties(signatures, predicates[k].1, c));
            assert(are_compared(signatures, predicates, b, c));
            lemma_linked(signatures, predicates, b, c);
            if are_linked(signatures, predicates, a, b) {
                lemma_linked_transitive(signatures, predicates, a, b, c);
            } else {
                let r = choose|r: (int, int)|
                    #![trigger ties(signatures, entry.1, r)]
                    ties(signatures, entry.1, r) && are_linked(signatures, predicates, b, r);
                lemma_linked_symmetric(signatures, predicates, b, c);
                lemma_linked_transitive(signatures, predicates, c, b, r);
            }
        } else {
            lemma_linked(signatures, predicates, c, c);
            assert(touches(signatures, predicates, entry.1, c));
            if are_linked(signatures, predicates, a, b) {
                assert(touches(signatures, predicates, entry.1, a));
            }
        }
    }
}

/// Without statements a claim is linked with itself alone.
pub(crate) proof fn lemma_linked_by_none(
    signatures: Seq<(Seq<char>, Statements)>,
    a: (int, int),
    b: (int, int),
)
    ensures
        are_linked(signatures, seq![], a, b) <==> a == b,
{
    lemma_linked(signatures, seq![], a, b);
    if are_linked(signatures, seq![], a, b) {
        lemma_linked_is_tied(signatures, seq![], a, b);
    }
}

} // verus!
