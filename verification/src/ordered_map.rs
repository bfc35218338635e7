//! Maps from text to values that are walked in the order of their keys.
use vstd::prelude::*;
use vstd::utf8::{encode_utf8, encode_utf8_decode_utf8};

verus! {

/// Byte strings in dictionary order: `a` comes strictly before `b`.
pub open spec fn bytes_before(a: Seq<u8>, b: Seq<u8>) -> bool
    decreases a.len(),
{
    if b.len() == 0 {
        false
    } else if a.len() == 0 {
        true
    } else if a[0] != b[0] {
        a[0] < b[0]
    } else {
        bytes_before(a.drop_first(), b.drop_first())
    }
}

/// The order of texts: by the bytes of their UTF-8 encoding.
pub open spec fn text_before(a: Seq<char>, b: Seq<char>) -> bool {
    bytes_before(encode_utf8(a), encode_utf8(b))
}

/// No byte string comes before itself, and of two different ones exactly one comes first.
pub proof fn lemma_bytes_order(a: Seq<u8>, b: Seq<u8>)
    ensures
        bytes_before(a, b) ==> a != b && !bytes_before(b, a),
        a != b ==> bytes_before(a, b) || bytes_before(b, a),
    decreases a.len(),
{
    if a.len() != 0 && b.len() != 0 {
        lemma_bytes_order(a.drop_first(), b.drop_first());
        if a[0] == b[0] && a.drop_first() == b.drop_first() {
            assert(a =~= seq![a[0]] + a.drop_first());
            assert(b =~= seq![b[0]] + b.drop_first());
        }
    } else if a.len() == 0 && b.len() == 0 {
        assert(a =~= b);
    }
}

/// The order of byte strings is transitive.
pub proof fn lemma_bytes_order_transitive(a: Seq<u8>, b: Seq<u8>, c: Seq<u8>)
    requires
        bytes_before(a, b),
        bytes_before(b, c),
    ensures
        bytes_before(a, c),
    decreases a.len(),
{
    if a.len() != 0 && a[0] == b[0] && b[0] == c[0] {
        lemma_bytes_order_transitive(a.drop_first(), b.drop_first(), c.drop_first());
    }
}

/// Texts with one encoding are one text.
pub proof fn lemma_encoding_is_injective(a: Seq<char>, b: Seq<char>)
    requires
        encode_utf8(a) == encode_utf8(b),
    ensures
        a == b,
{
    encode_utf8_decode_utf8(a);
    encode_utf8_decode_utf8(b);
}

/// Texts are totally ordered.
pub proof fn lemma_text_order(a: Seq<char>, b: Seq<char>)
    ensures
        text_before(a, b) ==> a != b && !text_before(b, a),
        a != b ==> text_before(a, b) || text_before(b, a),
{
    lemma_bytes_order(encode_utf8(a), encode_utf8(b));
    if encode_utf8(a) == encode_utf8(b) {
        lemma_encoding_is_injective(a, b);
    }
}

/// The order of texts is transitive.
pub proof fn lemma_text_order_transitive(a: Seq<char>, b: Seq<char>, c: Seq<char>)
    requires
        text_before(a, b),
        text_before(b, c),
    ensures
        text_before(a, c),
{
    lemma_bytes_order_transitive(encode_utf8(a), encode_utf8(b), encode_utf8(c));
}

/// How one key stands to another.
#[derive(Clone, Copy, Debug, PartialEq, Eq, Structural)]
pub enum Standing {
    Before,
    Same,
    After,
}

/// Says how `a` stands to `b` in the order of texts.
pub fn compare_texts(a: &str, b: &str) -> (r: Standing)
    ensures
        r == Standing::Before <==> text_before(a@, b@),
        r == Standing::Same <==> a@ == b@,
        r == Standing::After <==> text_before(b@, a@),
{
    let x = a.as_bytes();
    let y = b.as_bytes();
    let mut i: usize = 0;
    proof {
        lemma_text_order(a@, b@);
        lemma_text_order(b@, a@);
        assert(x@.skip(0) =~= x@);
        assert(y@.skip(0) =~= y@);
    }
    while i < x.len() && i < y.len() && x[i] == y[i]
        invariant
            i <= x@.len(),
            i <= y@.len(),
            x@.take(i as int) == y@.take(i as int),
            bytes_before(x@, y@) == bytes_before(x@.skip(i as int), y@.skip(i as int)),
            bytes_before(y@, x@) == bytes_before(y@.skip(i as int), x@.skip(i as int)),
        decreases x@.len() - i,
    {
        proof {
            assert(x@.skip(i as int).drop_first() =~= x@.skip(i + 1));
            assert(y@.skip(i as int).drop_first() =~= y@.skip(i + 1));
            assert(x@.take(i + 1) =~= x@.take(i as int).push(x@[i as int]));
            assert(y@.take(i + 1) =~= y@.take(i as int).push(y@[i as int]));
        }
        i = i + 1;
    }
    if i == x.len() && i == y.len() {
        proof {
            assert(x@.take(i as int) =~= x@);
            assert(y@.take(i as int) =~= y@);
            lemma_encoding_is_injective(a@, b@);
        }
        Standing::Same
    } else if i == x.len() || (i < y.len() && x[i] < y[i]) {
        Standing::Before
    } else {
        Standing::After
    }
}

/// A list of keys with their values, keys strictly ascending.
pub open spec fn ascending<V>(listing: Seq<(Seq<char>, V)>) -> bool {
    forall|i: int, j: int|
        0 <= i < j < listing.len() ==> text_before(#[trigger] listing[i].0, #[trigger] listing[j].0)
}

/// `key` is among the keys of `listing`.
pub open spec fn has_key<V>(listing: Seq<(Seq<char>, V)>, key: Seq<char>) -> bool {
    exists|i: int| 0 <= i < listing.len() && (#[trigger] listing[i]).0 == key
}

/// Where `key` stands in `listing`.
pub open spec fn key_index<V>(listing: Seq<(Seq<char>, V)>, key: Seq<char>) -> int {
    choose|i: int| 0 <= i < listing.len() && (#[trigger] listing[i]).0 == key
}

/// The map that a listing describes.
pub open spec fn map_of<V>(listing: Seq<(Seq<char>, V)>) -> Map<Seq<char>, V> {
    Map::new(
        |key: Seq<char>| has_key(listing, key),
        |key: Seq<char>| listing[key_index(listing, key)].1,
    )
}

/// In an ascending listing each entry is found under its key.
pub proof fn lemma_entry_found<V>(listing: Seq<(Seq<char>, V)>, i: int)
    requires
        ascending(listing),
        0 <= i < listing.len(),
    ensures
        map_of(listing).dom().contains(listing[i].0),
        map_of(listing)[listing[i].0] == listing[i].1,
        key_index(listing, listing[i].0) == i,
{
    let key = listing[i].0;
    let j = key_index(listing, key);
    assert(has_key(listing, key));
    assert(0 <= j < listing.len() && listing[j].0 == key);
    lemma_text_order(key, key);
}

/// The keys of a listing.
spec fn key_set<V>(listing: Seq<(Seq<char>, V)>) -> Set<Seq<char>> {
    listing.map_values(|e: (Seq<char>, V)| e.0).to_set()
}

/// The keys of an ascending listing are as many as its entries.
proof fn lemma_key_set<V>(listing: Seq<(Seq<char>, V)>)
    requires
        ascending(listing),
    ensures
        key_set(listing).finite(),
        key_set(listing).len() == listing.len(),
        forall|key: Seq<char>| #[trigger] key_set(listing).contains(key) <==> has_key(listing, key),
{
    let keys = listing.map_values(|e: (Seq<char>, V)| e.0);
    assert(keys.no_duplicates()) by {
        assert forall|i: int, j: int|
            0 <= i < keys.len() && 0 <= j < keys.len() && i != j implies keys[i] != keys[j] by {
            lemma_text_order(listing[i].0, listing[j].0);
            if i < j {
                assert(text_before(listing[i].0, listing[j].0));
            } else {
                assert(text_before(listing[j].0, listing[i].0));
                lemma_text_order(listing[j].0, listing[i].0);
            }
        }
    }
    keys.unique_seq_to_set();
    assert forall|key: Seq<char>| #[trigger] key_set(listing).contains(key) <==> has_key(
        listing,
        key,
    ) by {
        if has_key(listing, key) {
            let i = key_index(listing, key);
            assert(keys[i] == key);
        }
        if key_set(listing).contains(key) {
            let i = choose|i: int| 0 <= i < keys.len() && keys[i] == key;
            assert(listing[i].0 == key);
        }
    }
}

/// Two ascending listings have the same keys exactly where they are as long as each other and the
/// keys of the one are among those of the other.
pub proof fn lemma_same_keys<V, W>(a: Seq<(Seq<char>, V)>, b: Seq<(Seq<char>, W)>)
    requires
        ascending(a),
        ascending(b),
    ensures
        (a.len() == b.len() && forall|k: int| 0 <= k < a.len() ==> has_key(b, (#[trigger] a[k]).0))
            <==> (forall|key: Seq<char>| #[trigger] has_key(b, key) <==> has_key(a, key)),
{
    lemma_key_set(a);
    lemma_key_set(b);
    if a.len() == b.len() && forall|k: int| 0 <= k < a.len() ==> has_key(b, (#[trigger] a[k]).0) {
        assert forall|key: Seq<char>| key_set(a).contains(key) implies key_set(b).contains(key) by {
            assert(has_key(a, key));
            let i = key_index(a, key);
            assert(has_key(b, a[i].0));
        }
        vstd::set_lib::lemma_subset_equality(key_set(a), key_set(b));
        assert forall|key: Seq<char>| #[trigger] has_key(b, key) <==> has_key(a, key) by {
            assert(key_set(a).contains(key) <==> key_set(b).contains(key));
        }
    }
    if forall|key: Seq<char>| #[trigger] has_key(b, key) <==> has_key(a, key) {
        assert(key_set(a) =~= key_set(b)) by {
            assert forall|key: Seq<char>| key_set(a).contains(key) == key_set(b).contains(key) by {
                assert(has_key(b, key) <==> has_key(a, key));
            }
        }
        assert forall|k: int| 0 <= k < a.len() implies has_key(b, (#[trigger] a[k]).0) by {
            assert(has_key(a, a[k].0));
        }
    }
}

/// The order of a listing is determined by what it holds: ascending listings of one map are the
/// same.
pub proof fn listing_is_determined<V>(a: Seq<(Seq<char>, V)>, b: Seq<(Seq<char>, V)>)
    requires
        ascending(a),
        ascending(b),
        map_of(a) == map_of(b),
    ensures
        a == b,
{
    assert forall|key: Seq<char>| #[trigger] has_key(b, key) <==> has_key(a, key) by {
        assert(map_of(a).dom().contains(key) == has_key(a, key));
        assert(map_of(b).dom().contains(key) == has_key(b, key));
    }
    lemma_same_keys(a, b);
    assert forall|i: int| 0 <= i < a.len() implies a[i] == b[i] by {
        lemma_determined_at(a, b, i);
    }
    assert(a =~= b);
}

/// The same for one entry.
proof fn lemma_determined_at<V>(a: Seq<(Seq<char>, V)>, b: Seq<(Seq<char>, V)>, i: int)
    requires
        ascending(a),
        ascending(b),
        map_of(a) == map_of(b),
        a.len() == b.len(),
        0 <= i < a.len(),
    ensures
        a[i] == b[i],
    decreases i,
{
    assert forall|j: int| 0 <= j < i implies a[j] == b[j] by {
        lemma_determined_at(a, b, j);
    }
    lemma_entry_found(a, i);
    lemma_entry_found(b, i);
    let p = key_index(b, a[i].0);
    let q = key_index(a, b[i].0);
    assert(map_of(b).dom().contains(a[i].0));
    assert(map_of(a).dom().contains(b[i].0));
    assert(b[p].0 == a[i].0 && a[q].0 == b[i].0);
    lemma_text_order(a[i].0, b[i].0);
    if p < i {
        assert(text_before(a[p].0, a[i].0));
        lemma_text_order(a[p].0, a[i].0);
    }
    if q < i {
        assert(text_before(b[q].0, b[i].0));
        lemma_text_order(b[q].0, b[i].0);
    }
    if p > i {
        assert(text_before(b[i].0, b[p].0));
        if q > i {
            assert(text_before(a[i].0, a[q].0));
        }
    }
}

/// A map from text to `V`, kept as a list of entries in ascending order of keys.
#[derive(Debug)]
pub struct OrderedMap<V> {
    entries: Vec<(String, V)>,
}

impl<V> View for OrderedMap<V> {
    type V = Map<Seq<char>, V>;

    open spec fn view(&self) -> Map<Seq<char>, V> {
        map_of(self.listing())
    }
}

impl<V> OrderedMap<V> {
    /// The entries in order: keys as texts, with their values.
    pub closed spec fn listing(self) -> Seq<(Seq<char>, V)> {
        self.entries@.map_values(|e: (String, V)| (e.0@, e.1))
    }

    /// The keys ascend strictly, so that none occurs twice.
    #[verifier::type_invariant]
    pub open spec fn wf(self) -> bool {
        ascending(self.listing())
    }

    /// The map without entries.
    pub fn new() -> (r: Self)
        ensures
            r.listing() == Seq::<(Seq<char>, V)>::empty(),
            r@ == Map::<Seq<char>, V>::empty(),
    {
        let entries: Vec<(String, V)> = Vec::new();
        proof {
            assert(entries@.map_values(|e: (String, V)| (e.0@, e.1))
                =~= Seq::<(Seq<char>, V)>::empty());
        }
        let r = OrderedMap { entries };
        assert(r@ =~= Map::<Seq<char>, V>::empty());
        r
    }

    /// The number of entries.
    pub fn len(&self) -> (r: usize)
        ensures
            r == self.listing().len(),
    {
        self.entries.len()
    }

    /// The `i`-th key in ascending order.
    pub fn key_at(&self, i: usize) -> (r: &String)
        requires
            i < self.listing().len(),
        ensures
            r@ == self.listing()[i as int].0,
    {
        &self.entries[i].0
    }

    /// The value of the `i`-th key in ascending order.
    pub fn value_at(&self, i: usize) -> (r: &V)
        requires
            i < self.listing().len(),
        ensures
            *r == self.listing()[i as int].1,
    {
        &self.entries[i].1
    }

    /// Where `key` stands, if it is there.
    pub fn position(&self, key: &str) -> (r: Option<usize>)
        ensures
            r is Some <==> self@.dom().contains(key@),
            r matches Some(i) ==> {
                &&& i < self.listing().len()
                &&& self.listing()[i as int].0 == key@
                &&& self.listing()[i as int].1 == self@[key@]
            },
    {
        proof {
            use_type_invariant(self);
        }
        let mut i: usize = 0;
        while i < self.entries.len()
            invariant
                i <= self.listing().len(),
                self.wf(),
                self.listing().len() == self.entries@.len(),
                forall|j: int| 0 <= j < i ==> (#[trigger] self.listing()[j]).0 != key@,
            decreases self.listing().len() - i,
        {
            if compare_texts(self.entries[i].0.as_str(), key) == Standing::Same {
                proof {
                    lemma_entry_found(self.listing(), i as int);
                }
                return Some(i);
            }
            i = i + 1;
        }
        None
    }

    /// The value of `key`, if it is there.
    pub fn get(&self, key: &str) -> (r: Option<&V>)
        ensures
            r is Some <==> self@.dom().contains(key@),
            r matches Some(v) ==> *v == self@[key@],
    {
        match self.position(key) {
            Some(i) => Some(&self.entries[i].1),
            None => None,
        }
    }

    /// Whether `key` is there.
    pub fn contains_key(&self, key: &str) -> (r: bool)
        ensures
            r == self@.dom().contains(key@),
    {
        self.position(key).is_some()
    }

    /// Puts `value` in the place of the `i`-th value.
    pub fn set(&mut self, i: usize, value: V)
        requires
            i < old(self).listing().len(),
        ensures
            final(self).listing() == old(self).listing().update(
                i as int,
                (old(self).listing()[i as int].0, value),
            ),
            final(self)@ == old(self)@.insert(old(self).listing()[i as int].0, value),
    {
        proof {
            use_type_invariant(&*self);
        }
        let ghost before = self.listing();
        let mut entries: Vec<(String, V)> = Vec::new();
        core::mem::swap(&mut entries, &mut self.entries);
        let key = entries[i].0.clone();
        entries.set(i, (key, value));
        proof {
            let after = entries@.map_values(|e: (String, V)| (e.0@, e.1));
            assert(after =~= before.update(i as int, (before[i as int].0, value)));
            lemma_updated(before, i as int, value);
        }
        self.entries = entries;
    }

    /// Adds an entry, or puts `value` in the place of what `key` had.
    pub fn insert(&mut self, key: String, value: V)
        ensures
            final(self)@ == old(self)@.insert(key@, value),
            (forall|i: int|
                0 <= i < old(self).listing().len() ==> text_before(
                    (#[trigger] old(self).listing()[i]).0,
                    key@,
                )) ==> final(self).listing() == old(self).listing().push((key@, value)),
    {
        proof {
            use_type_invariant(&*self);
        }
        let ghost before = self.listing();
        let n = self.entries.len();
        let mut i: usize = 0;
        while i < n && compare_texts(self.entries[i].0.as_str(), key.as_str()) == Standing::Before
            invariant
                n == self.entries@.len(),
                self.listing() == before,
                before.len() == n,
                i <= n,
                forall|j: int| 0 <= j < i ==> text_before((#[trigger] before[j]).0, key@),
            decreases n - i,
        {
            i = i + 1;
        }
        if i < n && compare_texts(self.entries[i].0.as_str(), key.as_str()) == Standing::Same {
            proof {
                lemma_text_order(key@, key@);
            }
            self.set(i, value);
        } else {
            let mut entries: Vec<(String, V)> = Vec::new();
            core::mem::swap(&mut entries, &mut self.entries);
            let ghost k = key@;
            entries.insert(i, (key, value));
            proof {
                let after = entries@.map_values(|e: (String, V)| (e.0@, e.1));
                assert(after =~= before.insert(i as int, (k, value)));
                if i < n {
                    lemma_text_order(before[i as int].0, k);
                }
                lemma_inserted(before, i as int, k, value);
                if i == n {
                    assert(after =~= before.push((k, value)));
                } else {
                    lemma_text_order(before[i as int].0, k);
                }
            }
            self.entries = entries;
        }
    }
}

impl<V: Clone> Clone for OrderedMap<V> {
    /// A map with the same keys and with clones of the values.
    fn clone(&self) -> (r: Self)
        ensures
            r.listing().len() == self.listing().len(),
            forall|i: int|
                0 <= i < r.listing().len() ==> (#[trigger] r.listing()[i]).0
                    == self.listing()[i].0,
            forall|i: int|
                0 <= i < r.listing().len() ==> cloned(
                    self.listing()[i].1,
                    (#[trigger] r.listing()[i]).1,
                ),
    {
        let mut entries: Vec<(String, V)> = Vec::new();
        let n = self.entries.len();
        let mut i: usize = 0;
        while i < n
            invariant
                n == self.entries@.len(),
                i <= n,
                entries@.len() == i,
                forall|j: int|
                    0 <= j < i ==> (#[trigger] entries@[j]).0@ == self.entries@[j].0@ && cloned(
                        self.entries@[j].1,
                        entries@[j].1,
                    ),
            decreases n - i,
        {
            entries.push((self.entries[i].0.clone(), self.entries[i].1.clone()));
            i = i + 1;
        }
        proof {
            use_type_invariant(self);
            let listing = entries@.map_values(|e: (String, V)| (e.0@, e.1));
            assert forall|p: int, q: int| 0 <= p < q < listing.len() implies text_before(
                #[trigger] listing[p].0,
                #[trigger] listing[q].0,
            ) by {
                assert(entries@[p].0@ == self.listing()[p].0);
                assert(entries@[q].0@ == self.listing()[q].0);
            }
        }
        let r = OrderedMap { entries };
        proof {
            assert forall|j: int| 0 <= j < r.listing().len() implies (#[trigger] r.listing()[j]).0
                == self.listing()[j].0 && cloned(self.listing()[j].1, r.listing()[j].1) by {
                assert(r.entries@[j].0@ == self.entries@[j].0@);
            }
        }
        r
    }
}

/// Changing a value keeps the order, and changes the map at that key alone.
proof fn lemma_updated<V>(before: Seq<(Seq<char>, V)>, i: int, value: V)
    requires
        ascending(before),
        0 <= i < before.len(),
    ensures
        ascending(before.update(i, (before[i].0, value))),
        map_of(before.update(i, (before[i].0, value))) == map_of(before).insert(before[i].0, value),
{
    let key = before[i].0;
    let after = before.update(i, (key, value));
    assert(ascending(after)) by {
        assert forall|p: int, q: int| 0 <= p < q < after.len() implies text_before(
            #[trigger] after[p].0,
            #[trigger] after[q].0,
        ) by {
            assert(after[p].0 == before[p].0 && after[q].0 == before[q].0);
        }
    }
    assert forall|k: Seq<char>| #[trigger]
        map_of(after).dom().contains(k) == map_of(before).insert(key, value).dom().contains(k) by {
        if has_key(after, k) {
            let p = key_index(after, k);
            assert(before[p].0 == k);
        }
        if has_key(before, k) {
            let p = key_index(before, k);
            assert(after[p].0 == k);
        }
        assert(after[i].0 == key);
    }
    assert forall|k: Seq<char>| map_of(after).dom().contains(k) implies #[trigger] map_of(after)[k]
        == map_of(before).insert(key, value)[k] by {
        let p = key_index(after, k);
        assert(0 <= p < after.len() && after[p].0 == k);
        lemma_entry_found(after, p);
        lemma_entry_found(before, p);
        lemma_entry_found(before, i);
        assert(before[p].0 == k);
    }
    assert(map_of(after) =~= map_of(before).insert(key, value));
}

/// An entry put between the smaller and the greater keys keeps the order and extends the map.
proof fn lemma_inserted<V>(before: Seq<(Seq<char>, V)>, i: int, key: Seq<char>, value: V)
    requires
        ascending(before),
        0 <= i <= before.len(),
        forall|j: int| 0 <= j < i ==> text_before((#[trigger] before[j]).0, key),
        i < before.len() ==> text_before(key, before[i].0),
    ensures
        ascending(before.insert(i, (key, value))),
        map_of(before.insert(i, (key, value))) == map_of(before).insert(key, value),
{
    let after = before.insert(i, (key, value));
    assert forall|j: int| i <= j < before.len() implies text_before(
        key,
        (#[trigger] before[j]).0,
    ) by {
        if j > i {
            lemma_text_order_transitive(key, before[i].0, before[j].0);
        }
    }
    assert(ascending(after)) by {
        assert forall|p: int, q: int| 0 <= p < q < after.len() implies text_before(
            #[trigger] after[p].0,
            #[trigger] after[q].0,
        ) by {
            let p0 = if p < i { p } else { p - 1 };
            let q0 = if q < i { q } else { q - 1 };
            if p != i {
                assert(after[p] == before[p0]);
            }
            if q != i {
                assert(after[q] == before[q0]);
            }
        }
    }
    assert forall|k: Seq<char>| #[trigger]
        map_of(after).dom().contains(k) == map_of(before).insert(key, value).dom().contains(k) by {
        if has_key(after, k) {
            let p = key_index(after, k);
            assert(after[p].0 == k);
            if p < i {
                assert(before[p].0 == k);
            } else if p > i {
                assert(before[p - 1].0 == k);
            }
        }
        if has_key(before, k) {
            let p = key_index(before, k);
            if p < i {
                assert(after[p].0 == k);
            } else {
                assert(after[p + 1].0 == k);
            }
        }
        assert(after[i].0 == key);
    }
    assert forall|k: Seq<char>| map_of(after).dom().contains(k) implies #[trigger] map_of(after)[k]
        == map_of(before).insert(key, value)[k] by {
        let p = key_index(after, k);
        assert(0 <= p < after.len() && after[p].0 == k);
        lemma_entry_found(after, p);
        if k != key {
            let p0 = if p < i { p } else { p - 1 };
            assert(after[p] == before[p0]);
            lemma_entry_found(before, p0);
        } else {
            lemma_entry_found(after, i);
        }
    }
    assert(map_of(after) =~= map_of(before).insert(key, value));
}

} // verus!
