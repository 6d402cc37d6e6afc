//! The attributes of a tag: a map from names to values, kept as a list
//! sorted by name, so that each name occurs once and two maps with the same
//! entries have the same list.
use vstd::prelude::*;

use crate::text::{
    chars_of, key_less, lemma_seq_lt_asymmetric, lemma_seq_lt_irreflexive, lemma_seq_lt_total,
    lemma_seq_lt_transitive, seq_lt,
};
use crate::value::{AttributeValue, AttributeValueView};

verus! {

/// The model of a set of attributes: (name, value) pairs.
pub type AttributesView = Seq<(Seq<char>, AttributeValueView)>;

/// The names increase strictly from one entry to the next.
pub open spec fn keys_increasing(s: AttributesView) -> bool {
    forall|i: int, j: int| 0 <= i < j < s.len() ==> seq_lt(#[trigger] s[i].0, #[trigger] s[j].0)
}

/// `s` with `value` under `key`: the entry for `key` is replaced if there is
/// one, else a new entry is placed before the first entry whose name is
/// greater than `key`.
pub open spec fn attributes_insert(
    s: AttributesView,
    key: Seq<char>,
    value: AttributeValueView,
) -> AttributesView
    decreases s.len(),
{
    if s.len() == 0 {
        seq![(key, value)]
    } else if s[0].0 == key {
        seq![(key, value)] + s.drop_first()
    } else if seq_lt(key, s[0].0) {
        seq![(key, value)] + s
    } else {
        seq![s[0]] + attributes_insert(s.drop_first(), key, value)
    }
}

/// The value that `s` holds under `key`, if any.
pub open spec fn attributes_get(s: AttributesView, key: Seq<char>) -> Option<AttributeValueView>
    decreases s.len(),
{
    if s.len() == 0 {
        None
    } else if s[0].0 == key {
        Some(s[0].1)
    } else {
        attributes_get(s.drop_first(), key)
    }
}

/// Whether some entry of `s` has the name `key`.
pub open spec fn has_key(s: AttributesView, key: Seq<char>) -> bool {
    exists|i: int| 0 <= i < s.len() && #[trigger] s[i].0 == key
}

/// The attributes of a tag.
#[derive(Debug, PartialEq)]
pub struct Attributes {
    entries: Vec<(String, AttributeValue)>,
}

impl View for Attributes {
    type V = AttributesView;

    closed spec fn view(&self) -> AttributesView {
        self.entries@.map_values(|p: (String, AttributeValue)| (p.0@, p.1@))
    }
}

/// Inserting keeps the names increasing, and adds exactly `key` to the names.
pub proof fn lemma_insert_keys(s: AttributesView, key: Seq<char>, value: AttributeValueView)
    requires
        keys_increasing(s),
    ensures
        keys_increasing(attributes_insert(s, key, value)),
        forall|j: int|
            0 <= j < attributes_insert(s, key, value).len() ==> (#[trigger] attributes_insert(
                s,
                key,
                value,
            )[j].0 == key || has_key(s, attributes_insert(s, key, value)[j].0)),
    decreases s.len(),
{
    let r = attributes_insert(s, key, value);
    if s.len() == 0 {
    } else if s[0].0 == key {
        assert forall|j: int| 0 <= j < r.len() implies (#[trigger] r[j].0 == key || has_key(
            s,
            r[j].0,
        )) by {
            if j > 0 {
                assert(r[j] == s[j]);
            }
        }
        assert forall|i: int, j: int| 0 <= i < j < r.len() implies seq_lt(
            #[trigger] r[i].0,
            #[trigger] r[j].0,
        ) by {
            assert(r[j] == s[j]);
            if i > 0 {
                assert(r[i] == s[i]);
            } else {
                assert(seq_lt(s[0].0, s[j].0));
            }
        }
    } else if seq_lt(key, s[0].0) {
        assert forall|j: int| 0 <= j < r.len() implies (#[trigger] r[j].0 == key || has_key(
            s,
            r[j].0,
        )) by {
            if j > 0 {
                assert(r[j] == s[j - 1]);
            }
        }
        assert forall|i: int, j: int| 0 <= i < j < r.len() implies seq_lt(
            #[trigger] r[i].0,
            #[trigger] r[j].0,
        ) by {
            assert(r[j] == s[j - 1]);
            if i > 0 {
                assert(r[i] == s[i - 1]);
            } else if j > 1 {
                assert(seq_lt(s[0].0, s[j - 1].0));
                lemma_seq_lt_transitive(key, s[0].0, s[j - 1].0);
            }
        }
    } else {
        let rest = s.drop_first();
        let r2 = attributes_insert(rest, key, value);
        assert(keys_increasing(rest)) by {
            assert forall|i: int, j: int| 0 <= i < j < rest.len() implies seq_lt(
                #[trigger] rest[i].0,
                #[trigger] rest[j].0,
            ) by {
                assert(rest[i] == s[i + 1]);
                assert(rest[j] == s[j + 1]);
            }
        }
        lemma_insert_keys(rest, key, value);
        assert(r == seq![s[0]] + r2);
        lemma_seq_lt_total(key, s[0].0);
        assert forall|j: int| 0 <= j < r.len() implies (#[trigger] r[j].0 == key || has_key(
            s,
            r[j].0,
        )) by {
            if j > 0 {
                assert(r[j] == r2[j - 1]);
                if r2[j - 1].0 != key {
                    let m = choose|m: int| 0 <= m < rest.len() && #[trigger] rest[m].0 == r2[j - 1].0;
                    assert(s[m + 1] == rest[m]);
                }
            } else {
                assert(s[0].0 == r[0].0);
            }
        }
        assert forall|i: int, j: int| 0 <= i < j < r.len() implies seq_lt(
            #[trigger] r[i].0,
            #[trigger] r[j].0,
        ) by {
            assert(r[j] == r2[j - 1]);
            if i > 0 {
                assert(r[i] == r2[i - 1]);
            } else {
                assert(r[0] == s[0]);
                if r2[j - 1].0 != key {
                    let m = choose|m: int| 0 <= m < rest.len() && #[trigger] rest[m].0 == r2[j - 1].0;
                    assert(s[m + 1] == rest[m]);
                    assert(seq_lt(s[0].0, s[m + 1].0));
                }
            }
        }
    }
}

/// What `get` gives after `insert`: the inserted value under its key, and
/// what was there before under every other key.
pub proof fn lemma_get_insert(
    s: AttributesView,
    key: Seq<char>,
    value: AttributeValueView,
    query: Seq<char>,
)
    ensures
        attributes_get(attributes_insert(s, key, value), query) == if query == key {
            Some(value)
        } else {
            attributes_get(s, query)
        },
    decreases s.len(),
{
    let r = attributes_insert(s, key, value);
    if s.len() == 0 {
        assert(r[0] == (key, value));
        assert(r.drop_first() =~= Seq::<(Seq<char>, AttributeValueView)>::empty());
        assert(attributes_get(r.drop_first(), query) is None);
    } else if s[0].0 == key {
        assert(r[0] == (key, value));
        assert(r.drop_first() =~= s.drop_first());
    } else if seq_lt(key, s[0].0) {
        assert(r[0] == (key, value));
        assert(r.drop_first() =~= s);
    } else {
        lemma_get_insert(s.drop_first(), key, value, query);
        assert(r[0] == s[0]);
        assert(r.drop_first() =~= attributes_insert(s.drop_first(), key, value));
    }
}

/// A key that `get` finds is the name of some entry.
proof fn lemma_get_some_has_key(s: AttributesView, key: Seq<char>)
    requires
        attributes_get(s, key) is Some,
    ensures
        exists|i: int| 0 <= i < s.len() && s[i].0 == key && attributes_get(s, key) == Some(s[i].1),
    decreases s.len(),
{
    if s[0].0 != key {
        lemma_get_some_has_key(s.drop_first(), key);
        let i = choose|i: int|
            0 <= i < s.drop_first().len() && s.drop_first()[i].0 == key && attributes_get(
                s.drop_first(),
                key,
            ) == Some(s.drop_first()[i].1);
        assert(s[i + 1] == s.drop_first()[i]);
    }
}

/// With increasing names, `get` finds each entry under its name.
proof fn lemma_get_entry(s: AttributesView, i: int)
    requires
        keys_increasing(s),
        0 <= i < s.len(),
    ensures
        attributes_get(s, s[i].0) == Some(s[i].1),
    decreases i,
{
    if i > 0 {
        let rest = s.drop_first();
        assert(seq_lt(s[0].0, s[i].0));
        lemma_seq_lt_irreflexive(s[i].0);
        assert forall|a: int, b: int| 0 <= a < b < rest.len() implies seq_lt(
            #[trigger] rest[a].0,
            #[trigger] rest[b].0,
        ) by {
            assert(rest[a] == s[a + 1]);
            assert(rest[b] == s[b + 1]);
        }
        assert(rest[i - 1] == s[i]);
        lemma_get_entry(rest, i - 1);
    }
}

/// Two lists of attributes with increasing names that hold the same value
/// under every key are the same list.
pub proof fn lemma_attributes_extensional(a: AttributesView, b: AttributesView)
    requires
        keys_increasing(a),
        keys_increasing(b),
        forall|k: Seq<char>| #[trigger] attributes_get(a, k) == attributes_get(b, k),
    ensures
        a == b,
    decreases a.len(),
{
    if a.len() == 0 || b.len() == 0 {
        if a.len() > 0 {
            lemma_get_entry(a, 0);
            assert(attributes_get(b, a[0].0) is None);
        }
        if b.len() > 0 {
            lemma_get_entry(b, 0);
            assert(attributes_get(a, b[0].0) is None);
        }
        assert(a =~= b);
    } else {
        let x = a[0].0;
        let y = b[0].0;
        lemma_get_entry(a, 0);
        lemma_get_entry(b, 0);
        assert(attributes_get(b, x) is Some);
        assert(attributes_get(a, y) is Some);
        lemma_get_some_has_key(b, x);
        lemma_get_some_has_key(a, y);
        let j = choose|j: int| 0 <= j < b.len() && b[j].0 == x && attributes_get(b, x) == Some(b[j].1);
        let i = choose|i: int| 0 <= i < a.len() && a[i].0 == y && attributes_get(a, y) == Some(a[i].1);
        if x != y {
            assert(j > 0 && i > 0);
            assert(seq_lt(y, x));
            assert(seq_lt(x, y));
            lemma_seq_lt_asymmetric(x, y);
        }
        assert(a[0] == b[0]);
        let ra = a.drop_first();
        let rb = b.drop_first();
        assert(keys_increasing(ra)) by {
            assert forall|p: int, q: int| 0 <= p < q < ra.len() implies seq_lt(
                #[trigger] ra[p].0,
                #[trigger] ra[q].0,
            ) by {
                assert(ra[p] == a[p + 1]);
                assert(ra[q] == a[q + 1]);
            }
        }
        assert(keys_increasing(rb)) by {
            assert forall|p: int, q: int| 0 <= p < q < rb.len() implies seq_lt(
                #[trigger] rb[p].0,
                #[trigger] rb[q].0,
            ) by {
                assert(rb[p] == b[p + 1]);
                assert(rb[q] == b[q + 1]);
            }
        }
        assert forall|k: Seq<char>| #[trigger] attributes_get(ra, k) == attributes_get(rb, k) by {
            if k == x {
                if attributes_get(ra, k) is Some {
                    lemma_get_some_has_key(ra, k);
                    let p = choose|p: int| 0 <= p < ra.len() && ra[p].0 == k && attributes_get(ra, k) == Some(ra[p].1);
                    assert(ra[p] == a[p + 1]);
                    assert(seq_lt(a[0].0, a[p + 1].0));
                    lemma_seq_lt_irreflexive(x);
                }
                if attributes_get(rb, k) is Some {
                    lemma_get_some_has_key(rb, k);
                    let p = choose|p: int| 0 <= p < rb.len() && rb[p].0 == k && attributes_get(rb, k) == Some(rb[p].1);
                    assert(rb[p] == b[p + 1]);
                    assert(seq_lt(b[0].0, b[p + 1].0));
                    lemma_seq_lt_irreflexive(x);
                }
            } else {
                assert(attributes_get(a, k) == attributes_get(ra, k));
                assert(attributes_get(b, k) == attributes_get(rb, k));
            }
        }
        lemma_attributes_extensional(ra, rb);
        assert(a =~= seq![a[0]] + ra);
        assert(b =~= seq![b[0]] + rb);
    }
}

/// The attributes do not depend on the order in which distinct keys are
/// inserted.
pub proof fn lemma_insert_commutes(
    s: AttributesView,
    k1: Seq<char>,
    v1: AttributeValueView,
    k2: Seq<char>,
    v2: AttributeValueView,
)
    requires
        keys_increasing(s),
        k1 != k2,
    ensures
        attributes_insert(attributes_insert(s, k1, v1), k2, v2) == attributes_insert(
            attributes_insert(s, k2, v2),
            k1,
            v1,
        ),
{
    let a = attributes_insert(attributes_insert(s, k1, v1), k2, v2);
    let b = attributes_insert(attributes_insert(s, k2, v2), k1, v1);
    lemma_insert_keys(s, k1, v1);
    lemma_insert_keys(attributes_insert(s, k1, v1), k2, v2);
    lemma_insert_keys(s, k2, v2);
    lemma_insert_keys(attributes_insert(s, k2, v2), k1, v1);
    assert forall|k: Seq<char>| #[trigger] attributes_get(a, k) == attributes_get(b, k) by {
        lemma_get_insert(attributes_insert(s, k1, v1), k2, v2, k);
        lemma_get_insert(s, k1, v1, k);
        lemma_get_insert(attributes_insert(s, k2, v2), k1, v1, k);
        lemma_get_insert(s, k2, v2, k);
    }
    lemma_attributes_extensional(a, b);
}

/// Inserting at a position found by scanning: the part before the position is kept.
proof fn lemma_insert_skip(s: AttributesView, key: Seq<char>, value: AttributeValueView, i: int)
    requires
        0 <= i <= s.len(),
        forall|j: int| 0 <= j < i ==> seq_lt(#[trigger] s[j].0, key),
    ensures
        attributes_insert(s, key, value) == s.take(i) + attributes_insert(s.skip(i), key, value),
    decreases i,
{
    if i > 0 {
        let rest = s.drop_first();
        assert forall|j: int| 0 <= j < i - 1 implies seq_lt(#[trigger] rest[j].0, key) by {
            assert(rest[j] == s[j + 1]);
        }
        lemma_insert_skip(rest, key, value, i - 1);
        lemma_seq_lt_irreflexive(key);
        lemma_seq_lt_asymmetric(s[0].0, key);
        assert(s.skip(i) == rest.skip(i - 1));
        assert(s.take(i) == seq![s[0]] + rest.take(i - 1));
    } else {
        assert(s.take(0) + s.skip(0) == s);
    }
}

/// Looking up a key with the scan: entries before `i` do not hold it.
proof fn lemma_get_skip(s: AttributesView, key: Seq<char>, i: int)
    requires
        0 <= i <= s.len(),
        forall|j: int| 0 <= j < i ==> #[trigger] s[j].0 != key,
    ensures
        attributes_get(s, key) == attributes_get(s.skip(i), key),
    decreases i,
{
    if i > 0 {
        let rest = s.drop_first();
        assert forall|j: int| 0 <= j < i - 1 implies #[trigger] rest[j].0 != key by {
            assert(rest[j] == s[j + 1]);
        }
        lemma_get_skip(rest, key, i - 1);
        assert(s.skip(i) == rest.skip(i - 1));
    } else {
        assert(s.skip(0) == s);
    }
}

/// Whether two strings have the same characters.
fn same_text(a: &str, b: &str) -> (r: bool)
    ensures
        r == (a@ == b@),
{
    let x = chars_of(a);
    let y = chars_of(b);
    if x.len() != y.len() {
        return false;
    }
    let mut i: usize = 0;
    while i < x.len()
        invariant
            x@ == a@,
            y@ == b@,
            x@.len() == y@.len(),
            i <= x@.len(),
            forall|j: int| 0 <= j < i ==> x@[j] == y@[j],
        decreases x@.len() - i,
    {
        if x[i] != y[i] {
            return false;
        }
        i = i + 1;
    }
    assert(x@ =~= y@);
    true
}

impl Attributes {
    #[verifier::type_invariant]
    spec fn names_increase(self) -> bool {
        keys_increasing(self@)
    }

    /// No attributes.
    pub fn new() -> (r: Self)
        ensures
            r@ == Seq::<(Seq<char>, AttributeValueView)>::empty(),
    {
        let r = Attributes { entries: Vec::new() };
        assert(r@ =~= Seq::<(Seq<char>, AttributeValueView)>::empty());
        r
    }

    /// The number of attributes.
    pub fn len(&self) -> (r: usize)
        ensures
            r == self@.len(),
            keys_increasing(self@),
    {
        proof {
            use_type_invariant(self);
        }
        self.entries.len()
    }

    /// Whether there are no attributes.
    pub fn is_empty(&self) -> (r: bool)
        ensures
            r == (self@.len() == 0),
    {
        self.entries.len() == 0
    }

    /// The name and value of the entry at `index`, in increasing order of names.
    pub fn entry(&self, index: usize) -> (r: (&String, &AttributeValue))
        requires
            index < self@.len(),
        ensures
            r.0@ == self@[index as int].0,
            r.1@ == self@[index as int].1,
    {
        let p = &self.entries[index];
        (&p.0, &p.1)
    }

    /// The value under `key`, if any.
    pub fn get(&self, key: &str) -> (r: Option<&AttributeValue>)
        ensures
            keys_increasing(self@),
            match r {
                Some(v) => attributes_get(self@, key@) == Some(v@),
                None => attributes_get(self@, key@) is None,
            },
    {
        proof {
            use_type_invariant(self);
        }
        let mut i: usize = 0;
        while i < self.entries.len()
            invariant
                i <= self@.len(),
                self@.len() == self.entries@.len(),
                keys_increasing(self@),
                forall|j: int| 0 <= j < i ==> #[trigger] self@[j].0 != key@,
            decreases self@.len() - i,
        {
            if same_text(self.entries[i].0.as_str(), key) {
                proof {
                    lemma_get_skip(self@, key@, i as int);
                    assert(self@.skip(i as int)[0] == self@[i as int]);
                }
                return Some(&self.entries[i].1);
            }
            i = i + 1;
        }
        proof {
            lemma_get_skip(self@, key@, i as int);
        }
        None
    }

    /// Sets the value under `key`, and returns the value it replaced, if any.
    pub fn insert(&mut self, key: String, value: AttributeValue) -> (r: Option<AttributeValue>)
        ensures
            final(self)@ == attributes_insert(old(self)@, key@, value@),
            keys_increasing(final(self)@),
            match r {
                Some(v) => attributes_get(old(self)@, key@) == Some(v@),
                None => attributes_get(old(self)@, key@) is None,
            },
    {
        proof {
            use_type_invariant(&*self);
        }
        let ghost s = self@;
        let mut entries: Vec<(String, AttributeValue)> = Vec::new();
        std::mem::swap(&mut entries, &mut self.entries);
        assert(entries@.map_values(|p: (String, AttributeValue)| (p.0@, p.1@)) == s);
        let mut i: usize = 0;
        while i < entries.len() && key_less(entries[i].0.as_str(), key.as_str())
            invariant
                i <= s.len(),
                s.len() == entries@.len(),
                s == entries@.map_values(|p: (String, AttributeValue)| (p.0@, p.1@)),
                forall|j: int| 0 <= j < i ==> seq_lt(#[trigger] s[j].0, key@),
            decreases s.len() - i,
        {
            assert(s[i as int].0 == entries@[i as int].0@);
            i = i + 1;
        }
        proof {
            lemma_insert_skip(s, key@, value@, i as int);
            lemma_insert_keys(s, key@, value@);
            assert forall|j: int| 0 <= j < i implies #[trigger] s[j].0 != key@ by {
                lemma_seq_lt_irreflexive(key@);
            }
            lemma_get_skip(s, key@, i as int);
        }
        let ghost v = value@;
        let ghost k = key@;
        let r;
        if i < entries.len() && same_text(entries[i].0.as_str(), key.as_str()) {
            let old_entry = entries.remove(i);
            entries.insert(i, (key, value));
            r = Some(old_entry.1);
            proof {
                assert(s.skip(i as int)[0] == s[i as int]);
                assert(s.skip(i as int).drop_first() == s.skip(i + 1));
                assert(entries@.map_values(|p: (String, AttributeValue)| (p.0@, p.1@)) =~= s.take(
                    i as int,
                ) + seq![(k, v)] + s.skip(i + 1));
                assert(old_entry.1@ == s[i as int].1);
            }
        } else {
            entries.insert(i, (key, value));
            r = None;
            proof {
                if i < s.len() {
                    assert(s.skip(i as int)[0] == s[i as int]);
                    lemma_seq_lt_total(k, s[i as int].0);
                }
                assert forall|j: int| 0 <= j < s.len() implies #[trigger] s[j].0 != k by {
                    lemma_seq_lt_irreflexive(k);
                    if j > i {
                        assert(seq_lt(s[i as int].0, s[j].0));
                        lemma_seq_lt_transitive(k, s[i as int].0, s[j].0);
                    }
                }
                lemma_get_skip(s, k, s.len() as int);
                assert(entries@.map_values(|p: (String, AttributeValue)| (p.0@, p.1@)) =~= s.take(
                    i as int,
                ) + seq![(k, v)] + s.skip(i as int));
            }
        }
        assert(entries@.map_values(|p: (String, AttributeValue)| (p.0@, p.1@)) == attributes_insert(s, k, v));
        self.entries = entries;
        r
    }
}

impl Clone for Attributes {
    fn clone(&self) -> (r: Self)
        ensures
            r@ == self@,
    {
        proof {
            use_type_invariant(self);
        }
        let mut entries: Vec<(String, AttributeValue)> = Vec::new();
        let n = self.entries.len();
        for i in 0..n
            invariant
                n == self.entries@.len(),
                entries@.map_values(|p: (String, AttributeValue)| (p.0@, p.1@)) == self@.take(i as int),
        {
            let p = &self.entries[i];
            entries.push((p.0.clone(), p.1.clone()));
            assert(self@.take(i + 1) == self@.take(i as int).push(self@[i as int]));
            assert(entries@.map_values(|p: (String, AttributeValue)| (p.0@, p.1@)) =~= self@.take(i + 1));
        }
        assert(self@.take(n as int) == self@);
        Attributes { entries }
    }
}

} // verus!
