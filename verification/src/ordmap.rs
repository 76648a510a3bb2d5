//! Sorted maps and sets: association lists kept strictly ascending by key, so
//! that walking one visits the keys in order.
use vstd::prelude::*;

use crate::text::{less, lt, same, Text};

verus! {

/// A key type with a strict total order on its model.
pub trait Key: DeepView + Sized {
    /// Whether `a` precedes `b`.
    spec fn before(a: Self::V, b: Self::V) -> bool;

    /// Nothing precedes itself.
    proof fn irreflexive(a: Self::V)
        ensures
            !Self::before(a, a),
    ;

    /// The order is transitive.
    proof fn transitive(a: Self::V, b: Self::V, c: Self::V)
        requires
            Self::before(a, b),
            Self::before(b, c),
        ensures
            Self::before(a, c),
    ;

    /// Of two different keys one precedes the other.
    proof fn total(a: Self::V, b: Self::V)
        ensures
            Self::before(a, b) || Self::before(b, a) || a == b,
    ;

    /// Whether `self` precedes `other`.
    fn precedes(&self, other: &Self) -> (r: bool)
        ensures
            r == Self::before(self.deep_view(), other.deep_view()),
    ;

    /// Whether the two keys are the same.
    fn equals(&self, other: &Self) -> (r: bool)
        ensures
            r == (self.deep_view() == other.deep_view()),
    ;
}

impl Key for String {
    open spec fn before(a: Text, b: Text) -> bool {
        lt(a, b)
    }

    proof fn irreflexive(a: Text) {
        crate::text::lemma_lt_irreflexive(a);
    }

    proof fn transitive(a: Text, b: Text, c: Text) {
        crate::text::lemma_lt_transitive(a, b, c);
    }

    proof fn total(a: Text, b: Text) {
        crate::text::lemma_lt_total(a, b);
    }

    fn precedes(&self, other: &Self) -> (r: bool) {
        less(self.as_str(), other.as_str())
    }

    fn equals(&self, other: &Self) -> (r: bool) {
        same(self.as_str(), other.as_str())
    }
}

// ---------------------------------------------------------------------------
// The model: strictly ascending sequences of entries
// ---------------------------------------------------------------------------

/// Whether the keys of `s` are strictly ascending.
pub open spec fn ascending<K: Key, W>(s: Seq<(K::V, W)>) -> bool {
    forall|i: int, j: int|
        0 <= i < j < s.len() ==> K::before((#[trigger] s[i]).0, (#[trigger] s[j]).0)
}

/// The position of the first key of `s` that does not precede `k`.
pub open spec fn slot<K: Key, W>(s: Seq<(K::V, W)>, k: K::V) -> int
    decreases s.len(),
{
    if s.len() == 0 || !K::before(s[0].0, k) {
        0
    } else {
        1 + slot::<K, W>(s.drop_first(), k)
    }
}

/// Whether `k` is a key of `s`.
pub open spec fn has_key<K: Key, W>(s: Seq<(K::V, W)>, k: K::V) -> bool {
    let i = slot::<K, W>(s, k);
    i < s.len() && s[i].0 == k
}

/// The value of `k` in `s`, if `k` is a key of `s`.
pub open spec fn lookup<K: Key, W>(s: Seq<(K::V, W)>, k: K::V) -> Option<W> {
    if has_key::<K, W>(s, k) {
        Some(s[slot::<K, W>(s, k)].1)
    } else {
        None
    }
}

/// `s` with the value of `k` set to `w`.
pub open spec fn put<K: Key, W>(s: Seq<(K::V, W)>, k: K::V, w: W) -> Seq<(K::V, W)> {
    let i = slot::<K, W>(s, k);
    if has_key::<K, W>(s, k) {
        s.update(i, (k, w))
    } else {
        s.insert(i, (k, w))
    }
}

/// Before the slot every key precedes `k`; the key at the slot does not.
pub proof fn lemma_slot<K: Key, W>(s: Seq<(K::V, W)>, k: K::V)
    ensures
        0 <= slot::<K, W>(s, k) <= s.len(),
        forall|j: int| 0 <= j < slot::<K, W>(s, k) ==> K::before((#[trigger] s[j]).0, k),
        slot::<K, W>(s, k) < s.len() ==> !K::before(s[slot::<K, W>(s, k)].0, k),
    decreases s.len(),
{
    if s.len() > 0 && K::before(s[0].0, k) {
        lemma_slot::<K, W>(s.drop_first(), k);
        assert forall|j: int| 0 <= j < slot::<K, W>(s, k) implies K::before(
            (#[trigger] s[j]).0,
            k,
        ) by {
            if j > 0 {
                assert(s[j] == s.drop_first()[j - 1]);
            }
        }
    }
}

/// A key of an ascending sequence is found where it stands.
pub proof fn lemma_lookup_at<K: Key, W>(s: Seq<(K::V, W)>, i: int)
    requires
        ascending::<K, W>(s),
        0 <= i < s.len(),
    ensures
        slot::<K, W>(s, s[i].0) == i,
        lookup::<K, W>(s, s[i].0) == Some(s[i].1),
{
    let k = s[i].0;
    lemma_slot::<K, W>(s, k);
    let j = slot::<K, W>(s, k);
    K::irreflexive(k);
    if j < i {
        assert(K::before(s[j].0, s[i].0));
    } else if j > i {
        assert(K::before(s[i].0, k));
    }
}

/// A key that stands nowhere in the sequence is not found.
pub proof fn lemma_lookup_none<K: Key, W>(s: Seq<(K::V, W)>, k: K::V)
    ensures
        lookup::<K, W>(s, k) is None ==> (ascending::<K, W>(s) ==> forall|i: int|
            0 <= i < s.len() ==> (#[trigger] s[i]).0 != k),
        lookup::<K, W>(s, k) is Some ==> exists|i: int|
            0 <= i < s.len() && (#[trigger] s[i]).0 == k && Some(s[i].1) == lookup::<K, W>(s, k),
{
    lemma_slot::<K, W>(s, k);
    if lookup::<K, W>(s, k) is None && ascending::<K, W>(s) {
        assert forall|i: int| 0 <= i < s.len() implies (#[trigger] s[i]).0 != k by {
            if s[i].0 == k {
                lemma_lookup_at::<K, W>(s, i);
            }
        }
    }
    if lookup::<K, W>(s, k) is Some {
        assert(s[slot::<K, W>(s, k)].0 == k);
    }
}

/// Setting a value keeps the keys ascending.
pub proof fn lemma_put_ascending<K: Key, W>(s: Seq<(K::V, W)>, k: K::V, w: W)
    requires
        ascending::<K, W>(s),
    ensures
        ascending::<K, W>(put::<K, W>(s, k, w)),
{
    let i = slot::<K, W>(s, k);
    let t = put::<K, W>(s, k, w);
    lemma_slot::<K, W>(s, k);
    assert forall|a: int, b: int| 0 <= a < b < t.len() implies K::before(
        (#[trigger] t[a]).0,
        (#[trigger] t[b]).0,
    ) by {
        if !has_key::<K, W>(s, k) {
            if i < s.len() {
                K::total(s[i].0, k);
            }
            let a0 = if a < i { a } else { a - 1 };
            let b0 = if b < i { b } else { b - 1 };
            if a != i && b != i {
                assert(t[a] == s[a0] && t[b] == s[b0]);
            } else if b == i {
                assert(t[a] == s[a]);
            } else {
                assert(t[b] == s[b0]);
                if b0 > i {
                    assert(K::before(s[i].0, s[b0].0));
                    K::transitive(k, s[i].0, s[b0].0);
                }
            }
        }
    }
}

/// After a value is set, its key has it and every other key has what it had.
pub proof fn lemma_put_lookup<K: Key, W>(s: Seq<(K::V, W)>, k: K::V, w: W, q: K::V)
    requires
        ascending::<K, W>(s),
    ensures
        lookup::<K, W>(put::<K, W>(s, k, w), q) == if q == k {
            Some(w)
        } else {
            lookup::<K, W>(s, q)
        },
{
    let i = slot::<K, W>(s, k);
    let t = put::<K, W>(s, k, w);
    lemma_slot::<K, W>(s, k);
    lemma_put_ascending::<K, W>(s, k, w);
    if q == k {
        assert(t[i] == (k, w));
        lemma_lookup_at::<K, W>(t, i);
    } else {
        lemma_lookup_none::<K, W>(s, q);
        lemma_lookup_none::<K, W>(t, q);
        if lookup::<K, W>(s, q) is Some {
            let j = choose|j: int| 0 <= j < s.len() && (#[trigger] s[j]).0 == q;
            lemma_lookup_at::<K, W>(s, j);
            let j2 = if has_key::<K, W>(s, k) || j < i { j } else { j + 1 };
            assert(t[j2] == s[j]);
            lemma_lookup_at::<K, W>(t, j2);
        } else if lookup::<K, W>(t, q) is Some {
            let j = choose|j: int| 0 <= j < t.len() && (#[trigger] t[j]).0 == q;
            assert(j != i);
            let j2 = if has_key::<K, W>(s, k) || j < i { j } else { j - 1 };
            assert(t[j] == s[j2]);
            assert(false);
        }
    }
}

/// Every key after a value is set is that value's key or was there before.
pub proof fn lemma_put_keys<K: Key, W>(s: Seq<(K::V, W)>, k: K::V, w: W, j: int)
    requires
        0 <= j < put::<K, W>(s, k, w).len(),
    ensures
        put::<K, W>(s, k, w)[j].0 == k || exists|i: int|
            0 <= i < s.len() && (#[trigger] s[i]).0 == put::<K, W>(s, k, w)[j].0,
{
    let t = put::<K, W>(s, k, w);
    let at = slot::<K, W>(s, k);
    lemma_slot::<K, W>(s, k);
    if j != at {
        let i = if has_key::<K, W>(s, k) || j < at { j } else { j - 1 };
        assert(t[j] == s[i]);
    }
}

/// Setting the value of a key behind all others appends an entry.
pub proof fn lemma_put_push<K: Key, W>(s: Seq<(K::V, W)>, k: K::V, w: W)
    requires
        forall|i: int| 0 <= i < s.len() ==> K::before((#[trigger] s[i]).0, k),
    ensures
        put::<K, W>(s, k, w) == s.push((k, w)),
{
    lemma_slot::<K, W>(s, k);
    assert(put::<K, W>(s, k, w) =~= s.push((k, w)));
}

/// Setting the entries of an ascending sequence in turn rebuilds it.
pub proof fn lemma_put_last<K: Key, W>(s: Seq<(K::V, W)>, i: int)
    requires
        ascending::<K, W>(s),
        0 <= i < s.len(),
    ensures
        put::<K, W>(s.take(i), s[i].0, s[i].1) == s.take(i + 1),
{
    lemma_put_push::<K, W>(s.take(i), s[i].0, s[i].1);
    assert(s.take(i).push(s[i]) =~= s.take(i + 1));
}

// ---------------------------------------------------------------------------
// The map
// ---------------------------------------------------------------------------

/// A map from `K` to `V` that is walked in key order.
#[derive(Debug, PartialEq, Eq)]
pub struct OrdMap<K: Key, V: DeepView> {
    keys: Vec<K>,
    values: Vec<V>,
}

impl<K: Key, V: DeepView> View for OrdMap<K, V> {
    type V = Seq<(K::V, V::V)>;

    closed spec fn view(&self) -> Seq<(K::V, V::V)> {
        Seq::new(
            self.keys@.len(),
            |i: int| (self.keys@[i].deep_view(), self.values@[i].deep_view()),
        )
    }
}

impl<K: Key, V: DeepView> DeepView for OrdMap<K, V> {
    type V = Seq<(K::V, V::V)>;

    open spec fn deep_view(&self) -> Seq<(K::V, V::V)> {
        self@
    }
}

impl<K: Key, V: DeepView> OrdMap<K, V> {
    /// Every key has a value, and the keys are strictly ascending.
    #[verifier::type_invariant]
    pub closed spec fn inv(&self) -> bool {
        &&& self.keys@.len() == self.values@.len()
        &&& ascending::<K, V::V>(self@)
    }

    /// The empty map.
    pub fn new() -> (m: Self)
        ensures
            m@ == Seq::<(K::V, V::V)>::empty(),
    {
        let m = OrdMap { keys: Vec::new(), values: Vec::new() };
        assert(m@ =~= Seq::<(K::V, V::V)>::empty());
        m
    }

    /// Learns that the keys are ascending.
    pub fn sorted(&self)
        ensures
            ascending::<K, V::V>(self@),
    {
        proof {
            use_type_invariant(self);
        }
    }

    /// The number of entries.
    pub fn len(&self) -> (n: usize)
        ensures
            n == self@.len(),
    {
        self.keys.len()
    }

    /// Whether the map has no entry.
    pub fn is_empty(&self) -> (r: bool)
        ensures
            r == (self@.len() == 0),
    {
        self.keys.len() == 0
    }

    /// The key at a position, in key order.
    pub fn key_at(&self, i: usize) -> (k: &K)
        requires
            i < self@.len(),
        ensures
            k.deep_view() == self@[i as int].0,
    {
        &self.keys[i]
    }

    /// The value at a position, in key order.
    pub fn value_at(&self, i: usize) -> (v: &V)
        requires
            i < self@.len(),
        ensures
            v.deep_view() == self@[i as int].1,
    {
        proof {
            use_type_invariant(self);
        }
        &self.values[i]
    }

    /// The position of the first key that does not precede `key`.
    fn slot_of(&self, key: &K) -> (i: usize)
        ensures
            i == slot::<K, V::V>(self@, key.deep_view()),
            i <= self@.len(),
    {
        let ghost s = self@;
        let ghost k = key.deep_view();
        let mut i: usize = 0;
        assert(s.skip(0) =~= s);
        while i < self.keys.len() && self.keys[i].precedes(key)
            invariant
                i <= self.keys.len(),
                s == self@,
                k == key.deep_view(),
                slot::<K, V::V>(s, k) == i + slot::<K, V::V>(s.skip(i as int), k),
            decreases self.keys.len() - i,
        {
            proof {
                assert(s.skip(i as int).drop_first() =~= s.skip(i + 1));
            }
            i += 1;
        }
        i
    }

    /// The value of a key.
    pub fn get(&self, key: &K) -> (r: Option<&V>)
        ensures
            match r {
                Some(v) => lookup::<K, V::V>(self@, key.deep_view()) == Some(v.deep_view()),
                None => lookup::<K, V::V>(self@, key.deep_view()) is None,
            },
    {
        proof {
            use_type_invariant(self);
        }
        let i = self.slot_of(key);
        if i < self.keys.len() && self.keys[i].equals(key) {
            Some(&self.values[i])
        } else {
            None
        }
    }

    /// Whether a key is in the map.
    pub fn contains_key(&self, key: &K) -> (r: bool)
        ensures
            r == has_key::<K, V::V>(self@, key.deep_view()),
    {
        let i = self.slot_of(key);
        i < self.keys.len() && self.keys[i].equals(key)
    }

    /// Sets the value of a key, replacing the one it had; says whether it had one.
    pub fn insert(&mut self, key: K, value: V) -> (replaced: bool)
        ensures
            final(self)@ == put::<K, V::V>(old(self)@, key.deep_view(), value.deep_view()),
            replaced == has_key::<K, V::V>(old(self)@, key.deep_view()),
    {
        proof {
            use_type_invariant(&*self);
        }
        let ghost s = self@;
        let ghost k = key.deep_view();
        let i = self.slot_of(&key);
        let present = i < self.keys.len() && self.keys[i].equals(&key);
        let mut empty: OrdMap<K, V> = OrdMap::new();
        core::mem::swap(self, &mut empty);
        let OrdMap { keys: mut keys, values: mut values } = empty;
        proof {
            lemma_slot::<K, V::V>(s, k);
            lemma_put_ascending::<K, V::V>(s, k, value.deep_view());
        }
        if present {
            keys.set(i, key);
            values.set(i, value);
        } else {
            keys.insert(i, key);
            values.insert(i, value);
        }
        proof {
            let t = Seq::new(
                keys@.len(),
                |j: int| (keys@[j].deep_view(), values@[j].deep_view()),
            );
            assert(t =~= put::<K, V::V>(s, k, value.deep_view()));
        }
        *self = OrdMap { keys, values };
        present
    }
}

/// A sorted set of texts.
pub type TextSet = OrdMap<String, ()>;

/// The members of a sorted set, in order.
pub type TextSetV = Seq<(Text, ())>;

/// Whether a text is a member of a set.
pub open spec fn member(s: TextSetV, t: Text) -> bool {
    has_key::<String, ()>(s, t)
}

/// The set with one more member.
pub open spec fn with_member(s: TextSetV, t: Text) -> TextSetV {
    put::<String, ()>(s, t, ())
}

} // verus!
