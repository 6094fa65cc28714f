//! An ordered map from 128-bit ids to shared values.
//!
//! Every edit returns a new map and leaves the receiver untouched. Values sit
//! behind `Rc`, so an edit copies the entry list (O(n) per edit) but never a
//! value: untouched values, and whole untouched maps, are shared between the
//! old and the new map. This copy-on-write layout trades edit cost for a
//! structure whose every operation is proved against the sequence model below.
use std::rc::Rc;
use vstd::prelude::*;
use vstd::std_specs::cmp::PartialEqSpec;

verus! {

/// True when some entry of `s` has key `k`.
pub open spec fn has_key<V>(s: Seq<(u128, V)>, k: u128) -> bool {
    exists|i: int| 0 <= i < s.len() && s[i].0 == k
}

/// No key occurs twice in `s`.
pub open spec fn unique_keys<V>(s: Seq<(u128, V)>) -> bool {
    forall|i: int, j: int| 0 <= i < s.len() && 0 <= j < s.len() && i != j ==> s[i].0 != s[j].0
}

/// The position of key `k` in `s`, or -1 when it is absent.
pub open spec fn key_index<V>(s: Seq<(u128, V)>, k: u128) -> int {
    if has_key(s, k) {
        choose|i: int| 0 <= i < s.len() && s[i].0 == k
    } else {
        -1
    }
}

/// The keys of `s`, in order.
pub open spec fn keys_of<V>(s: Seq<(u128, V)>) -> Seq<u128> {
    s.map_values(|e: (u128, V)| e.0)
}

/// What `insert(k, v)` makes of the entries `s`: the value of an existing key is
/// replaced in place, a new key is appended.
pub open spec fn inserted<V>(s: Seq<(u128, V)>, k: u128, v: V) -> Seq<(u128, V)> {
    if has_key(s, k) {
        s.update(key_index(s, k), (k, v))
    } else {
        s.push((k, v))
    }
}

/// What `remove(k)` makes of the entries `s`: the entry of `k` leaves, the others
/// keep their order.
pub open spec fn removed<V>(s: Seq<(u128, V)>, k: u128) -> Seq<(u128, V)> {
    if has_key(s, k) {
        s.remove(key_index(s, k))
    } else {
        s
    }
}

pub proof fn lemma_key_index<V>(s: Seq<(u128, V)>, k: u128, i: int)
    requires
        unique_keys(s),
        0 <= i < s.len(),
        s[i].0 == k,
    ensures
        has_key(s, k),
        key_index(s, k) == i,
{
}

pub proof fn lemma_key_index_found<V>(s: Seq<(u128, V)>, k: u128)
    requires
        has_key(s, k),
    ensures
        0 <= key_index(s, k) < s.len(),
        s[key_index(s, k)].0 == k,
{
}

pub proof fn lemma_inserted_unique<V>(s: Seq<(u128, V)>, k: u128, v: V)
    requires
        unique_keys(s),
    ensures
        unique_keys(inserted(s, k, v)),
        has_key(inserted(s, k, v), k),
        keys_of(inserted(s, k, v)) == (if has_key(s, k) { keys_of(s) } else { keys_of(s).push(k) }),
{
    let r = inserted(s, k, v);
    if has_key(s, k) {
        let i = key_index(s, k);
        assert(r[i].0 == k);
        assert(keys_of(r) =~= keys_of(s));
    } else {
        assert(r[s.len() as int].0 == k);
        assert(keys_of(r) =~= keys_of(s).push(k));
    }
}

pub proof fn lemma_removed_unique<V>(s: Seq<(u128, V)>, k: u128)
    requires
        unique_keys(s),
    ensures
        unique_keys(removed(s, k)),
        !has_key(removed(s, k), k),
{
    let r = removed(s, k);
    if has_key(s, k) {
        let i = key_index(s, k);
        assert forall|a: int, b: int|
            0 <= a < r.len() && 0 <= b < r.len() && a != b implies r[a].0 != r[b].0 by {
            let a2 = if a < i { a } else { a + 1 };
            let b2 = if b < i { b } else { b + 1 };
            assert(r[a] == s[a2]);
            assert(r[b] == s[b2]);
        }
        if has_key(r, k) {
            let j = choose|j: int| 0 <= j < r.len() && r[j].0 == k;
            let j2 = if j < i { j } else { j + 1 };
            assert(r[j] == s[j2]);
        }
    }
}

/// The entries of a map as its model shows them: each key with the value its
/// `Rc` points to.
pub open spec fn shown<V>(v: Seq<(u128, Rc<V>)>) -> Seq<(u128, V)> {
    Seq::new(v.len(), |i: int| (v[i].0, *v[i].1))
}

/// A map from `u128` keys to values of type `V` that keeps the order in which
/// keys were first inserted.
#[derive(Debug)]
pub struct PersistentIndexMap<V> {
    entries: Rc<Vec<(u128, Rc<V>)>>,
}

impl<V> View for PersistentIndexMap<V> {
    type V = Seq<(u128, V)>;

    closed spec fn view(&self) -> Seq<(u128, V)> {
        shown(self.entries@)
    }
}

impl<V> PersistentIndexMap<V> {
    #[verifier::type_invariant]
    closed spec fn keys_are_unique(&self) -> bool {
        unique_keys(self@)
    }

    /// Every map has unique keys.
    pub fn note_unique(&self)
        ensures
            unique_keys(self@),
    {
        proof { use_type_invariant(self); }
    }

    /// A value held by the map is smaller than the map, for termination proofs
    /// over recursive structures built from maps.
    pub proof fn lemma_value_decreases(&self, i: int)
        requires
            0 <= i < self@.len(),
        ensures
            decreases_to!(self => self@[i].1),
    {
        let e = self.entries@[i];
        assert(self@[i].1 == *e.1);
        assert(decreases_to!(*self.entries => self.entries@[i]));
    }

    fn from_entries(entries: Vec<(u128, Rc<V>)>) -> (r: Self)
        requires
            unique_keys(shown(entries@)),
        ensures
            r@ == shown(entries@),
    {
        PersistentIndexMap { entries: Rc::new(entries) }
    }

    fn copy_entries(&self) -> (r: Vec<(u128, Rc<V>)>)
        ensures
            shown(r@) == self@,
            r@.len() == self@.len(),
    {
        let n = self.entries.len();
        let mut out: Vec<(u128, Rc<V>)> = Vec::new();
        let mut i: usize = 0;
        while i < n
            invariant
                n == self.entries@.len(),
                i <= n,
                out@.len() == i,
                forall|j: int| 0 <= j < i ==> (#[trigger] out@[j]).0 == self.entries@[j].0 && *out@[j].1 == *self.entries@[j].1,
            decreases n - i,
        {
            let e = &self.entries[i];
            out.push((e.0, e.1.clone()));
            i = i + 1;
        }
        assert(shown(out@) =~= self@);
        out
    }

    /// An empty map.
    pub fn new() -> (r: Self)
        ensures
            r@ == Seq::<(u128, V)>::empty(),
    {
        let r = PersistentIndexMap { entries: Rc::new(Vec::new()) };
        assert(r@ =~= Seq::<(u128, V)>::empty());
        r
    }

    /// A map equal to this one (the two share all their data).
    pub fn share(&self) -> (r: Self)
        ensures
            r == *self,
            r@ == self@,
    {
        proof { use_type_invariant(self); }
        PersistentIndexMap { entries: self.entries.clone() }
    }

    /// The number of entries.
    pub fn len(&self) -> (r: usize)
        ensures
            r == self@.len(),
    {
        self.entries.len()
    }

    pub fn is_empty(&self) -> (r: bool)
        ensures
            r == (self@.len() == 0),
    {
        self.entries.len() == 0
    }

    /// The position of `key`, if it is present.
    pub fn get_index(&self, key: &u128) -> (r: Option<usize>)
        ensures
            r.is_some() == has_key(self@, *key),
            r.is_some() ==> r.unwrap() as int == key_index(self@, *key),
    {
        proof { use_type_invariant(self); }
        let n = self.entries.len();
        let mut i: usize = 0;
        while i < n
            invariant
                n == self@.len(),
                i <= n,
                unique_keys(self@),
                forall|j: int| 0 <= j < i ==> self@[j].0 != *key,
            decreases n - i,
        {
            if self.entries[i].0 == *key {
                proof { lemma_key_index(self@, *key, i as int); }
                return Some(i);
            }
            i = i + 1;
        }
        None
    }

    /// Whether `key` is present.
    pub fn contains_key(&self, key: &u128) -> (r: bool)
        ensures
            r == has_key(self@, *key),
    {
        self.get_index(key).is_some()
    }

    /// The value of `key`, if it is present.
    pub fn get(&self, key: &u128) -> (r: Option<&V>)
        ensures
            r.is_some() == has_key(self@, *key),
            r.is_some() ==> *r.unwrap() == self@[key_index(self@, *key)].1,
    {
        match self.get_index(key) {
            Some(i) => {
                proof { lemma_key_index_found(self@, *key); }
                let v: &V = &*self.entries[i].1;
                assert(*v == self@[i as int].1);
                Some(v)
            },
            None => None,
        }
    }

    /// The key at position `index`, if there is one.
    pub fn get_key_at_index(&self, index: usize) -> (r: Option<&u128>)
        ensures
            r.is_some() == (index < self@.len()),
            r.is_some() ==> *r.unwrap() == self@[index as int].0,
    {
        if index < self.entries.len() {
            Some(&self.entries[index].0)
        } else {
            None
        }
    }

    /// The value at position `index`; `index` must be in range.
    pub fn value_at(&self, index: usize) -> (r: &V)
        requires
            index < self@.len(),
        ensures
            *r == self@[index as int].1,
    {
        &*self.entries[index].1
    }

    /// The map with `key` bound to `value`. A new key goes last; an existing key
    /// keeps its position.
    pub fn insert(&self, key: u128, value: V) -> (r: Self)
        ensures
            r@ == inserted(self@, key, value),
    {
        proof { use_type_invariant(self); }
        let mut out = self.copy_entries();
        let ghost s = self@;
        proof { lemma_inserted_unique(s, key, value); }
        match self.get_index(&key) {
            Some(i) => {
                proof { lemma_key_index_found(s, key); }
                out.set(i, (key, Rc::new(value)));
                assert(shown(out@) =~= inserted(s, key, value));
            },
            None => {
                out.push((key, Rc::new(value)));
                assert(shown(out@) =~= inserted(s, key, value));
            },
        }
        Self::from_entries(out)
    }

    /// The map without `key`; the other entries keep their order.
    pub fn remove(&self, key: &u128) -> (r: Self)
        ensures
            r@ == removed(self@, *key),
    {
        proof { use_type_invariant(self); }
        let ghost s = self@;
        proof { lemma_removed_unique(s, *key); }
        match self.get_index(key) {
            Some(i) => {
                proof { lemma_key_index_found(s, *key); }
                let mut out = self.copy_entries();
                let ghost before = out@;
                out.remove(i);
                assert(out@ == before.remove(i as int));
                assert forall|j: int| 0 <= j < out@.len() implies #[trigger] shown(out@)[j] == removed(s, *key)[j] by {
                    assert(key_index(s, *key) == i as int);
                    assert(removed(s, *key) == s.remove(i as int));
                    if j < i {
                        assert(out@[j] == before[j]);
                        assert(shown(before)[j] == s[j]);
                    } else {
                        assert(out@[j] == before[j + 1]);
                        assert(shown(before)[j + 1] == s[j + 1]);
                    }
                }
                assert(shown(out@) =~= removed(s, *key));
                Self::from_entries(out)
            },
            None => self.share(),
        }
    }

    /// The map with the positions of `key1` and `key2` exchanged, or `None` when
    /// either key is absent.
    pub fn swap(&self, key1: &u128, key2: &u128) -> (r: Option<Self>)
        ensures
            r.is_some() == (has_key(self@, *key1) && has_key(self@, *key2)),
            r.is_some() ==> r.unwrap()@ == self@.update(
                key_index(self@, *key1),
                self@[key_index(self@, *key2)],
            ).update(key_index(self@, *key2), self@[key_index(self@, *key1)]),
    {
        proof { use_type_invariant(self); }
        let i1 = match self.get_index(key1) {
            Some(i) => i,
            None => return None,
        };
        let i2 = match self.get_index(key2) {
            Some(i) => i,
            None => return None,
        };
        let ghost s = self@;
        let mut out = self.copy_entries();
        let e1 = (self.entries[i1].0, self.entries[i1].1.clone());
        let e2 = (self.entries[i2].0, self.entries[i2].1.clone());
        out.set(i1, e2);
        out.set(i2, e1);
        proof {
            lemma_key_index_found(s, *key1);
            lemma_key_index_found(s, *key2);
        }
        let ghost t = s.update(i1 as int, s[i2 as int]).update(i2 as int, s[i1 as int]);
        assert(shown(out@) =~= t);
        assert(unique_keys(t)) by {
            assert forall|a: int, b: int|
                0 <= a < t.len() && 0 <= b < t.len() && a != b implies t[a].0 != t[b].0 by {
                let a2 = if a == i1 { i2 as int } else if a == i2 { i1 as int } else { a };
                let b2 = if b == i1 { i2 as int } else if b == i2 { i1 as int } else { b };
                assert(t[a] == s[a2]);
                assert(t[b] == s[b2]);
            }
        }
        Some(Self::from_entries(out))
    }

    /// An empty map.
    pub fn clear(&self) -> (r: Self)
        ensures
            r@ == Seq::<(u128, V)>::empty(),
    {
        Self::new()
    }

    /// The keys, in order.
    pub fn keys_to_vec(&self) -> (r: Vec<u128>)
        ensures
            r@ == keys_of(self@),
    {
        let n = self.entries.len();
        let mut out: Vec<u128> = Vec::new();
        let mut i: usize = 0;
        while i < n
            invariant
                n == self@.len(),
                i <= n,
                out@ == keys_of(self@).subrange(0, i as int),
            decreases n - i,
        {
            out.push(self.entries[i].0);
            i = i + 1;
            assert(out@ =~= keys_of(self@).subrange(0, i as int));
        }
        assert(out@ =~= keys_of(self@));
        out
    }
}

impl<V: PartialEq> PersistentIndexMap<V> {
    /// Whether the two maps hold the same keys with the same values in the same
    /// order; `V`'s `==` must be equality of values.
    pub fn eq(&self, other: &Self) -> (r: bool)
        requires
            vstd::laws_eq::obeys_concrete_eq::<V>(),
        ensures
            r == (self@ == other@),
    {
        proof { reveal(vstd::laws_eq::obeys_concrete_eq); }
        let n = self.entries.len();
        if n != other.entries.len() {
            return false;
        }
        let mut i: usize = 0;
        while i < n
            invariant
                n == self@.len(),
                n == other@.len(),
                i <= n,
                V::obeys_eq_spec(),
                forall|x: V, y: V| x.eq_spec(&y) <==> x == y,
                forall|j: int| 0 <= j < i ==> self@[j] == other@[j],
            decreases n - i,
        {
            let a = &self.entries[i];
            let b = &other.entries[i];
            assert(self@[i as int] == (a.0, *a.1));
            assert(other@[i as int] == (b.0, *b.1));
            if a.0 != b.0 {
                return false;
            }
            let same: bool = (*a.1).eq(&*b.1);
            if !same {
                return false;
            }
            i = i + 1;
        }
        assert(self@ =~= other@);
        true
    }
}

} // verus!
