//! An ordered key-value store for workloads with few entries.
//!
//! The store keeps its pairs in insertion order and answers lookups by a
//! linear scan, so duplicate keys may coexist and a lookup always resolves
//! to the earliest matching pair. Every operation's behaviour is stated in
//! its contract over the store's view, a `Seq` of pairs.

use vstd::prelude::*;
use vstd::std_specs::cmp::PartialEqSpec;

verus! {

/// Whether a pair's key compares equal to `key`, under the key type's own
/// notion of equality (`eq_spec`, what `==` means for `K`).
pub open spec fn key_matches<K: PartialEq, V>(pair: (K, V), key: K) -> bool {
    pair.0.eq_spec(&key)
}

/// Whether some pair of `s` has a key comparing equal to `key`.
pub open spec fn key_found<K: PartialEq, V>(s: Seq<(K, V)>, key: K) -> bool {
    exists|i: int| 0 <= i < s.len() && #[trigger] key_matches(s[i], key)
}

/// The position of the earliest pair of `s` whose key compares equal to
/// `key`; equals `s.len()` when no pair matches.
pub open spec fn first_match<K: PartialEq, V>(s: Seq<(K, V)>, key: K) -> int
    decreases s.len(),
{
    if s.len() == 0 {
        0
    } else if key_matches(s[0], key) {
        0
    } else {
        1 + first_match(s.drop_first(), key)
    }
}

/// What a lookup of `key` in `s` returns: the value of the earliest
/// matching pair, or nothing when no key of `s` compares equal to `key`.
pub open spec fn spec_get<K: PartialEq, V>(s: Seq<(K, V)>, key: K) -> Option<V> {
    if key_found(s, key) {
        Some(s[first_match(s, key)].1)
    } else {
        None
    }
}

/// `first_match` names the earliest matching position: it is in range
/// exactly when some pair matches, the pair there matches, and no pair
/// before it does.
pub proof fn lemma_first_match<K: PartialEq, V>(s: Seq<(K, V)>, key: K)
    ensures
        0 <= first_match(s, key) <= s.len(),
        key_found(s, key) <==> first_match(s, key) < s.len(),
        first_match(s, key) < s.len() ==> key_matches(s[first_match(s, key)], key),
        forall|j: int| 0 <= j < first_match(s, key) ==> !#[trigger] key_matches(s[j], key),
    decreases s.len(),
{
    if s.len() == 0 {
        assert(!key_found(s, key));
    } else if key_matches(s[0], key) {
    } else {
        let t = s.drop_first();
        lemma_first_match(t, key);
        assert(forall|j: int| 0 <= j < t.len() ==> t[j] == s[j + 1]);
        if key_found(t, key) {
            let i = choose|i: int| 0 <= i < t.len() && #[trigger] key_matches(t[i], key);
            assert(key_matches(s[i + 1], key));
        }
        if key_found(s, key) {
            let i = choose|i: int| 0 <= i < s.len() && #[trigger] key_matches(s[i], key);
            assert(i != 0);
            assert(key_matches(t[i - 1], key));
        }
        assert forall|j: int| 0 <= j < first_match(s, key) implies !#[trigger] key_matches(
            s[j],
            key,
        ) by {
            if j >= 1 {
                assert(t[j - 1] == s[j]);
                assert(!key_matches(t[j - 1], key));
            }
        }
    }
}

/// An ordered, growable sequence of key-value pairs.
///
/// `N` is the number of pairs for which room is reserved at construction;
/// it affects allocation only, never the observable behaviour.
pub struct KeyValueStore<K, V, const N: usize> {
    data: Vec<(K, V)>,
}

impl<K, V, const N: usize> View for KeyValueStore<K, V, N> {
    type V = Seq<(K, V)>;

    closed spec fn view(&self) -> Seq<(K, V)> {
        self.data@
    }
}

impl<K, V, const N: usize> KeyValueStore<K, V, N> {
    /// Creates an empty store with room reserved for `N` pairs.
    pub fn new() -> (s: Self)
        ensures
            s@ == Seq::<(K, V)>::empty(),
    {
        KeyValueStore { data: Vec::with_capacity(N) }
    }
}

impl<K: PartialEq, V, const N: usize> KeyValueStore<K, V, N> {
    /// Appends the pair at the end of the sequence; never deduplicates.
    pub fn insert(&mut self, key: K, value: V)
        ensures
            final(self)@ == old(self)@.push((key, value)),
    {
        self.data.push((key, value));
    }

    /// Scans from the start and returns the value of the earliest pair
    /// whose key compares equal to `key`, or nothing when no pair matches.
    pub fn get(&self, key: &K) -> (r: Option<&V>)
        ensures
            K::obeys_eq_spec() ==> match r {
                Some(v) => spec_get(self@, *key) == Some(*v),
                None => spec_get(self@, *key) is None,
            },
    {
        let mut i: usize = 0;
        while i < self.data.len()
            invariant
                i <= self.data.len(),
                K::obeys_eq_spec() ==> forall|j: int|
                    0 <= j < i ==> !#[trigger] key_matches(self.data@[j], *key),
            decreases self.data.len() - i,
        {
            if &self.data[i].0 == key {
                proof {
                    if K::obeys_eq_spec() {
                        lemma_first_match(self@, *key);
                        assert(key_matches(self.data@[i as int], *key));
                        assert(first_match(self@, *key) == i);
                    }
                }
                return Some(&self.data[i].1);
            }
            i += 1;
        }
        None
    }

    /// Scans for the earliest pair whose key compares equal to `key`; if
    /// one is found, takes it out of the sequence, shifting every later
    /// pair left by one position, and returns its value.
    pub fn remove(&mut self, key: &K) -> (r: Option<V>)
        ensures
            K::obeys_eq_spec() ==> match r {
                Some(v) => {
                    &&& Some(v) == spec_get(old(self)@, *key)
                    &&& final(self)@ == old(self)@.remove(first_match(old(self)@, *key))
                },
                None => {
                    &&& !key_found(old(self)@, *key)
                    &&& final(self)@ == old(self)@
                },
            },
    {
        let mut i: usize = 0;
        while i < self.data.len()
            invariant
                i <= self.data.len(),
                self@ == old(self)@,
                K::obeys_eq_spec() ==> forall|j: int|
                    0 <= j < i ==> !#[trigger] key_matches(self.data@[j], *key),
            decreases self.data.len() - i,
        {
            if &self.data[i].0 == key {
                proof {
                    if K::obeys_eq_spec() {
                        lemma_first_match(self@, *key);
                        assert(key_matches(self.data@[i as int], *key));
                        assert(first_match(self@, *key) == i);
                    }
                }
                let pair = self.data.remove(i);
                return Some(pair.1);
            }
            i += 1;
        }
        None
    }

    /// Returns the value at position `index` of the sequence, or nothing
    /// when `index` is out of range.
    pub fn get_by_index(&self, index: usize) -> (r: Option<&V>)
        ensures
            match r {
                Some(v) => index < self@.len() && *v == self@[index as int].1,
                None => index >= self@.len(),
            },
    {
        if index < self.data.len() {
            Some(&self.data[index].1)
        } else {
            None
        }
    }

    /// Returns the pairs in their current order, each borrowed from the
    /// store.
    pub fn items(&self) -> (r: Vec<(&K, &V)>)
        ensures
            r@.len() == self@.len(),
            forall|i: int|
                0 <= i < self@.len() ==> *(#[trigger] r@[i]).0 == self@[i].0 && *r@[i].1
                    == self@[i].1,
    {
        let mut r: Vec<(&K, &V)> = Vec::new();
        let mut i: usize = 0;
        while i < self.data.len()
            invariant
                i <= self.data.len(),
                r@.len() == i,
                forall|j: int|
                    0 <= j < i ==> *(#[trigger] r@[j]).0 == self.data@[j].0 && *r@[j].1
                        == self.data@[j].1,
            decreases self.data.len() - i,
        {
            let pair = &self.data[i];
            r.push((&pair.0, &pair.1));
            i += 1;
        }
        r
    }
}

impl<K, V, const N: usize> Default for KeyValueStore<K, V, N> {
    /// Creates an empty store with no room reserved.
    fn default() -> (s: Self)
        ensures
            s@ == Seq::<(K, V)>::empty(),
    {
        KeyValueStore { data: Vec::new() }
    }
}

/// Relies on std's `Vec::capacity`: the number of elements the vector can
/// hold without reallocating, which is at least its length.
#[verifier::external_body]
fn vec_capacity<T>(v: &Vec<T>) -> (r: usize)
    ensures
        r >= v@.len(),
{
    v.capacity()
}

impl<K, V, const N: usize> KeyValueStore<K, V, N> {
    /// The number of pairs the store can hold without reallocating.
    pub fn capacity(&self) -> (r: usize)
        ensures
            r >= self@.len(),
    {
        vec_capacity(&self.data)
    }
}

/// Insertion order is preserved: appending a pair leaves every earlier
/// pair at its position and places the new pair last, so enumerating the
/// store after any sequence of insertions yields the pairs in the order
/// they were inserted.
pub proof fn lemma_insertion_order<K, V>(s: Seq<(K, V)>, pair: (K, V))
    ensures
        s.push(pair).len() == s.len() + 1,
        forall|j: int| 0 <= j < s.len() ==> #[trigger] s.push(pair)[j] == s[j],
        s.push(pair)[s.len() as int] == pair,
{
}

/// An empty store finds no key: lookup and removal both report absence.
pub proof fn lemma_empty_absent<K: PartialEq, V>(key: K)
    ensures
        !key_found(Seq::<(K, V)>::empty(), key),
        spec_get(Seq::<(K, V)>::empty(), key) is None,
{
}

/// After the earliest pair matching `key` is removed, the pairs before it
/// keep their positions and the pairs after it shift left by one, so all
/// remaining pairs keep their relative order; a later lookup of `key`
/// finds the next-earliest matching pair of the original sequence, or
/// reports absence when the removed pair was the only match.
pub proof fn lemma_get_after_remove<K: PartialEq, V>(s: Seq<(K, V)>, key: K)
    requires
        key_found(s, key),
    ensures
        ({
            let i = first_match(s, key);
            let t = s.remove(i);
            &&& t.len() == s.len() - 1
            &&& (forall|j: int| 0 <= j < i ==> #[trigger] t[j] == s[j])
            &&& (forall|j: int| i <= j < t.len() ==> #[trigger] t[j] == s[j + 1])
            &&& (key_found(t, key) <==> exists|j: int|
                i < j < s.len() && #[trigger] key_matches(s[j], key))
            &&& (key_found(t, key) ==> {
                let m = first_match(t, key);
                &&& i <= m < t.len()
                &&& t[m] == s[m + 1]
                &&& key_matches(s[m + 1], key)
                &&& (forall|j: int| i < j < m + 1 ==> !#[trigger] key_matches(s[j], key))
                &&& spec_get(t, key) == Some(s[m + 1].1)
            })
        }),
{
    let i = first_match(s, key);
    let t = s.remove(i);
    lemma_first_match(s, key);
    s.remove_ensures(i);
    lemma_first_match(t, key);
    if key_found(t, key) {
        let m = first_match(t, key);
        assert(key_matches(t[m], key));
        if m < i {
            assert(t[m] == s[m]);
            assert(false);
        }
        assert(t[m] == s[m + 1]);
        assert forall|j: int| i < j < m + 1 implies !#[trigger] key_matches(s[j], key) by {
            assert(t[j - 1] == s[j]);
            assert(!key_matches(t[j - 1], key));
        }
    }
    if exists|j: int| i < j < s.len() && #[trigger] key_matches(s[j], key) {
        let j = choose|j: int| i < j < s.len() && #[trigger] key_matches(s[j], key);
        assert(t[j - 1] == s[j]);
        assert(key_matches(t[j - 1], key));
        assert(key_found(t, key));
    }
}

/// Enumeration and lookup agree: looking up the key of any enumerated
/// pair succeeds and returns the value of the earliest pair whose key
/// compares equal to it, which stands at or before the enumerated pair.
/// With no duplicate keys the two pairs coincide.
pub proof fn lemma_enumeration_lookup_agree<K: PartialEq, V>(s: Seq<(K, V)>, i: int)
    requires
        0 <= i < s.len(),
        key_matches(s[i], s[i].0),
    ensures
        key_found(s, s[i].0),
        ({
            let j = first_match(s, s[i].0);
            &&& 0 <= j <= i
            &&& key_matches(s[j], s[i].0)
            &&& spec_get(s, s[i].0) == Some(s[j].1)
        }),
{
    lemma_first_match(s, s[i].0);
}

} // verus!
