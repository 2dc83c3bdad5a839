//! Canonically ordered key sets and key maps.
//!
//! Requirement sets and submitted answers are iterated in one deterministic
//! key order, so "the first missing key" and "the first unexpected key" are
//! exact, reproducible answers.

use vstd::prelude::*;

verus! {

/// A key with one strict total canonical order.
pub trait CanonicalKey: Sized + Copy {
    /// Strict canonical order.
    spec fn key_lt(self, other: Self) -> bool;

    /// The canonical order is irreflexive, transitive, and total.
    proof fn lemma_key_order(a: Self, b: Self, c: Self)
        ensures
            !a.key_lt(a),
            a.key_lt(b) && b.key_lt(c) ==> a.key_lt(c),
            a == b || a.key_lt(b) || b.key_lt(a),
    ;

    /// Decides the canonical order.
    fn key_less(&self, other: &Self) -> (r: bool)
        ensures
            r == self.key_lt(*other),
    ;

    /// Decides key identity.
    fn key_same(&self, other: &Self) -> (r: bool)
        ensures
            r == (*self == *other),
    ;
}

/// Whether a key sequence is strictly increasing in canonical order.
pub open spec fn canonical<K: CanonicalKey>(s: Seq<K>) -> bool {
    forall|i: int, j: int| 0 <= i < j < s.len() ==> (#[trigger] s[i]).key_lt(#[trigger] s[j])
}

/// Keys of a sequence of entries, in entry order.
pub open spec fn entry_keys<K, V>(s: Seq<(K, V)>) -> Seq<K> {
    s.map_values(|e: (K, V)| e.0)
}

/// The value stored under `key` in a sequence of entries, if any.
pub open spec fn lookup<K, V>(s: Seq<(K, V)>, key: K) -> Option<V> {
    if entry_keys(s).contains(key) {
        Some(s[choose|i: int| 0 <= i < s.len() && #[trigger] s[i].0 == key].1)
    } else {
        None
    }
}

/// Returns whether a key slice holds `key`.
pub fn slice_has<K: CanonicalKey>(keys: &[K], key: &K) -> (r: bool)
    ensures
        r == keys@.contains(*key),
{
    let mut index: usize = 0;
    while index < keys.len()
        invariant
            index <= keys@.len(),
            forall|i: int| 0 <= i < index ==> keys@[i] != *key,
        decreases keys@.len() - index,
    {
        if keys[index].key_same(key) {
            assert(keys@[index as int] == *key);
            return true;
        }
        index = index + 1;
    }
    false
}

/// Distinct positions of a canonical sequence hold distinct keys.
pub proof fn lemma_canonical_distinct<K: CanonicalKey>(s: Seq<K>, i: int, j: int)
    requires
        canonical(s),
        0 <= i < s.len(),
        0 <= j < s.len(),
        i != j,
    ensures
        s[i] != s[j],
{
    if i < j {
        K::lemma_key_order(s[i], s[j], s[j]);
    } else {
        K::lemma_key_order(s[j], s[i], s[i]);
    }
}

/// Finds the insertion position of `key` in a canonical sequence.
///
/// Returns the first index whose key is not below `key`.
fn lower_bound<K: CanonicalKey>(keys: &Vec<K>, key: &K) -> (r: usize)
    requires
        canonical(keys@),
    ensures
        r <= keys@.len(),
        forall|i: int| 0 <= i < r ==> (#[trigger] keys@[i]).key_lt(*key),
        r < keys@.len() ==> !keys@[r as int].key_lt(*key),
        forall|i: int| r <= i < keys@.len() ==> !(#[trigger] keys@[i]).key_lt(*key),
{
    let mut low: usize = 0;
    let mut high: usize = keys.len();
    while low < high
        invariant
            canonical(keys@),
            low <= high <= keys@.len(),
            forall|i: int| 0 <= i < low ==> (#[trigger] keys@[i]).key_lt(*key),
            forall|i: int| high <= i < keys@.len() ==> !(#[trigger] keys@[i]).key_lt(*key),
        decreases high - low,
    {
        let middle = low + (high - low) / 2;
        if keys[middle].key_less(key) {
            proof {
                assert forall|i: int| 0 <= i < middle + 1 implies (#[trigger] keys@[i]).key_lt(
                    *key,
                ) by {
                    if i < middle {
                        K::lemma_key_order(keys@[i], keys@[middle as int], *key);
                    }
                }
            }
            low = middle + 1;
        } else {
            proof {
                assert forall|i: int| middle <= i < keys@.len() implies !(
                #[trigger] keys@[i]).key_lt(*key) by {
                    if i > middle && keys@[i].key_lt(*key) {
                        K::lemma_key_order(keys@[middle as int], keys@[i], *key);
                    }
                }
            }
            high = middle;
        }
    }
    low
}

/// A canonically ordered set of keys.
#[derive(Debug, PartialEq, Eq)]
pub struct KeySet<K: CanonicalKey> {
    keys: Vec<K>,
}

impl<K: CanonicalKey> KeySet<K> {
    /// Keys in canonical order.
    pub closed spec fn view_seq(&self) -> Seq<K> {
        self.keys@
    }

    /// The set's well-formedness: keys are strictly increasing.
    #[verifier::type_invariant]
    closed spec fn is_canonical(&self) -> bool {
        canonical(self.keys@)
    }

    /// Creates an empty set.
    pub fn new() -> (r: Self)
        ensures
            r.view_seq() == Seq::<K>::empty(),
    {
        KeySet { keys: Vec::new() }
    }

    /// Inserts one key; returns whether it was absent.
    pub fn insert(&mut self, key: K) -> (r: bool)
        ensures
            r == !old(self).view_seq().contains(key),
            forall|k: K| #[trigger]
                final(self).view_seq().contains(k) <==> (old(self).view_seq().contains(k) || k
                    == key),
            canonical(final(self).view_seq()),
    {
        proof {
            use_type_invariant(&*self);
        }
        let position = lower_bound(&self.keys, &key);
        if position < self.keys.len() && self.keys[position].key_same(&key) {
            assert(self.keys@[position as int] == key);
            return false;
        }
        let ghost before = self.keys@;
        proof {
            assert(!before.contains(key)) by {
                if before.contains(key) {
                    let m = choose|m: int| 0 <= m < before.len() && before[m] == key;
                    K::lemma_key_order(key, key, key);
                    if m > position {
                        K::lemma_key_order(before[position as int], key, key);
                    }
                }
            }
            if position < before.len() {
                K::lemma_key_order(before[position as int], key, key);
            }
        }
        let mut keys = Vec::new();
        std::mem::swap(&mut keys, &mut self.keys);
        keys.insert(position, key);
        proof {
            assert forall|i: int, j: int| 0 <= i < j < keys@.len() implies (
            #[trigger] keys@[i]).key_lt(#[trigger] keys@[j]) by {
                if i < position && j > position {
                    K::lemma_key_order(keys@[i], key, keys@[j]);
                } else if i == position && j > position + 1 {
                    K::lemma_key_order(key, before[position as int], keys@[j]);
                }
            }
            assert forall|k: K| #[trigger] keys@.contains(k) implies (before.contains(k) || k
                == key) by {
                let m = choose|m: int| 0 <= m < keys@.len() && keys@[m] == k;
                if m < position {
                    assert(before[m] == k);
                } else if m > position {
                    assert(before[m - 1] == k);
                }
            }
            assert forall|k: K| #[trigger] before.contains(k) implies keys@.contains(k) by {
                let m = choose|m: int| 0 <= m < before.len() && before[m] == k;
                if m < position {
                    assert(keys@[m] == k);
                } else {
                    assert(keys@[m + 1] == k);
                }
            }
            assert(keys@[position as int] == key);
        }
        self.keys = keys;
        true
    }

    /// Appends a key that is above every key already present.
    pub fn push_greatest(&mut self, key: K)
        requires
            forall|i: int|
                0 <= i < old(self).view_seq().len() ==> (#[trigger] old(self).view_seq()[i]).key_lt(
                    key,
                ),
        ensures
            final(self).view_seq() == old(self).view_seq().push(key),
    {
        proof {
            use_type_invariant(&*self);
        }
        let mut keys = Vec::new();
        std::mem::swap(&mut keys, &mut self.keys);
        let ghost before = keys@;
        assert(before == old(self).view_seq());
        keys.push(key);
        proof {
            assert forall|i: int, j: int| 0 <= i < j < keys@.len() implies (
            #[trigger] keys@[i]).key_lt(#[trigger] keys@[j]) by {
                if j == before.len() {
                    assert(before[i] == old(self).view_seq()[i]);
                } else {
                    assert(keys@[i] == before[i] && keys@[j] == before[j]);
                }
            }
        }
        self.keys = keys;
    }

    /// Returns whether the set holds `key`.
    pub fn contains(&self, key: &K) -> (r: bool)
        ensures
            r == self.view_seq().contains(*key),
    {
        proof {
            use_type_invariant(self);
        }
        let position = lower_bound(&self.keys, key);
        let found = position < self.keys.len() && self.keys[position].key_same(key);
        proof {
            if !found && self.keys@.contains(*key) {
                let i = choose|i: int| 0 <= i < self.keys@.len() && self.keys@[i] == *key;
                K::lemma_key_order(*key, *key, *key);
                if i > position {
                    K::lemma_key_order(self.keys@[position as int], *key, *key);
                    K::lemma_key_order(*key, self.keys@[position as int], *key);
                }
            }
            if found {
                assert(self.keys@[position as int] == *key);
            }
        }
        found
    }

    /// Returns the number of keys.
    pub fn len(&self) -> (r: usize)
        ensures
            r == self.view_seq().len(),
    {
        self.keys.len()
    }

    /// Returns whether the set is empty.
    pub fn is_empty(&self) -> (r: bool)
        ensures
            r == (self.view_seq().len() == 0),
    {
        self.keys.len() == 0
    }

    /// Returns the keys in canonical order.
    pub fn as_slice(&self) -> (r: &[K])
        ensures
            r@ == self.view_seq(),
            canonical(r@),
    {
        proof {
            use_type_invariant(self);
        }
        self.keys.as_slice()
    }
}

impl<K: CanonicalKey> Clone for KeySet<K> {
    fn clone(&self) -> (r: Self)
        ensures
            r.view_seq() == self.view_seq(),
    {
        proof {
            use_type_invariant(self);
        }
        let mut keys: Vec<K> = Vec::new();
        let mut index: usize = 0;
        while index < self.keys.len()
            invariant
                index <= self.keys@.len(),
                keys@ == self.keys@.subrange(0, index as int),
            decreases self.keys@.len() - index,
        {
            keys.push(self.keys[index]);
            index = index + 1;
            assert(keys@ == self.keys@.subrange(0, index as int));
        }
        assert(keys@ == self.keys@);
        KeySet { keys }
    }
}

/// A canonically ordered map from keys to values.
#[derive(Debug, PartialEq, Eq)]
pub struct KeyMap<K: CanonicalKey, V> {
    entries: Vec<(K, V)>,
}

impl<K: CanonicalKey, V> KeyMap<K, V> {
    /// Entries in canonical key order.
    pub closed spec fn view_seq(&self) -> Seq<(K, V)> {
        self.entries@
    }

    /// Whether the map holds an entry for `key`.
    pub open spec fn has(&self, key: K) -> bool {
        entry_keys(self.view_seq()).contains(key)
    }

    /// The map's well-formedness: keys are strictly increasing.
    #[verifier::type_invariant]
    closed spec fn is_canonical(&self) -> bool {
        canonical(entry_keys(self.entries@))
    }

    /// The value stored under `key`; meaningful only when [`Self::has`] holds.
    pub open spec fn value_of(&self, key: K) -> V {
        self.view_seq()[choose|i: int|
            0 <= i < self.view_seq().len() && #[trigger] self.view_seq()[i].0 == key].1
    }

    /// Creates an empty map.
    pub fn new() -> (r: Self)
        ensures
            r.view_seq() == Seq::<(K, V)>::empty(),
    {
        KeyMap { entries: Vec::new() }
    }

    fn position_of(&self, key: &K) -> (r: usize)
        ensures
            r <= self.entries@.len(),
            forall|i: int| 0 <= i < r ==> (#[trigger] self.entries@[i]).0.key_lt(*key),
            forall|i: int| r <= i < self.entries@.len() ==> !(#[trigger] self.entries@[i]).0.key_lt(
                *key,
            ),
    {
        proof {
            use_type_invariant(self);
        }
        let mut position: usize = 0;
        while position < self.entries.len() && self.entries[position].0.key_less(key)
            invariant
                position <= self.entries@.len(),
                forall|i: int| 0 <= i < position ==> (#[trigger] self.entries@[i]).0.key_lt(*key),
            decreases self.entries@.len() - position,
        {
            position = position + 1;
        }
        proof {
            let ks = entry_keys(self.entries@);
            assert forall|i: int| position <= i < self.entries@.len() implies !(
            #[trigger] self.entries@[i]).0.key_lt(*key) by {
                if i > position {
                    assert(ks[position as int] == self.entries@[position as int].0);
                    assert(ks[i] == self.entries@[i].0);
                    K::lemma_key_order(ks[position as int], ks[i], *key);
                    K::lemma_key_order(*key, ks[position as int], ks[i]);
                    K::lemma_key_order(ks[i], *key, ks[position as int]);
                }
            }
        }
        position
    }

    /// Looks up the index of `key`.
    pub fn find(&self, key: &K) -> (r: Option<usize>)
        ensures
            r matches Some(i) ==> i < self.view_seq().len() && self.view_seq()[i as int].0
                == *key,
            r is None <==> !self.has(*key),
    {
        proof {
            use_type_invariant(self);
        }
        let ghost keys = entry_keys(self.entries@);
        let mut low: usize = 0;
        let mut high: usize = self.entries.len();
        while low < high
            invariant
                keys == entry_keys(self.entries@),
                canonical(keys),
                low <= high <= self.entries@.len(),
                forall|i: int| 0 <= i < low ==> (#[trigger] keys[i]).key_lt(*key),
                forall|i: int| high <= i < keys.len() ==> !(#[trigger] keys[i]).key_lt(*key),
            decreases high - low,
        {
            let middle = low + (high - low) / 2;
            if self.entries[middle].0.key_less(key) {
                proof {
                    assert(keys[middle as int] == self.entries@[middle as int].0);
                    assert forall|i: int| 0 <= i < middle + 1 implies (#[trigger] keys[i]).key_lt(
                        *key,
                    ) by {
                        if i < middle {
                            K::lemma_key_order(keys[i], keys[middle as int], *key);
                        }
                    }
                }
                low = middle + 1;
            } else {
                proof {
                    assert(keys[middle as int] == self.entries@[middle as int].0);
                    assert forall|i: int| middle <= i < keys.len() implies !(
                    #[trigger] keys[i]).key_lt(*key) by {
                        if i > middle && keys[i].key_lt(*key) {
                            K::lemma_key_order(keys[middle as int], keys[i], *key);
                        }
                    }
                }
                high = middle;
            }
        }
        if low < self.entries.len() && self.entries[low].0.key_same(key) {
            proof {
                assert(keys[low as int] == *key);
            }
            return Some(low);
        }
        proof {
            if self.has(*key) {
                let m = choose|m: int| 0 <= m < keys.len() && keys[m] == *key;
                K::lemma_key_order(*key, *key, *key);
                if m > low {
                    assert(keys[low as int] == self.entries@[low as int].0);
                    K::lemma_key_order(keys[low as int], *key, *key);
                    K::lemma_key_order(*key, keys[low as int], *key);
                }
                if m == low {
                    assert(keys[low as int] == self.entries@[low as int].0);
                }
            }
        }
        None
    }

    /// Returns the value of `key`, when present.
    pub fn get(&self, key: &K) -> (r: Option<&V>)
        ensures
            r matches Some(v) ==> *v == self.value_of(*key),
            r is None <==> !self.has(*key),
    {
        proof {
            use_type_invariant(self);
        }
        match self.find(key) {
            Some(index) => {
                proof {
                    let c = choose|i: int|
                        0 <= i < self.entries@.len() && #[trigger] self.entries@[i].0 == *key;
                    let ks = entry_keys(self.entries@);
                    if c != index {
                        lemma_canonical_distinct(ks, c, index as int);
                        assert(ks[c] == self.entries@[c].0);
                        assert(ks[index as int] == self.entries@[index as int].0);
                    }
                }
                Some(&self.entries[index].1)
            },
            None => None,
        }
    }

    /// Appends an entry whose key is above every key already present.
    pub fn push_greatest(&mut self, key: K, value: V)
        requires
            forall|i: int|
                0 <= i < old(self).view_seq().len() ==> (#[trigger] old(self).view_seq()[i]).0.key_lt(
                    key,
                ),
        ensures
            final(self).view_seq() == old(self).view_seq().push((key, value)),
    {
        proof {
            use_type_invariant(&*self);
        }
        let mut entries = Vec::new();
        std::mem::swap(&mut entries, &mut self.entries);
        let ghost before = entries@;
        assert(before == old(self).view_seq());
        entries.push((key, value));
        proof {
            let ks = entry_keys(before);
            let nk = entry_keys(entries@);
            assert forall|i: int, j: int| 0 <= i < j < nk.len() implies (#[trigger] nk[i]).key_lt(
                #[trigger] nk[j],
            ) by {
                assert(nk[i] == entries@[i].0);
                assert(nk[j] == entries@[j].0);
                if j < before.len() {
                    assert(ks[i] == before[i].0);
                    assert(ks[j] == before[j].0);
                } else {
                    assert(before[i] == old(self).view_seq()[i]);
                }
            }
        }
        self.entries = entries;
    }

    /// Replaces the value of the entry at `index`, returning the previous value.
    pub fn replace_value(&mut self, index: usize, value: V) -> (r: V)
        requires
            index < old(self).view_seq().len(),
        ensures
            r == old(self).view_seq()[index as int].1,
            final(self).view_seq() == old(self).view_seq().update(
                index as int,
                (old(self).view_seq()[index as int].0, value),
            ),
    {
        proof {
            use_type_invariant(&*self);
        }
        let mut entries = Vec::new();
        std::mem::swap(&mut entries, &mut self.entries);
        let ghost before = entries@;
        let (key, previous) = entries.remove(index);
        entries.insert(index, (key, value));
        proof {
            assert(entries@ =~= before.update(index as int, (key, value)));
            assert(entry_keys(entries@) =~= entry_keys(before));
        }
        self.entries = entries;
        previous
    }

    /// Returns whether the map holds an entry for `key`.
    pub fn contains_key(&self, key: &K) -> (r: bool)
        ensures
            r == self.has(*key),
    {
        self.find(key).is_some()
    }

    /// Inserts one entry that must be new; an existing entry is kept and `false` returned.
    pub fn insert_new(&mut self, key: K, value: V) -> (r: bool)
        ensures
            r == !old(self).has(key),
            r ==> forall|k: K| #[trigger]
                final(self).has(k) <==> (old(self).has(k) || k == key),
            !r ==> final(self).view_seq() == old(self).view_seq(),
            r ==> exists|p: int|
                0 <= p <= old(self).view_seq().len() && final(self).view_seq() == old(
                    self,
                ).view_seq().insert(p, (key, value)),
    {
        proof {
            use_type_invariant(&*self);
        }
        if self.contains_key(&key) {
            return false;
        }
        let position = self.position_of(&key);
        let ghost before = self.entries@;
        let ghost ks = entry_keys(before);
        proof {
            if position < before.len() {
                assert(ks[position as int] == before[position as int].0);
                K::lemma_key_order(ks[position as int], key, key);
                assert(ks[position as int] != key) by {
                    assert(ks.contains(ks[position as int]));
                }
            }
        }
        let mut entries = Vec::new();
        std::mem::swap(&mut entries, &mut self.entries);
        entries.insert(position, (key, value));
        proof {
            let nk = entry_keys(entries@);
            assert forall|i: int, j: int| 0 <= i < j < nk.len() implies (#[trigger] nk[i]).key_lt(
                #[trigger] nk[j],
            ) by {
                if i < position && j > position {
                    assert(nk[i] == ks[i]);
                    assert(nk[j] == ks[j - 1]);
                    K::lemma_key_order(nk[i], key, nk[j]);
                } else if i == position && j > position {
                    assert(nk[j] == ks[j - 1]);
                    if j > position + 1 {
                        K::lemma_key_order(key, ks[position as int], ks[j - 1]);
                    }
                } else if i < position && j == position {
                } else if j < position {
                    assert(nk[i] == ks[i]);
                    assert(nk[j] == ks[j]);
                } else {
                    assert(nk[i] == ks[i - 1]);
                    assert(nk[j] == ks[j - 1]);
                }
            }
            assert forall|k: K| #[trigger] nk.contains(k) implies (ks.contains(k) || k == key) by {
                let m = choose|m: int| 0 <= m < nk.len() && nk[m] == k;
                if m < position {
                    assert(ks[m] == k);
                } else if m > position {
                    assert(ks[m - 1] == k);
                }
            }
            assert forall|k: K| #[trigger] ks.contains(k) implies nk.contains(k) by {
                let m = choose|m: int| 0 <= m < ks.len() && ks[m] == k;
                if m < position {
                    assert(nk[m] == k);
                } else {
                    assert(nk[m + 1] == k);
                }
            }
            assert(nk[position as int] == key);
            assert(entries@ == before.insert(position as int, (key, value)));
        }
        self.entries = entries;
        true
    }

    /// Returns the number of entries.
    pub fn len(&self) -> (r: usize)
        ensures
            r == self.view_seq().len(),
    {
        self.entries.len()
    }

    /// Returns whether the map is empty.
    pub fn is_empty(&self) -> (r: bool)
        ensures
            r == (self.view_seq().len() == 0),
    {
        self.entries.len() == 0
    }

    /// Builds a map from entries whose keys are already strictly increasing.
    pub fn from_canonical(entries: Vec<(K, V)>) -> (r: Self)
        requires
            canonical(entry_keys(entries@)),
        ensures
            r.view_seq() == entries@,
    {
        KeyMap { entries }
    }

    /// Consumes the map, returning its entries in canonical key order.
    pub fn into_entries(self) -> (r: Vec<(K, V)>)
        ensures
            r@ == self.view_seq(),
            canonical(entry_keys(r@)),
    {
        proof {
            use_type_invariant(&self);
        }
        self.entries
    }

    /// Returns the entries in canonical key order.
    pub fn entries(&self) -> (r: &[(K, V)])
        ensures
            r@ == self.view_seq(),
            canonical(entry_keys(r@)),
    {
        proof {
            use_type_invariant(self);
        }
        self.entries.as_slice()
    }
}

impl<K: CanonicalKey, V: Clone> Clone for KeyMap<K, V> {
    fn clone(&self) -> (r: Self)
        ensures
            entry_keys(r.view_seq()) == entry_keys(self.view_seq()),
            forall|i: int|
                0 <= i < r.view_seq().len() ==> cloned::<V>(
                    self.view_seq()[i].1,
                    #[trigger] r.view_seq()[i].1,
                ),
    {
        proof {
            use_type_invariant(self);
        }
        let mut entries: Vec<(K, V)> = Vec::new();
        let mut index: usize = 0;
        while index < self.entries.len()
            invariant
                index <= self.entries@.len(),
                entry_keys(entries@) == entry_keys(self.entries@).subrange(0, index as int),
                forall|i: int|
                    0 <= i < entries@.len() ==> cloned::<V>(
                        self.entries@[i].1,
                        #[trigger] entries@[i].1,
                    ),
            decreases self.entries@.len() - index,
        {
            let key = self.entries[index].0;
            let value = self.entries[index].1.clone();
            let ghost previous = entries@;
            assert(entry_keys(previous).len() == index);
            assert(previous.len() == index);
            entries.push((key, value));
            index = index + 1;
            assert(entry_keys(entries@) =~= entry_keys(self.entries@).subrange(0, index as int)) by {
                assert forall|i: int| 0 <= i < index implies entry_keys(entries@)[i] == entry_keys(
                    self.entries@,
                )[i] by {
                    if i < index - 1 {
                        assert(entries@[i] == previous[i]);
                        assert(entry_keys(previous)[i] == entry_keys(self.entries@)[i]);
                    }
                }
            }
        }
        assert(entry_keys(entries@) =~= entry_keys(self.entries@));
        KeyMap { entries }
    }
}

} // verus!
