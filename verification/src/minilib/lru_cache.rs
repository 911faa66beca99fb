//! A least-recently-used cache of a fixed capacity, keyed by index.
//!
//! The cache keeps its entries from the most to the least recently used. A
//! lookup or an update moves an entry to the front; an insertion of a new key
//! into a full cache pushes out the entry at the back, which the cache keeps
//! until `last_removed` hands it over.

use vstd::prelude::*;

verus! {

/// `s` with its entry `i` moved to the front.
pub open spec fn moved_to_front<K, V>(s: Seq<(K, V)>, i: int) -> Seq<(K, V)> {
    seq![s[i]] + s.remove(i)
}

/// Some entry of `s` has `key`.
pub open spec fn holds_key<V>(s: Seq<(usize, V)>, key: usize) -> bool {
    exists|i: int| 0 <= i < s.len() && #[trigger] s[i].0 == key
}

/// The position of the entry of `s` that has `key`.
pub open spec fn key_index<V>(s: Seq<(usize, V)>, key: usize) -> int {
    choose|i: int| 0 <= i < s.len() && #[trigger] s[i].0 == key
}

/// No two entries of `s` have the same key.
pub open spec fn keys_distinct<V>(s: Seq<(usize, V)>) -> bool {
    forall|i: int, j: int| 0 <= i < s.len() && 0 <= j < s.len() && i != j ==> #[trigger] s[i].0 != #[trigger] s[j].0
}

/// The value that `s` holds under `key`.
pub open spec fn lookup<V>(s: Seq<(usize, V)>, key: usize) -> Option<V> {
    if holds_key(s, key) {
        Some(s[key_index(s, key)].1)
    } else {
        None
    }
}

/// The entries after inserting `value` under `key`, and the entry pushed out
/// by it: a key that is there gets the new value and moves to the front; a
/// new key goes to the front, and when that makes one entry too many the last
/// one leaves.
pub open spec fn after_insert<V>(s: Seq<(usize, V)>, capacity: usize, key: usize, value: V) -> (
    Seq<(usize, V)>,
    Option<(usize, V)>,
) {
    if holds_key(s, key) {
        (seq![(key, value)] + s.remove(key_index(s, key)), None)
    } else {
        let t = seq![(key, value)] + s;
        if t.len() > capacity {
            (t.drop_last(), Some(t.last()))
        } else {
            (t, None)
        }
    }
}

/// The key of an entry is found at its position.
pub proof fn lemma_key_index<V>(s: Seq<(usize, V)>, i: int)
    requires
        keys_distinct(s),
        0 <= i < s.len(),
    ensures
        holds_key(s, s[i].0),
        key_index(s, s[i].0) == i,
        lookup(s, s[i].0) == Some(s[i].1),
{
    assert(holds_key(s, s[i].0));
}

/// Moving an entry to the front keeps the keys distinct.
proof fn lemma_front_keeps_keys<V>(s: Seq<(usize, V)>, i: int, entry: (usize, V))
    requires
        keys_distinct(s),
        0 <= i < s.len(),
        entry.0 == s[i].0,
    ensures
        keys_distinct(seq![entry] + s.remove(i)),
        (seq![entry] + s.remove(i)).len() == s.len(),
{
    let t = seq![entry] + s.remove(i);
    let src = |k: int| if k == 0 { i } else if k - 1 < i { k - 1 } else { k };
    assert forall|k: int| 0 <= k < t.len() implies t[k].0 == s[src(k)].0 by {
        if k > 0 {
            assert(t[k] == s.remove(i)[k - 1]);
        }
    }
    assert forall|a: int, b: int| 0 <= a < t.len() && 0 <= b < t.len() && a != b implies #[trigger] t[a].0
        != #[trigger] t[b].0 by {
        assert(t[a].0 == s[src(a)].0);
        assert(t[b].0 == s[src(b)].0);
    }
}

/// A new key at the front keeps the keys distinct, and so does dropping the
/// last entry.
proof fn lemma_new_front_keeps_keys<V>(s: Seq<(usize, V)>, entry: (usize, V))
    requires
        keys_distinct(s),
        !holds_key(s, entry.0),
    ensures
        keys_distinct(seq![entry] + s),
        (seq![entry] + s).len() > 0 ==> keys_distinct((seq![entry] + s).drop_last()),
{
    let t = seq![entry] + s;
    assert forall|a: int, b: int| 0 <= a < t.len() && 0 <= b < t.len() && a != b implies #[trigger] t[a].0
        != #[trigger] t[b].0 by {
        if a == 0 {
            assert(t[b] == s[b - 1]);
        } else if b == 0 {
            assert(t[a] == s[a - 1]);
        } else {
            assert(t[a] == s[a - 1]);
            assert(t[b] == s[b - 1]);
        }
    }
    let u = t.drop_last();
    assert forall|a: int, b: int| 0 <= a < u.len() && 0 <= b < u.len() && a != b implies #[trigger] u[a].0
        != #[trigger] u[b].0 by {
        assert(u[a] == t[a]);
        assert(u[b] == t[b]);
    }
}

/// Inserting keeps the keys distinct and the entries within the capacity.
pub proof fn lemma_insert_keeps_the_bound<V>(s: Seq<(usize, V)>, capacity: usize, key: usize, value: V)
    requires
        keys_distinct(s),
        s.len() <= capacity,
        capacity > 0,
    ensures
        keys_distinct(after_insert(s, capacity, key, value).0),
        after_insert(s, capacity, key, value).0.len() <= capacity,
        after_insert(s, capacity, key, value).0.len() > 0,
        after_insert(s, capacity, key, value).0[0] == (key, value),
{
    if holds_key(s, key) {
        let i = key_index(s, key);
        lemma_front_keeps_keys(s, i, (key, value));
    } else {
        lemma_new_front_keeps_keys(s, (key, value));
    }
}

/// A lookup right after an insertion finds the inserted value.
pub proof fn law_get_after_insert<V>(s: Seq<(usize, V)>, capacity: usize, key: usize, value: V)
    requires
        keys_distinct(s),
        s.len() <= capacity,
        capacity > 0,
    ensures
        lookup(after_insert(s, capacity, key, value).0, key) == Some(value),
        key_index(after_insert(s, capacity, key, value).0, key) == 0,
{
    lemma_insert_keeps_the_bound(s, capacity, key, value);
    lemma_key_index(after_insert(s, capacity, key, value).0, 0);
}

/// Inserting under one key leaves the value under another key as it was,
/// unless that entry is the one pushed out.
pub proof fn law_insert_keeps_other_keys<V>(
    s: Seq<(usize, V)>,
    capacity: usize,
    key: usize,
    value: V,
    other: usize,
)
    requires
        keys_distinct(s),
        s.len() <= capacity,
        capacity > 0,
        other != key,
    ensures
        ({
            let (t, pushed_out) = after_insert(s, capacity, key, value);
            match pushed_out {
                Some(e) if e.0 == other => lookup(t, other) is None && lookup(s, other) == Some(e.1),
                _ => lookup(t, other) == lookup(s, other),
            }
        }),
{
    let (t, pushed_out) = after_insert(s, capacity, key, value);
    lemma_insert_keeps_the_bound(s, capacity, key, value);
    if holds_key(s, other) {
        let j = key_index(s, other);
        lemma_key_index(s, j);
        if holds_key(s, key) {
            let i = key_index(s, key);
            let k = if j < i { j + 1 } else { j };
            assert(t[k] == s[j]);
            lemma_key_index(t, k);
        } else {
            let u = seq![(key, value)] + s;
            assert(u[j + 1] == s[j]);
            if u.len() > capacity && j + 1 == u.len() - 1 {
                assert(pushed_out == Some(s[j]));
                if holds_key(t, other) {
                    let k = key_index(t, other);
                    assert(t[k] == u[k]);
                    lemma_key_index(u, k);
                    lemma_new_front_keeps_keys(s, (key, value));
                    lemma_key_index(u, j + 1);
                }
            } else {
                assert(t[j + 1] == s[j]);
                lemma_key_index(t, j + 1);
            }
        }
    } else {
        if holds_key(t, other) {
            let k = key_index(t, other);
            if holds_key(s, key) {
                let i = key_index(s, key);
                assert(k > 0);
                let src = if k - 1 < i { k - 1 } else { k };
                assert(t[k] == s.remove(i)[k - 1]);
                assert(s[src].0 == other);
            } else {
                assert(k > 0);
                assert(t[k] == s[k - 1]);
            }
        }
        match pushed_out {
            Some(e) => {
                assert(e == s.last());
                assert(s[s.len() - 1].0 == e.0);
            },
            None => {},
        }
    }
}

/// A least-recently-used cache holding at most `capacity` entries. Its keys
/// are indices (`usize`), which is what its methods are written for.
pub struct LruCache<K, V> {
    capacity: usize,
    /// The entries from the most to the least recently used.
    entries: Vec<(K, V)>,
    /// The entry that the last insertion pushed out, until it is taken.
    last_detached: Option<(K, V)>,
}

/// What `LruCache::entry` finds for a key.
pub enum Entry<'a, K, V> {
    Occupied(OccupiedEntry<'a, K, V>),
    Vacant(VacantEntry<'a, K, V>),
}

/// An entry that the cache holds, at position `index`.
pub struct OccupiedEntry<'a, K, V> {
    pub cache: &'a mut LruCache<K, V>,
    pub index: usize,
}

/// A key that the cache does not hold.
pub struct VacantEntry<'a, K, V> {
    pub cache: &'a mut LruCache<K, V>,
    pub key: K,
}

impl<V> LruCache<usize, V> {
    /// The entries from the most to the least recently used.
    pub closed spec fn spec_entries(&self) -> Seq<(usize, V)> {
        self.entries@
    }

    pub closed spec fn spec_capacity(&self) -> usize {
        self.capacity
    }

    /// The entry that the last insertion pushed out, if it was not taken.
    pub closed spec fn spec_last_detached(&self) -> Option<(usize, V)> {
        self.last_detached
    }

    /// The capacity is at least one, the entries fit in it and no two have
    /// the same key.
    pub open spec fn wf(&self) -> bool {
        &&& self.spec_capacity() > 0
        &&& self.spec_entries().len() <= self.spec_capacity()
        &&& keys_distinct(self.spec_entries())
    }

    /// An empty cache for at most `capacity` entries.
    pub fn new(capacity: usize) -> (r: Self)
        requires
            capacity > 0,
        ensures
            r.wf(),
            r.spec_capacity() == capacity,
            r.spec_entries() == Seq::<(usize, V)>::empty(),
            r.spec_last_detached() is None,
    {
        LruCache { capacity, entries: Vec::new(), last_detached: None }
    }

    /// Hand over the entry that the last insertion pushed out, if any.
    pub fn last_removed(&mut self) -> (r: Option<(usize, V)>)
        requires
            old(self).wf(),
        ensures
            final(self).wf(),
            r == old(self).spec_last_detached(),
            final(self).spec_last_detached() is None,
            final(self).spec_entries() == old(self).spec_entries(),
            final(self).spec_capacity() == old(self).spec_capacity(),
    {
        self.last_detached.take()
    }

    /// The position of the entry with `key`, if there is one.
    fn position(&self, key: usize) -> (r: Option<usize>)
        requires
            self.wf(),
        ensures
            match r {
                Some(i) => i < self.spec_entries().len() && holds_key(self.spec_entries(), key) && key_index(
                    self.spec_entries(),
                    key,
                ) == i && self.spec_entries()[i as int].0 == key,
                None => !holds_key(self.spec_entries(), key),
            },
    {
        let mut i: usize = 0;
        while i < self.entries.len()
            invariant
                self.wf(),
                i <= self.entries@.len(),
                forall|j: int| 0 <= j < i ==> #[trigger] self.entries@[j].0 != key,
            decreases self.entries@.len() - i,
        {
            if self.entries[i].0 == key {
                proof {
                    lemma_key_index(self.entries@, i as int);
                }
                return Some(i);
            }
            i += 1;
        }
        None
    }

    /// Move entry `i` to the front.
    fn move_to_front(&mut self, i: usize)
        requires
            old(self).wf(),
            i < old(self).spec_entries().len(),
        ensures
            final(self).wf(),
            final(self).spec_entries() == moved_to_front(old(self).spec_entries(), i as int),
            final(self).spec_capacity() == old(self).spec_capacity(),
            final(self).spec_last_detached() == old(self).spec_last_detached(),
    {
        let ghost s = self.entries@;
        let entry = self.entries.remove(i);
        self.entries.insert(0, entry);
        proof {
            assert(self.entries@ =~= moved_to_front(s, i as int));
            lemma_front_keeps_keys(s, i as int, s[i as int]);
        }
    }

    /// The value under `key`, if the cache holds it; its entry becomes the
    /// most recently used.
    pub fn get(&mut self, key: &usize) -> (r: Option<&V>)
        requires
            old(self).wf(),
        ensures
            final(self).wf(),
            final(self).spec_capacity() == old(self).spec_capacity(),
            final(self).spec_last_detached() == old(self).spec_last_detached(),
            match r {
                Some(v) => lookup(old(self).spec_entries(), *key) == Some(*v) && final(self).spec_entries()
                    == moved_to_front(old(self).spec_entries(), key_index(old(self).spec_entries(), *key)),
                None => !holds_key(old(self).spec_entries(), *key) && final(self).spec_entries() == old(
                    self,
                ).spec_entries(),
            },
    {
        match self.position(*key) {
            Some(i) => {
                self.move_to_front(i);
                Some(&self.entries[0].1)
            },
            None => None,
        }
    }

    /// Put `(key, value)` at the front: a key that is there gets the new value;
    /// a new key that makes one entry too many pushes out the last entry.
    pub fn insert(&mut self, key: usize, value: V)
        requires
            old(self).wf(),
        ensures
            final(self).wf(),
            final(self).spec_capacity() == old(self).spec_capacity(),
            ({
                let (s, pushed_out) = after_insert(old(self).spec_entries(), old(self).spec_capacity(), key, value);
                &&& final(self).spec_entries() == s
                &&& final(self).spec_last_detached() == match pushed_out {
                    Some(e) => Some(e),
                    None => old(self).spec_last_detached(),
                }
            }),
    {
        let ghost s = self.entries@;
        proof {
            lemma_insert_keeps_the_bound(s, self.capacity, key, value);
        }
        match self.position(key) {
            Some(i) => {
                self.entries.remove(i);
                self.entries.insert(0, (key, value));
                proof {
                    assert(self.entries@ =~= seq![(key, value)] + s.remove(i as int));
                }
            },
            None => {
                self.entries.insert(0, (key, value));
                proof {
                    assert(self.entries@ =~= seq![(key, value)] + s);
                }
                if self.entries.len() > self.capacity {
                    let last = self.entries.pop();
                    self.last_detached = last;
                    proof {
                        assert(self.entries@ =~= (seq![(key, value)] + s).drop_last());
                    }
                }
            },
        }
    }

    /// The entry for `key`: where the cache holds it, or the place to insert it.
    pub fn entry(&mut self, key: usize) -> (r: Entry<'_, usize, V>)
        requires
            old(self).wf(),
        ensures
            match r {
                Entry::Occupied(e) => {
                    &&& *e.cache == *old(self)
                    &&& *final(e.cache) == *final(self)
                    &&& holds_key(old(self).spec_entries(), key)
                    &&& e.index == key_index(old(self).spec_entries(), key)
                },
                Entry::Vacant(e) => {
                    &&& *e.cache == *old(self)
                    &&& *final(e.cache) == *final(self)
                    &&& !holds_key(old(self).spec_entries(), key)
                    &&& e.key == key
                },
            },
    {
        match self.position(key) {
            Some(i) => Entry::Occupied(OccupiedEntry { cache: self, index: i }),
            None => Entry::Vacant(VacantEntry { cache: self, key }),
        }
    }

    /// The values from the most to the least recently used.
    pub fn to_vec(&self) -> (r: Vec<&V>)
        ensures
            r@.len() == self.spec_entries().len(),
            forall|i: int| 0 <= i < r@.len() ==> *r@[i] == self.spec_entries()[i].1,
    {
        let mut r: Vec<&V> = Vec::new();
        let mut i: usize = 0;
        while i < self.entries.len()
            invariant
                i <= self.entries@.len(),
                r@.len() == i,
                forall|j: int| 0 <= j < i ==> *r@[j] == self.entries@[j].1,
            decreases self.entries@.len() - i,
        {
            r.push(&self.entries[i].1);
            i += 1;
        }
        r
    }
}

impl<'a, V> OccupiedEntry<'a, usize, V> {
    /// The value of the entry, which becomes the most recently used.
    pub fn into_mut(self) -> (r: &'a mut V)
        requires
            self.cache.wf(),
            self.index < self.cache.spec_entries().len(),
        ensures
            ({
                let s = old(self.cache).spec_entries();
                let i = self.index as int;
                &&& *r == s[i].1
                &&& final(self.cache).spec_entries() == moved_to_front(s, i).update(0, (s[i].0, *final(r)))
                &&& final(self.cache).spec_capacity() == old(self.cache).spec_capacity()
                &&& final(self.cache).spec_last_detached() == old(self.cache).spec_last_detached()
                &&& final(self.cache).wf()
            }),
    {
        let cache = self.cache;
        cache.move_to_front(self.index);
        let ghost s = cache.entries@;
        proof {
            assert forall|v: V| keys_distinct(#[trigger] s.update(0, (s[0].0, v))) by {
                let t = s.update(0, (s[0].0, v));
                assert forall|a: int, b: int| 0 <= a < t.len() && 0 <= b < t.len() && a != b implies #[trigger] t[a].0
                    != #[trigger] t[b].0 by {
                    assert(t[a].0 == s[a].0);
                    assert(t[b].0 == s[b].0);
                }
            }
        }
        &mut cache.entries[0].1
    }
}

impl<'a, V> VacantEntry<'a, usize, V> {
    /// Insert `value` under the entry's key, at the front; when that makes
    /// one entry too many, the last entry is pushed out.
    pub fn insert(self, value: V) -> (r: &'a mut V)
        requires
            self.cache.wf(),
            !holds_key(self.cache.spec_entries(), self.key),
        ensures
            ({
                let (s, pushed_out) = after_insert(
                    old(self.cache).spec_entries(),
                    old(self.cache).spec_capacity(),
                    self.key,
                    value,
                );
                &&& *r == value
                &&& final(self.cache).spec_entries() == s.update(0, (self.key, *final(r)))
                &&& final(self.cache).spec_last_detached() == match pushed_out {
                    Some(e) => Some(e),
                    None => old(self.cache).spec_last_detached(),
                }
                &&& final(self.cache).spec_capacity() == old(self.cache).spec_capacity()
                &&& final(self.cache).wf()
            }),
    {
        let key = self.key;
        let cache = self.cache;
        cache.insert(key, value);
        let ghost s = cache.entries@;
        proof {
            assert forall|v: V| keys_distinct(#[trigger] s.update(0, (s[0].0, v))) by {
                let t = s.update(0, (s[0].0, v));
                assert forall|a: int, b: int| 0 <= a < t.len() && 0 <= b < t.len() && a != b implies #[trigger] t[a].0
                    != #[trigger] t[b].0 by {
                    assert(t[a].0 == s[a].0);
                    assert(t[b].0 == s[b].0);
                }
            }
        }
        &mut cache.entries[0].1
    }
}

} // verus!
