//! Least-recently-used cache of parsed lines, keyed by line index.

use std::collections::{HashMap, VecDeque};

use vstd::prelude::*;

use crate::line::Line;

verus! {

broadcast use vstd::std_specs::hash::group_hash_axioms;

/// `order` with `index` moved to the back.
pub open spec fn touched(order: Seq<usize>, index: usize) -> Seq<usize> {
    order.remove(order.index_of(index)).push(index)
}

/// The cached lines and access order after caching `line` at `index`: a
/// cached index is updated and becomes the most recent; a new one is added as
/// the most recent, after the least recently used line is evicted if the
/// cache is full.
pub open spec fn after_insert(
    entries: Map<usize, Line>,
    order: Seq<usize>,
    capacity: usize,
    index: usize,
    line: Line,
) -> (Map<usize, Line>, Seq<usize>) {
    if entries.contains_key(index) {
        (entries.insert(index, line), touched(order, index))
    } else if order.len() >= capacity && order.len() > 0 {
        (entries.remove(order[0]).insert(index, line), order.drop_first().push(index))
    } else {
        (entries.insert(index, line), order.push(index))
    }
}

/// A line just cached is there and is the most recently used.
pub proof fn law_insert_then_get(
    entries: Map<usize, Line>,
    order: Seq<usize>,
    capacity: usize,
    index: usize,
    line: Line,
)
    ensures
        after_insert(entries, order, capacity, index, line).0.contains_key(index),
        after_insert(entries, order, capacity, index, line).0[index] == line,
        after_insert(entries, order, capacity, index, line).1.last() == index,
{
}

/// Caching a new line in a full cache evicts the least recently used line,
/// and only that one.
pub proof fn law_full_cache_evicts_the_oldest(
    entries: Map<usize, Line>,
    order: Seq<usize>,
    capacity: usize,
    index: usize,
    line: Line,
)
    requires
        !entries.contains_key(index),
        order.len() >= capacity,
        order.len() > 0,
        entries.contains_key(order[0]),
    ensures
        !after_insert(entries, order, capacity, index, line).0.contains_key(order[0]),
        forall|k: usize|
            k != order[0] && k != index ==> (after_insert(entries, order, capacity, index, line).0.contains_key(k)
                <==> entries.contains_key(k)),
{
}

/// The cache never holds more lines than its capacity (or one, for a
/// capacity of zero): caching keeps that bound.
pub proof fn law_insert_keeps_the_bound(
    entries: Map<usize, Line>,
    order: Seq<usize>,
    capacity: usize,
    index: usize,
    line: Line,
)
    requires
        order.no_duplicates(),
        forall|k: usize| entries.contains_key(k) <==> order.contains(k),
        order.len() <= if capacity == 0 {
            1
        } else {
            capacity as int
        },
    ensures
        after_insert(entries, order, capacity, index, line).1.len() <= if capacity == 0 {
            1
        } else {
            capacity as int
        },
{
    if entries.contains_key(index) {
        assert(order.contains(index));
        let c = order.index_of(index);
        assert(touched(order, index).len() == order.len());
    }
}

/// A call on the cache.
pub enum CacheCall {
    Get(usize),
    Insert(usize, Line),
}

/// The most lines a cache of `capacity` holds: the capacity, and one for a
/// capacity of zero, as an insert always keeps the line it inserts.
pub open spec fn cache_bound(capacity: usize) -> int {
    if capacity == 0 {
        1
    } else {
        capacity as int
    }
}

/// The cached lines and access order after looking up `index`: a cached
/// index becomes the most recently used.
pub open spec fn after_get(entries: Map<usize, Line>, order: Seq<usize>, index: usize) -> (
    Map<usize, Line>,
    Seq<usize>,
) {
    if entries.contains_key(index) {
        (entries, touched(order, index))
    } else {
        (entries, order)
    }
}

/// The cached lines and access order of a new cache of `capacity` after
/// `calls`.
pub open spec fn after_calls(capacity: usize, calls: Seq<CacheCall>) -> (Map<usize, Line>, Seq<usize>)
    decreases calls.len(),
{
    if calls.len() == 0 {
        (Map::empty(), Seq::empty())
    } else {
        let (entries, order) = after_calls(capacity, calls.drop_last());
        match calls.last() {
            CacheCall::Get(index) => after_get(entries, order, index),
            CacheCall::Insert(index, line) => after_insert(entries, order, capacity, index, line),
        }
    }
}

/// The access order lists each cached index once, and no more than the
/// cache holds.
pub open spec fn cache_ok(entries: Map<usize, Line>, order: Seq<usize>, capacity: usize) -> bool {
    &&& order.no_duplicates()
    &&& forall|k: usize| entries.contains_key(k) <==> order.contains(k)
    &&& order.len() <= cache_bound(capacity)
}

/// Moving a listed index to the back keeps the order free of duplicates and
/// lists the same indices.
proof fn lemma_touched_ok(order: Seq<usize>, index: usize)
    requires
        order.no_duplicates(),
        order.contains(index),
    ensures
        touched(order, index).no_duplicates(),
        touched(order, index).len() == order.len(),
        forall|x: usize| touched(order, index).contains(x) <==> order.contains(x),
{
    let k = order.index_of(index);
    assert(0 <= k < order.len() && order[k] == index);
    let t = touched(order, index);
    let n = order.len() as int;
    assert(t.len() == n);
    assert forall|i: int| 0 <= i < n - 1 implies #[trigger] t[i] == order[if i < k { i } else { i + 1 }] by {}
    assert(t[n - 1] == index);
    assert forall|i: int, j: int| 0 <= i < t.len() && 0 <= j < t.len() && i != j implies t[i] != t[j] by {
        if i < n - 1 && j < n - 1 {
            assert(t[i] == order[if i < k { i } else { i + 1 }]);
            assert(t[j] == order[if j < k { j } else { j + 1 }]);
        } else if i < n - 1 {
            assert(t[i] == order[if i < k { i } else { i + 1 }]);
        } else if j < n - 1 {
            assert(t[j] == order[if j < k { j } else { j + 1 }]);
        }
    }
    assert forall|x: usize| t.contains(x) <==> order.contains(x) by {
        if order.contains(x) {
            let j = choose|j: int| 0 <= j < n && order[j] == x;
            if j == k {
                assert(t[n - 1] == x);
            } else if j < k {
                assert(t[j] == x);
            } else {
                assert(t[j - 1] == x);
            }
        }
        if t.contains(x) {
            let j = choose|j: int| 0 <= j < n && t[j] == x;
            if j == n - 1 {
                assert(order[k] == x);
            } else {
                assert(order[if j < k { j } else { j + 1 }] == x);
            }
        }
    }
}

/// Looking up a line keeps the cache well formed.
proof fn lemma_after_get_ok(entries: Map<usize, Line>, order: Seq<usize>, capacity: usize, index: usize)
    requires
        cache_ok(entries, order, capacity),
    ensures
        cache_ok(after_get(entries, order, index).0, after_get(entries, order, index).1, capacity),
        after_get(entries, order, index).0 == entries,
{
    if entries.contains_key(index) {
        assert(entries.contains_key(index) <==> order.contains(index));
        lemma_touched_ok(order, index);
        assert forall|x: usize| entries.contains_key(x) <==> touched(order, index).contains(x) by {
            assert(entries.contains_key(x) <==> order.contains(x));
        }
    }
}

/// Caching a line keeps the cache well formed.
proof fn lemma_after_insert_ok(
    entries: Map<usize, Line>,
    order: Seq<usize>,
    capacity: usize,
    index: usize,
    line: Line,
)
    requires
        cache_ok(entries, order, capacity),
    ensures
        cache_ok(
            after_insert(entries, order, capacity, index, line).0,
            after_insert(entries, order, capacity, index, line).1,
            capacity,
        ),
{
    let (e2, o2) = after_insert(entries, order, capacity, index, line);
    if entries.contains_key(index) {
        assert(entries.contains_key(index) <==> order.contains(index));
        lemma_touched_ok(order, index);
        assert forall|k: usize| e2.contains_key(k) <==> o2.contains(k) by {
            assert(entries.contains_key(k) <==> order.contains(k));
        }
    } else if order.len() >= capacity && order.len() > 0 {
        let d = order.drop_first();
        assert(entries.contains_key(index) <==> order.contains(index));
        assert(o2 == d.push(index));
        assert forall|i: int, j: int| 0 <= i < o2.len() && 0 <= j < o2.len() && i != j implies o2[i] != o2[j] by {
            if i < d.len() && j < d.len() {
                assert(o2[i] == order[i + 1] && o2[j] == order[j + 1]);
            } else if i < d.len() {
                assert(o2[i] == order[i + 1]);
            } else if j < d.len() {
                assert(o2[j] == order[j + 1]);
            }
        }
        assert forall|k: usize| e2.contains_key(k) <==> o2.contains(k) by {
            assert(entries.contains_key(k) <==> order.contains(k));
            if k != index {
                if o2.contains(k) {
                    let j = choose|j: int| 0 <= j < o2.len() && o2[j] == k;
                    assert(j < d.len());
                    assert(order[j + 1] == k);
                    assert(order[0] != order[j + 1]);
                }
                if entries.contains_key(k) && k != order[0] {
                    let j = choose|j: int| 0 <= j < order.len() && order[j] == k;
                    assert(j != 0);
                    assert(o2[j - 1] == k);
                }
            } else {
                assert(o2[o2.len() - 1] == index);
            }
        }
    } else {
        assert(entries.contains_key(index) <==> order.contains(index));
        assert forall|i: int, j: int| 0 <= i < o2.len() && 0 <= j < o2.len() && i != j implies o2[i] != o2[j] by {
            if i < order.len() && j < order.len() {
                assert(o2[i] == order[i] && o2[j] == order[j]);
            } else if i < order.len() {
                assert(o2[i] == order[i]);
            } else if j < order.len() {
                assert(o2[j] == order[j]);
            }
        }
        assert forall|k: usize| e2.contains_key(k) <==> o2.contains(k) by {
            assert(entries.contains_key(k) <==> order.contains(k));
            if k != index {
                if o2.contains(k) {
                    let j = choose|j: int| 0 <= j < o2.len() && o2[j] == k;
                    assert(j < order.len());
                    assert(order[j] == k);
                }
                if entries.contains_key(k) {
                    let j = choose|j: int| 0 <= j < order.len() && order[j] == k;
                    assert(o2[j] == k);
                }
            } else {
                assert(o2[o2.len() - 1] == index);
            }
        }
    }
}

/// Any calls on a new cache keep it well formed.
proof fn lemma_after_calls_ok(capacity: usize, calls: Seq<CacheCall>)
    ensures
        cache_ok(after_calls(capacity, calls).0, after_calls(capacity, calls).1, capacity),
    decreases calls.len(),
{
    if calls.len() == 0 {
        let (e, o) = after_calls(capacity, calls);
        assert forall|k: usize| e.contains_key(k) <==> o.contains(k) by {}
    } else {
        lemma_after_calls_ok(capacity, calls.drop_last());
        let (e, o) = after_calls(capacity, calls.drop_last());
        match calls.last() {
            CacheCall::Get(index) => lemma_after_get_ok(e, o, capacity, index),
            CacheCall::Insert(index, line) => lemma_after_insert_ok(e, o, capacity, index, line),
        }
    }
}

/// A new cache is empty; after any calls it holds no more lines than its
/// capacity (one for a capacity of zero); and a line just cached is there.
pub proof fn law_calls_keep_the_cache_bounded(capacity: usize, calls: Seq<CacheCall>)
    ensures
        calls.len() == 0 ==> after_calls(capacity, calls).0 == Map::<usize, Line>::empty(),
        after_calls(capacity, calls).0.dom().finite(),
        after_calls(capacity, calls).0.dom().len() <= cache_bound(capacity),
        calls.len() > 0 ==> (calls.last() matches CacheCall::Insert(index, line) ==> after_calls(
            capacity,
            calls,
        ).0.contains_key(index) && after_calls(capacity, calls).0[index] == line),
{
    lemma_after_calls_ok(capacity, calls);
    let (e, o) = after_calls(capacity, calls);
    assert(e.dom() =~= o.to_set());
    o.unique_seq_to_set();
}

/// LRU cache of parsed lines, keyed by line index.
pub struct LineCache {
    entries: HashMap<usize, Line>,
    /// Access order: front = oldest, back = most recently used.
    order: VecDeque<usize>,
    capacity: usize,
}

impl LineCache {
    /// The cached lines.
    pub closed spec fn spec_entries(&self) -> Map<usize, Line> {
        self.entries@
    }

    /// The cached indices from the least to the most recently used.
    pub closed spec fn spec_order(&self) -> Seq<usize> {
        self.order@
    }

    pub closed spec fn spec_capacity(&self) -> usize {
        self.capacity
    }

    /// Each cached index occurs once in the access order, which lists exactly
    /// the cached indices, and no more are cached than the capacity allows
    /// (one at least, as an insert always keeps the line it inserts).
    pub closed spec fn wf(&self) -> bool {
        &&& self.order@.no_duplicates()
        &&& forall|k: usize| self.entries@.contains_key(k) <==> self.order@.contains(k)
        &&& self.order@.len() <= if self.capacity == 0 {
            1
        } else {
            self.capacity as int
        }
    }

    /// No more lines are cached than the capacity allows (one at least).
    pub open spec fn within_capacity(&self) -> bool {
        &&& self.spec_entries().dom().finite()
        &&& self.spec_entries().dom().len() <= if self.spec_capacity() == 0 {
            1
        } else {
            self.spec_capacity() as int
        }
    }

    /// A well formed cache is within its capacity: it caches as many lines as
    /// its access order lists.
    proof fn lemma_within_capacity(&self)
        requires
            self.wf(),
        ensures
            self.within_capacity(),
    {
        assert(self.entries@.dom() =~= self.order@.to_set());
        self.order@.unique_seq_to_set();
    }

    /// An empty cache holding at most `capacity` lines.
    pub fn new(capacity: usize) -> (r: LineCache)
        ensures
            r.wf(),
            r.within_capacity(),
            r.spec_entries() == Map::<usize, Line>::empty(),
            r.spec_order() == Seq::<usize>::empty(),
            r.spec_capacity() == capacity,
    {
        let r = LineCache {
            entries: HashMap::with_capacity(capacity),
            order: VecDeque::with_capacity(capacity),
            capacity,
        };
        proof {
            assert forall|k: usize| r.entries@.contains_key(k) <==> r.order@.contains(k) by {}
            r.lemma_within_capacity();
        }
        r
    }

    /// The cached line at `index`, which becomes the most recently used.
    pub fn get(&mut self, index: usize) -> (r: Option<&Line>)
        requires
            old(self).wf(),
        ensures
            final(self).wf(),
            final(self).within_capacity(),
            final(self).spec_entries() == old(self).spec_entries(),
            final(self).spec_capacity() == old(self).spec_capacity(),
            old(self).spec_entries().contains_key(index) ==> r == Some(&old(self).spec_entries()[index])
                && final(self).spec_order() == touched(old(self).spec_order(), index),
            !old(self).spec_entries().contains_key(index) ==> r is None && final(self).spec_order()
                == old(self).spec_order(),
            (final(self).spec_entries(), final(self).spec_order()) == after_get(
                old(self).spec_entries(),
                old(self).spec_order(),
                index,
            ),
    {
        proof {
            self.lemma_within_capacity();
        }
        if self.entries.contains_key(&index) {
            self.touch(index);
            proof {
                self.lemma_within_capacity();
            }
            self.entries.get(&index)
        } else {
            None
        }
    }

    /// Cache `line` at `index`, evicting the least recently used line when the
    /// cache is full and `index` is new. Returns the cached line.
    pub fn insert(&mut self, index: usize, line: Line) -> (r: &Line)
        requires
            old(self).wf(),
        ensures
            final(self).wf(),
            final(self).within_capacity(),
            *r == line,
            final(self).spec_capacity() == old(self).spec_capacity(),
            (final(self).spec_entries(), final(self).spec_order()) == after_insert(
                old(self).spec_entries(),
                old(self).spec_order(),
                old(self).spec_capacity(),
                index,
                line,
            ),
    {
        if self.entries.contains_key(&index) {
            self.entries.insert(index, line);
            self.touch(index);
        } else {
            if self.order.len() >= self.capacity {
                self.evict_oldest();
            }
            let ghost mid_order = self.order@;
            let ghost mid_entries = self.entries@;
            assert(!mid_entries.contains_key(index));
            self.entries.insert(index, line);
            self.order.push_back(index);
            proof {
                assert(self.order@.drop_last() =~= mid_order);
                assert(!mid_order.contains(index));
                assert forall|k: usize| self.entries@.contains_key(k) <==> self.order@.contains(k) by {
                    if k == index {
                        assert(self.order@[self.order@.len() - 1] == k);
                    } else {
                        if self.order@.contains(k) {
                            let j = choose|j: int| 0 <= j < self.order@.len() && self.order@[j] == k;
                            assert(j < self.order@.len() - 1);
                            assert(mid_order[j] == k);
                        }
                        if mid_order.contains(k) {
                            let j = choose|j: int| 0 <= j < mid_order.len() && mid_order[j] == k;
                            assert(self.order@[j] == k);
                        }
                    }
                }
                assert(self.order@.no_duplicates());
            }
        }
        proof {
            self.lemma_within_capacity();
        }
        self.entries.get(&index).unwrap()
    }

    /// Move `index`, which is cached, to the back of the access order.
    fn touch(&mut self, index: usize)
        requires
            old(self).wf(),
            old(self).entries@.contains_key(index),
        ensures
            final(self).wf(),
            final(self).entries@ == old(self).entries@,
            final(self).capacity == old(self).capacity,
            final(self).order@ == touched(old(self).order@, index),
    {
        let ghost order = self.order@;
        let mut k: usize = 0;
        while k < self.order.len() && self.order[k] != index
            invariant
                self.order@ == order,
                order.contains(index),
                k <= order.len(),
                forall|j: int| 0 <= j < k ==> order[j] != index,
            decreases order.len() - k,
        {
            k += 1;
        }
        proof {
            assert(k < order.len());
            assert(order.index_of(index) == k) by {
                let c = order.index_of(index);
                assert(0 <= c < order.len() && order[c] == index);
            }
        }
        self.order.remove(k);
        self.order.push_back(index);
        proof {
            assert(self.order@ == touched(order, index));
            assert(self.order@.no_duplicates()) by {
                assert forall|i: int, j: int|
                    0 <= i < self.order@.len() && 0 <= j < self.order@.len() && i != j implies self.order@[i]
                    != self.order@[j] by {
                    let n = order.len() as int;
                    let src = |x: int| if x < k { x } else { x + 1 };
                    if i < n - 1 && j < n - 1 {
                        assert(self.order@[i] == order[src(i)]);
                        assert(self.order@[j] == order[src(j)]);
                    } else if i < n - 1 {
                        assert(self.order@[i] == order[src(i)]);
                    } else if j < n - 1 {
                        assert(self.order@[j] == order[src(j)]);
                    }
                }
            }
            assert forall|x: usize| self.entries@.contains_key(x) <==> self.order@.contains(x) by {
                if order.contains(x) && x != index {
                    let j = choose|j: int| 0 <= j < order.len() && order[j] == x;
                    if j < k {
                        assert(self.order@[j] == x);
                    } else {
                        assert(j != k);
                        assert(self.order@[j - 1] == x);
                    }
                }
                if x == index {
                    assert(self.order@[self.order@.len() - 1] == x);
                }
                if self.order@.contains(x) && x != index {
                    let j = choose|j: int| 0 <= j < self.order@.len() && self.order@[j] == x;
                    if j < k {
                        assert(order[j] == x);
                    } else {
                        assert(order[j + 1] == x);
                    }
                }
            }
        }
    }

    /// Drop the least recently used line, if any.
    fn evict_oldest(&mut self)
        requires
            old(self).wf(),
        ensures
            old(self).order@.len() > 0 ==> final(self).entries@ == old(self).entries@.remove(
                old(self).order@[0],
            ) && final(self).order@ == old(self).order@.drop_first(),
            old(self).order@.len() == 0 ==> final(self).entries@ == old(self).entries@
                && final(self).order@ == old(self).order@,
            final(self).capacity == old(self).capacity,
            final(self).order@.no_duplicates(),
            forall|k: usize| final(self).entries@.contains_key(k) <==> final(self).order@.contains(k),
    {
        let ghost order = self.order@;
        match self.order.pop_front() {
            Some(oldest) => {
                self.entries.remove(&oldest);
                proof {
                    assert(self.order@ =~= order.drop_first());
                    assert forall|k: usize| self.entries@.contains_key(k) <==> self.order@.contains(k) by {
                        if self.order@.contains(k) {
                            let j = choose|j: int| 0 <= j < self.order@.len() && self.order@[j] == k;
                            assert(order[j + 1] == k);
                            assert(order[0] != order[j + 1]);
                        }
                        if order.contains(k) && k != oldest {
                            let j = choose|j: int| 0 <= j < order.len() && order[j] == k;
                            assert(j != 0);
                            assert(self.order@[j - 1] == k);
                        }
                    }
                }
            },
            None => {},
        }
    }
}

} // verus!
