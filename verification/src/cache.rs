//! A bounded least-recently-used cache. Entries are kept in recency order:
//! the front is the least recently used, the back the most recently used.
#![verifier::loop_isolation(false)]

use vstd::prelude::*;

use crate::text::str_eq;

verus! {

broadcast use vstd::seq_lib::group_seq_properties;

/// Keys the cache can compare and copy, by their view.
pub trait CacheKey: View + Sized {
    /// Do the two keys denote the same key?
    fn same_key(&self, other: &Self) -> (res: bool)
        ensures
            res == (self@ == other@);

    /// A copy of the key.
    fn copy_key(&self) -> (res: Self)
        ensures
            res@ == self@;
}

impl CacheKey for String {
    fn same_key(&self, other: &Self) -> (res: bool) {
        str_eq(self.as_str(), other.as_str())
    }

    fn copy_key(&self) -> (res: Self) {
        self.clone()
    }
}

impl CacheKey for u64 {
    fn same_key(&self, other: &Self) -> (res: bool) {
        *self == *other
    }

    fn copy_key(&self) -> (res: Self) {
        *self
    }
}

// ─── Model ───────────────────────────────────────────────────────

/// The position of key `k` in the entries, if present.
pub open spec fn key_index<KV, V>(m: Seq<(KV, V)>, k: KV) -> Option<int> {
    if exists|i: int| 0 <= i < m.len() && m[i].0 == k {
        Some(choose|i: int| 0 <= i < m.len() && m[i].0 == k)
    } else {
        None
    }
}

/// No key occurs twice.
pub open spec fn keys_distinct<KV, V>(m: Seq<(KV, V)>) -> bool {
    forall|i: int, j: int| 0 <= i < j < m.len() ==> m[i].0 != m[j].0
}

/// The value stored under `k`, if any.
pub open spec fn spec_lookup<KV, V>(m: Seq<(KV, V)>, k: KV) -> Option<V> {
    match key_index(m, k) {
        Some(i) => Some(m[i].1),
        None => None,
    }
}

/// The entries with the one at position `i` removed.
pub open spec fn without<KV, V>(m: Seq<(KV, V)>, i: int) -> Seq<(KV, V)> {
    m.take(i) + m.skip(i + 1)
}

/// The entries after reading `k`: a present key moves to the back.
pub open spec fn spec_touch<KV, V>(m: Seq<(KV, V)>, k: KV) -> Seq<(KV, V)> {
    match key_index(m, k) {
        Some(i) => without(m, i).push(m[i]),
        None => m,
    }
}

/// The entries after inserting `(k, v)` into a cache bounded by `max`: an
/// existing entry for `k` is replaced and moves to the back; a new key in a
/// full cache evicts the front (least recently used) entry. A cache bounded
/// by zero stores nothing.
pub open spec fn spec_insert<KV, V>(m: Seq<(KV, V)>, max: nat, k: KV, v: V) -> Seq<(KV, V)> {
    if max == 0 {
        m
    } else {
        match key_index(m, k) {
            Some(i) => without(m, i).push((k, v)),
            None => if m.len() >= max {
                m.drop_first().push((k, v))
            } else {
                m.push((k, v))
            },
        }
    }
}

/// The entries after removing `k`.
pub open spec fn spec_remove<KV, V>(m: Seq<(KV, V)>, k: KV) -> Seq<(KV, V)> {
    match key_index(m, k) {
        Some(i) => without(m, i),
        None => m,
    }
}

pub proof fn lemma_key_index<KV, V>(m: Seq<(KV, V)>, k: KV, i: int)
    requires
        keys_distinct(m),
        0 <= i < m.len(),
        m[i].0 == k,
    ensures
        key_index(m, k) == Some(i),
{
    let j = choose|j: int| 0 <= j < m.len() && m[j].0 == k;
    assert(0 <= j < m.len() && m[j].0 == k);
    if j < i {
        assert(m[j].0 != m[i].0);
    }
    if i < j {
        assert(m[i].0 != m[j].0);
    }
}

pub proof fn lemma_without_distinct<KV, V>(m: Seq<(KV, V)>, i: int)
    requires
        keys_distinct(m),
        0 <= i < m.len(),
    ensures
        keys_distinct(without(m, i)),
        forall|j: int| 0 <= j < without(m, i).len() ==> #[trigger] without(m, i)[j].0 != m[i].0,
        without(m, i).len() == m.len() - 1,
{
    let w = without(m, i);
    assert forall|a: int, b: int| 0 <= a < b < w.len() implies w[a].0 != w[b].0 by {
        let ia = if a < i { a } else { a + 1 };
        let ib = if b < i { b } else { b + 1 };
        assert(w[a] == m[ia]);
        assert(w[b] == m[ib]);
    }
    assert forall|j: int| 0 <= j < w.len() implies #[trigger] w[j].0 != m[i].0 by {
        let ij = if j < i { j } else { j + 1 };
        assert(w[j] == m[ij]);
    }
}

pub proof fn lemma_push_new_distinct<KV, V>(m: Seq<(KV, V)>, e: (KV, V))
    requires
        keys_distinct(m),
        forall|j: int| 0 <= j < m.len() ==> #[trigger] m[j].0 != e.0,
    ensures
        keys_distinct(m.push(e)),
{
    let w = m.push(e);
    assert forall|a: int, b: int| 0 <= a < b < w.len() implies w[a].0 != w[b].0 by {
        assert(w[a] == m[a]);
        if b < m.len() {
            assert(w[b] == m[b]);
        }
    }
}

/// Reading back a key right after inserting it gives the inserted value,
/// and the cache never holds more entries than its bound.
pub proof fn lemma_insert_then_lookup<KV, V>(m: Seq<(KV, V)>, max: nat, k: KV, v: V)
    requires
        keys_distinct(m),
        m.len() <= max,
        max > 0,
    ensures
        spec_lookup(spec_insert(m, max, k, v), k) == Some(v),
        keys_distinct(spec_insert(m, max, k, v)),
        spec_insert(m, max, k, v).len() <= max,
{
    let r = spec_insert(m, max, k, v);
    match key_index(m, k) {
        Some(i) => {
            lemma_key_index(m, k, i);
            lemma_without_distinct(m, i);
            lemma_push_new_distinct(without(m, i), (k, v));
        },
        None => {
            if m.len() >= max {
                let d = m.drop_first();
                assert forall|a: int, b: int| 0 <= a < b < d.len() implies d[a].0 != d[b].0 by {
                    assert(d[a] == m[a + 1]);
                    assert(d[b] == m[b + 1]);
                }
                assert forall|j: int| 0 <= j < d.len() implies #[trigger] d[j].0 != k by {
                    assert(d[j] == m[j + 1]);
                }
                lemma_push_new_distinct(d, (k, v));
            } else {
                assert forall|j: int| 0 <= j < m.len() implies #[trigger] m[j].0 != k by {}
                lemma_push_new_distinct(m, (k, v));
            }
        },
    }
    lemma_key_index(r, k, r.len() - 1);
}

/// Inserting one key leaves the value of every other key that stays in the
/// cache unchanged; a present key is only dropped by eviction of the least
/// recently used entry.
pub proof fn lemma_insert_keeps_others<KV, V>(m: Seq<(KV, V)>, max: nat, k: KV, v: V, other: KV)
    requires
        keys_distinct(m),
        m.len() <= max,
        max > 0,
        other != k,
        spec_lookup(m, other) is Some,
        !(key_index(m, k) is None && m.len() >= max && m[0].0 == other),
    ensures
        spec_lookup(spec_insert(m, max, k, v), other) == spec_lookup(m, other),
{
    lemma_insert_then_lookup(m, max, k, v);
    let r = spec_insert(m, max, k, v);
    let io = key_index(m, other).unwrap();
    lemma_key_index(m, other, io);
    match key_index(m, k) {
        Some(i) => {
            let w = without(m, i);
            let j = if io < i { io } else { io - 1 };
            assert(w[j] == m[io]);
            assert(r[j] == m[io]);
            lemma_key_index(r, other, j);
        },
        None => {
            if m.len() >= max {
                assert(io > 0);
                assert(r[io - 1] == m[io]);
                lemma_key_index(r, other, io - 1);
            } else {
                assert(r[io] == m[io]);
                lemma_key_index(r, other, io);
            }
        },
    }
}

// ─── The cache ───────────────────────────────────────────────────

/// A least-recently-used cache holding at most `max_entries` entries.
pub struct LruCache<K, V> {
    /// Entries in recency order; keys are distinct.
    entries: Vec<(K, V)>,
    max_entries: usize,
}

impl<K: CacheKey, V> View for LruCache<K, V> {
    type V = Seq<(K::V, V)>;

    closed spec fn view(&self) -> Seq<(K::V, V)> {
        self.entries@.map_values(|e: (K, V)| (e.0@, e.1))
    }
}

impl<K: CacheKey, V> LruCache<K, V> {
    /// Keys are distinct and the bound is respected.
    pub closed spec fn wf(&self) -> bool {
        &&& keys_distinct(self@)
        &&& self@.len() <= self.max_entries
    }

    /// The bound the cache was made with.
    pub closed spec fn capacity(&self) -> nat {
        self.max_entries as nat
    }

    /// A cache never holds more entries than it was made for (none when
    /// made for none), and never two entries under one key.
    pub proof fn lemma_len_bounded(&self)
        requires
            self.wf(),
        ensures
            self@.len() <= self.capacity(),
            self.capacity() == 0 ==> self@.len() == 0,
            keys_distinct(self@),
    {
    }

    /// An empty cache holding at most `max_entries` entries.
    pub fn new(max_entries: usize) -> (res: Self)
        ensures
            res.wf(),
            res@ == Seq::<(K::V, V)>::empty(),
            res.capacity() == max_entries,
    {
        let res = LruCache { entries: Vec::new(), max_entries };
        assert(res@ =~= Seq::<(K::V, V)>::empty());
        res
    }

    /// The position of `key`, if present.
    fn position(&self, key: &K) -> (res: Option<usize>)
        requires
            self.wf(),
        ensures
            match res {
                Some(i) => key_index(self@, key@) == Some(i as int),
                None => key_index(self@, key@) is None,
            },
    {
        let mut i: usize = 0;
        while i < self.entries.len()
            invariant
                i <= self.entries@.len(),
                forall|j: int| 0 <= j < i ==> self@[j].0 != key@,
            decreases self.entries@.len() - i,
        {
            if self.entries[i].0.same_key(key) {
                proof {
                    lemma_key_index(self@, key@, i as int);
                }
                return Some(i);
            }
            i += 1;
        }
        None
    }

    /// Look up a key; a hit becomes the most recently used entry.
    pub fn get(&mut self, key: &K) -> (res: Option<&V>)
        requires
            old(self).wf(),
        ensures
            final(self).wf(),
            final(self).capacity() == old(self).capacity(),
            final(self)@ == spec_touch(old(self)@, key@),
            match res {
                Some(v) => spec_lookup(old(self)@, key@) == Some(*v),
                None => spec_lookup(old(self)@, key@) is None,
            },
    {
        match self.position(key) {
            Some(i) => {
                let ghost m = self@;
                proof {
                    lemma_without_distinct(m, i as int);
                    lemma_push_new_distinct(without(m, i as int), m[i as int]);
                }
                let e = self.entries.remove(i);
                self.entries.push(e);
                assert(self@ =~= without(m, i as int).push(m[i as int]));
                let last = self.entries.len() - 1;
                Some(&self.entries[last].1)
            },
            None => None,
        }
    }

    /// Insert a value; a present key is replaced, and a new key in a full
    /// cache evicts the least recently used entry.
    pub fn insert(&mut self, key: K, value: V)
        requires
            old(self).wf(),
        ensures
            final(self).wf(),
            final(self).capacity() == old(self).capacity(),
            final(self)@ == spec_insert(old(self)@, old(self).capacity(), key@, value),
    {
        if self.max_entries == 0 {
            return ;
        }
        let ghost m = self@;
        proof {
            lemma_insert_then_lookup(m, self.max_entries as nat, key@, value);
        }
        match self.position(&key) {
            Some(i) => {
                self.entries.remove(i);
                assert(self@ =~= without(m, i as int));
            },
            None => {
                if self.entries.len() >= self.max_entries {
                    self.entries.remove(0);
                    assert(self@ =~= m.drop_first());
                }
            },
        }
        let ghost mid = self@;
        self.entries.push((key, value));
        assert(self@ =~= mid.push((key@, value)));
    }

    /// Remove a key if present.
    pub fn remove(&mut self, key: &K)
        requires
            old(self).wf(),
        ensures
            final(self).wf(),
            final(self).capacity() == old(self).capacity(),
            final(self)@ == spec_remove(old(self)@, key@),
    {
        match self.position(key) {
            Some(i) => {
                let ghost m = self@;
                proof {
                    lemma_without_distinct(m, i as int);
                }
                self.entries.remove(i);
                assert(self@ =~= without(m, i as int));
            },
            None => {},
        }
    }

    /// The number of entries.
    pub fn len(&self) -> (res: usize)
        ensures
            res == self@.len(),
    {
        self.entries.len()
    }

    /// Whether the cache holds no entries.
    pub fn is_empty(&self) -> (res: bool)
        ensures
            res == (self@.len() == 0),
    {
        self.entries.len() == 0
    }

    /// Remove every entry.
    pub fn clear(&mut self)
        ensures
            final(self).wf(),
            final(self).capacity() == old(self).capacity(),
            final(self)@ == Seq::<(K::V, V)>::empty(),
    {
        self.entries.clear();
        assert(self@ =~= Seq::<(K::V, V)>::empty());
    }
}

} // verus!
