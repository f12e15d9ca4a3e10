//! The in-process cache store: a bounded memo of settled responses keyed by
//! request fingerprint, with get, put and remove, and the lookup laws the
//! fetch driver's caching guarantees rest on.
use crate::response::{FetchResponse, ResponseModel};
use vstd::prelude::*;

verus! {

/// One stored entry.
pub struct CacheSlot {
    pub key: String,
    pub value: FetchResponse,
}

impl View for CacheSlot {
    type V = (Seq<char>, ResponseModel);

    open spec fn view(&self) -> (Seq<char>, ResponseModel) {
        (self.key@, self.value@)
    }
}

/// The value stored under `k`: the first (and, with unique keys, only)
/// entry that carries it.
pub open spec fn cache_lookup(m: Seq<(Seq<char>, ResponseModel)>, k: Seq<char>) -> Option<
    ResponseModel,
>
    decreases m.len(),
{
    if m.len() == 0 {
        None
    } else if m[0].0 == k {
        Some(m[0].1)
    } else {
        cache_lookup(m.skip(1), k)
    }
}

/// Whether an entry is stored under `k`.
pub open spec fn cache_has(m: Seq<(Seq<char>, ResponseModel)>, k: Seq<char>) -> bool {
    cache_lookup(m, k) is Some
}

/// The store without the entry under `k` (the first such, which unique keys
/// make the only one).
pub open spec fn cache_remove_model(
    m: Seq<(Seq<char>, ResponseModel)>,
    k: Seq<char>,
) -> Seq<(Seq<char>, ResponseModel)>
    decreases m.len(),
{
    if m.len() == 0 {
        m
    } else if m[0].0 == k {
        m.skip(1)
    } else {
        seq![m[0]] + cache_remove_model(m.skip(1), k)
    }
}

/// The store after writing `v` under `k`: any previous entry under `k`
/// leaves, the oldest entry leaves when the store is full, and the new entry
/// joins at the young end.
pub open spec fn cache_put_model(
    m: Seq<(Seq<char>, ResponseModel)>,
    cap: int,
    k: Seq<char>,
    v: ResponseModel,
) -> Seq<(Seq<char>, ResponseModel)> {
    let m1 = cache_remove_model(m, k);
    let m2 = if m1.len() >= cap {
        m1.skip(1)
    } else {
        m1
    };
    m2.push((k, v))
}

/// No two entries share a key.
pub open spec fn keys_unique(m: Seq<(Seq<char>, ResponseModel)>) -> bool {
    forall|i: int, j: int| 0 <= i < j < m.len() ==> m[i].0 != m[j].0
}

/// Looking up `k` after removing it misses; removal keeps keys unique and
/// never grows the store.
pub proof fn lemma_remove_props(m: Seq<(Seq<char>, ResponseModel)>, k: Seq<char>)
    requires
        keys_unique(m),
    ensures
        !cache_has(cache_remove_model(m, k), k),
        keys_unique(cache_remove_model(m, k)),
        cache_remove_model(m, k).len() <= m.len(),
    decreases m.len(),
{
    let r = cache_remove_model(m, k);
    if m.len() == 0 {
    } else if m[0].0 == k {
        assert(r == m.skip(1));
        lemma_skip_unique(m);
        lemma_absent_lookup(m.skip(1), k);
    } else {
        lemma_skip_unique(m);
        lemma_remove_props(m.skip(1), k);
        let rr = cache_remove_model(m.skip(1), k);
        assert(r == seq![m[0]] + rr);
        assert forall|i: int, j: int| 0 <= i < j < r.len() implies r[i].0 != r[j].0 by {
            if i == 0 {
                lemma_remove_keeps_keys(m.skip(1), k, j - 1);
            } else {
                lemma_remove_keeps_keys(m.skip(1), k, i - 1);
                lemma_remove_keeps_keys(m.skip(1), k, j - 1);
            }
        }
        if cache_has(r, k) {
            assert(r[0] == m[0]);
            assert(r[0].0 != k);
            lemma_lookup_skip(r, k);
            assert(r.skip(1) =~= rr);
            assert(false);
        }
    }
}

/// Every key of the removed store was a key of the original, at some spot.
proof fn lemma_remove_keeps_keys(m: Seq<(Seq<char>, ResponseModel)>, k: Seq<char>, i: int)
    requires
        0 <= i < cache_remove_model(m, k).len(),
    ensures
        exists|j: int|
            0 <= j < m.len() && m[j] == #[trigger] cache_remove_model(m, k)[i],
    decreases m.len(),
{
    let r = cache_remove_model(m, k);
    if m.len() == 0 {
    } else if m[0].0 == k {
        assert(m[i + 1] == r[i]);
    } else {
        if i == 0 {
            assert(m[0] == r[0]);
        } else {
            lemma_remove_keeps_keys(m.skip(1), k, i - 1);
            let j0 = choose|j: int|
                0 <= j < m.skip(1).len() && m.skip(1)[j] == cache_remove_model(m.skip(1), k)[i - 1];
            assert(m[j0 + 1] == r[i]);
        }
    }
}

/// A key that no entry carries looks up to nothing.
pub proof fn lemma_absent_lookup(m: Seq<(Seq<char>, ResponseModel)>, k: Seq<char>)
    requires
        forall|i: int| 0 <= i < m.len() ==> (#[trigger] m[i]).0 != k,
    ensures
        !cache_has(m, k),
    decreases m.len(),
{
    if m.len() > 0 {
        assert(m[0].0 != k);
        assert forall|i: int| 0 <= i < m.skip(1).len() implies (#[trigger] m.skip(1)[i]).0 != k by {
            assert(m.skip(1)[i] == m[i + 1]);
        }
        lemma_absent_lookup(m.skip(1), k);
    }
}

/// When the first entry does not carry `k`, the lookup is the tail's.
proof fn lemma_lookup_skip(m: Seq<(Seq<char>, ResponseModel)>, k: Seq<char>)
    requires
        m.len() > 0,
        m[0].0 != k,
    ensures
        cache_lookup(m, k) == cache_lookup(m.skip(1), k),
{
}

/// Dropping the first entry keeps keys unique.
proof fn lemma_skip_unique(m: Seq<(Seq<char>, ResponseModel)>)
    requires
        keys_unique(m),
        m.len() > 0,
    ensures
        keys_unique(m.skip(1)),
{
    assert forall|i: int, j: int| 0 <= i < j < m.skip(1).len() implies m.skip(1)[i].0 != m.skip(
        1,
    )[j].0 by {
        assert(m.skip(1)[i] == m[i + 1] && m.skip(1)[j] == m[j + 1]);
    }
}

/// A key absent from a store is found at the young end after a push.
pub proof fn lemma_push_lookup(
    m: Seq<(Seq<char>, ResponseModel)>,
    k: Seq<char>,
    v: ResponseModel,
)
    requires
        !cache_has(m, k),
    ensures
        cache_lookup(m.push((k, v)), k) == Some(v),
    decreases m.len(),
{
    let p = m.push((k, v));
    if m.len() == 0 {
        assert(p[0] == (k, v));
    } else {
        assert(p[0] == m[0]);
        assert(m[0].0 != k);
        assert(p.skip(1) =~= m.skip(1).push((k, v)));
        lemma_push_lookup(m.skip(1), k, v);
    }
}

/// Idempotence of the store: what a put wrote, an immediate get under the
/// same fingerprint returns.
pub proof fn lemma_put_lookup(
    m: Seq<(Seq<char>, ResponseModel)>,
    cap: int,
    k: Seq<char>,
    v: ResponseModel,
)
    requires
        keys_unique(m),
        cap >= 1,
    ensures
        cache_lookup(cache_put_model(m, cap, k, v), k) == Some(v),
        keys_unique(cache_put_model(m, cap, k, v)),
{
    lemma_remove_props(m, k);
    let m1 = cache_remove_model(m, k);
    let m2 = if m1.len() >= cap {
        m1.skip(1)
    } else {
        m1
    };
    if m1.len() >= cap {
        assert(m1.len() > 0);
        lemma_skip_unique(m1);
        if m1[0].0 == k {
            assert(cache_has(m1, k));
            assert(false);
        }
        lemma_lookup_skip(m1, k);
    }
    assert(!cache_has(m2, k));
    assert(keys_unique(m2));
    lemma_push_lookup(m2, k, v);
    assert forall|i: int, j: int|
        0 <= i < j < m2.push((k, v)).len() implies m2.push((k, v))[i].0 != m2.push(
        (k, v),
    )[j].0 by {
        if j < m2.len() {
        } else {
            assert(m2.push((k, v))[j] == (k, v));
            if i < m2.len() {
                lemma_lookup_at_key(m2, i);
            }
        }
    }
}

/// An entry's key looks up to something.
proof fn lemma_lookup_at_key(m: Seq<(Seq<char>, ResponseModel)>, i: int)
    requires
        0 <= i < m.len(),
    ensures
        cache_has(m, m[i].0),
    decreases m.len(),
{
    if m[0].0 == m[i].0 {
    } else {
        assert(i > 0);
        assert(m.skip(1)[i - 1] == m[i]);
        lemma_lookup_at_key(m.skip(1), i - 1);
        lemma_lookup_skip(m, m[i].0);
    }
}

/// Invalidation at the store: removing after a put leaves nothing under the
/// fingerprint.
pub proof fn lemma_put_then_remove(
    m: Seq<(Seq<char>, ResponseModel)>,
    cap: int,
    k: Seq<char>,
    v: ResponseModel,
)
    requires
        keys_unique(m),
        cap >= 1,
    ensures
        !cache_has(cache_remove_model(cache_put_model(m, cap, k, v), k), k),
        keys_unique(cache_remove_model(cache_put_model(m, cap, k, v), k)),
{
    lemma_put_lookup(m, cap, k, v);
    lemma_remove_props(cache_put_model(m, cap, k, v), k);
}

/// The bounded in-process store. Its model is the sequence of entries from
/// oldest to youngest; keys stay unique and the length stays within the
/// capacity.
pub struct MemoryCache {
    entries: Vec<CacheSlot>,
    capacity: usize,
}

impl View for MemoryCache {
    type V = Seq<(Seq<char>, ResponseModel)>;

    closed spec fn view(&self) -> Seq<(Seq<char>, ResponseModel)> {
        self.entries@.map_values(|s: CacheSlot| s@)
    }
}

impl MemoryCache {
    /// The number of entries the store may hold.
    pub closed spec fn cap(&self) -> int {
        self.capacity as int
    }

    /// The store's invariant: unique keys, within capacity, capacity positive.
    pub open spec fn wf(&self) -> bool {
        &&& keys_unique(self@)
        &&& self@.len() <= self.cap()
        &&& self.cap() >= 1
    }

    /// An empty store with the given capacity.
    pub fn new(capacity: usize) -> (c: MemoryCache)
        requires
            capacity >= 1,
        ensures
            c.wf(),
            c@ == Seq::<(Seq<char>, ResponseModel)>::empty(),
            c.cap() == capacity,
    {
        let c = MemoryCache { entries: Vec::new(), capacity };
        proof {
            assert(c@ =~= Seq::<(Seq<char>, ResponseModel)>::empty());
        }
        c
    }

    /// How many entries are stored.
    pub fn len(&self) -> (n: usize)
        ensures
            n == self@.len(),
    {
        self.entries.len()
    }

    /// The position of the entry under `key`, if one is stored.
    fn find_index(&self, key: &String) -> (r: Option<usize>)
        ensures
            match r {
                Some(i) => i < self@.len() && self@[i as int].0 == key@ && forall|j: int|
                    0 <= j < i ==> (#[trigger] self@[j]).0 != key@,
                None => forall|j: int| 0 <= j < self@.len() ==> (#[trigger] self@[j]).0 != key@,
            },
    {
        let n = self.entries.len();
        let mut i: usize = 0;
        while i < n
            invariant
                0 <= i <= n,
                n == self@.len(),
                n == self.entries@.len(),
                forall|j: int| 0 <= j < i ==> (#[trigger] self@[j]).0 != key@,
            decreases n - i,
        {
            if self.entries[i].key == *key {
                return Some(i);
            }
            i = i + 1;
        }
        None
    }

    /// Hands back a copy of what is stored under `key`.
    pub fn get(&self, key: &String) -> (r: Option<FetchResponse>)
        ensures
            match r {
                Some(v) => cache_lookup(self@, key@) == Some(v@),
                None => !cache_has(self@, key@),
            },
    {
        match self.find_index(key) {
            Some(i) => {
                proof {
                    lemma_lookup_at_index(self@, key@, i as int);
                }
                Some(self.entries[i].value.clone())
            },
            None => {
                proof {
                    lemma_absent_lookup(self@, key@);
                }
                None
            },
        }
    }

    /// Takes the entry under `key` out, if one is stored.
    pub fn remove(&mut self, key: &String)
        requires
            old(self).wf(),
        ensures
            final(self).wf(),
            final(self).cap() == old(self).cap(),
            final(self)@ == cache_remove_model(old(self)@, key@),
    {
        let r = self.find_index(key);
        proof {
            lemma_remove_props(self@, key@);
        }
        match r {
            Some(i) => {
                self.entries.remove(i);
                proof {
                    assert(self@ =~= old(self)@.remove(i as int));
                    lemma_remove_at_index(old(self)@, key@, i as int);
                }
            },
            None => {
                proof {
                    lemma_remove_absent(self@, key@);
                }
            },
        }
    }

    /// Writes `value` under `key`: any previous entry under the key leaves,
    /// and the oldest entry is evicted when the store is full.
    pub fn put(&mut self, key: &String, value: FetchResponse)
        requires
            old(self).wf(),
        ensures
            final(self).wf(),
            final(self).cap() == old(self).cap(),
            final(self)@ == cache_put_model(old(self)@, old(self).cap(), key@, value@),
            cache_lookup(final(self)@, key@) == Some(value@),
    {
        proof {
            lemma_put_lookup(self@, self.cap(), key@, value@);
            lemma_remove_props(self@, key@);
        }
        self.remove(key);
        if self.entries.len() >= self.capacity {
            self.entries.remove(0);
            proof {
                assert(self@ =~= cache_remove_model(old(self)@, key@).skip(1));
            }
        }
        let slot = CacheSlot { key: key.clone(), value };
        self.entries.push(slot);
        proof {
            assert(self@ =~= cache_put_model(old(self)@, old(self).cap(), key@, value@));
        }
    }
}

/// A first match at `i` settles the lookup.
proof fn lemma_lookup_at_index(m: Seq<(Seq<char>, ResponseModel)>, k: Seq<char>, i: int)
    requires
        0 <= i < m.len(),
        m[i].0 == k,
        forall|j: int| 0 <= j < i ==> (#[trigger] m[j]).0 != k,
    ensures
        cache_lookup(m, k) == Some(m[i].1),
    decreases i,
{
    if i == 0 {
    } else {
        assert(m[0].0 != k);
        assert(m.skip(1)[i - 1] == m[i]);
        assert forall|j: int| 0 <= j < i - 1 implies (#[trigger] m.skip(1)[j]).0 != k by {
            assert(m.skip(1)[j] == m[j + 1]);
        }
        lemma_lookup_at_index(m.skip(1), k, i - 1);
    }
}

/// Removing the first match at `i` is removing the entry at `i`.
proof fn lemma_remove_at_index(m: Seq<(Seq<char>, ResponseModel)>, k: Seq<char>, i: int)
    requires
        0 <= i < m.len(),
        m[i].0 == k,
        forall|j: int| 0 <= j < i ==> (#[trigger] m[j]).0 != k,
    ensures
        cache_remove_model(m, k) == m.remove(i),
    decreases i,
{
    if i == 0 {
        assert(cache_remove_model(m, k) == m.skip(1));
        assert(m.skip(1) =~= m.remove(0));
    } else {
        assert(m[0].0 != k);
        assert(m.skip(1)[i - 1] == m[i]);
        assert forall|j: int| 0 <= j < i - 1 implies (#[trigger] m.skip(1)[j]).0 != k by {
            assert(m.skip(1)[j] == m[j + 1]);
        }
        lemma_remove_at_index(m.skip(1), k, i - 1);
        assert(cache_remove_model(m, k) == seq![m[0]] + m.skip(1).remove(i - 1));
        assert(seq![m[0]] + m.skip(1).remove(i - 1) =~= m.remove(i));
    }
}

/// Removing a key that no entry carries changes nothing.
proof fn lemma_remove_absent(m: Seq<(Seq<char>, ResponseModel)>, k: Seq<char>)
    requires
        forall|j: int| 0 <= j < m.len() ==> (#[trigger] m[j]).0 != k,
    ensures
        cache_remove_model(m, k) == m,
    decreases m.len(),
{
    if m.len() > 0 {
        assert forall|j: int| 0 <= j < m.skip(1).len() implies (#[trigger] m.skip(1)[j]).0 != k by {
            assert(m.skip(1)[j] == m[j + 1]);
        }
        lemma_remove_absent(m.skip(1), k);
        assert(seq![m[0]] + m.skip(1) =~= m);
    }
}

} // verus!
