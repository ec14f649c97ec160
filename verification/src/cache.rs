//! A fixed-capacity key/value store with least-recently-used eviction.
//!
//! Entries are modelled as a sequence ordered by recency: index 0 is the
//! least-recently-used entry, the last index the most-recently-used one.
//! `get` promotes a hit to the most-recently-used end; `put` overwrites an
//! existing key in place of its old entry, and otherwise inserts, evicting the
//! least-recently-used entry first whenever the cache is already full.

use crate::errors::ConfigError;
use vstd::prelude::*;

verus! {

/// Index of the first entry whose key is `k`, or -1 when no entry has it.
pub open spec fn key_index<V>(s: Seq<(u64, V)>, k: u64) -> int
    decreases s.len(),
{
    if s.len() == 0 {
        -1
    } else if s[0].0 == k {
        0
    } else {
        let r = key_index(s.drop_first(), k);
        if r < 0 {
            -1
        } else {
            r + 1
        }
    }
}

/// Whether some entry has key `k`.
pub open spec fn has_key<V>(s: Seq<(u64, V)>, k: u64) -> bool {
    key_index(s, k) >= 0
}

/// Keys are unique within a cache.
pub open spec fn distinct_keys<V>(s: Seq<(u64, V)>) -> bool {
    forall|i: int, j: int| 0 <= i < j < s.len() ==> s[i].0 != s[j].0
}

/// What a lookup returns: the value stored under `k`, or nothing.
pub open spec fn lookup_model<V>(s: Seq<(u64, V)>, k: u64) -> Option<V> {
    if has_key(s, k) {
        Some(s[key_index(s, k)].1)
    } else {
        None
    }
}

/// How a `get` reorders the entries: a hit moves the entry for `k` to the
/// most-recently-used end; a miss changes nothing.
pub open spec fn touch_model<V>(s: Seq<(u64, V)>, k: u64) -> Seq<(u64, V)> {
    if has_key(s, k) {
        let i = key_index(s, k);
        s.remove(i).push(s[i])
    } else {
        s
    }
}

/// How a `put` changes the entries: an existing key is overwritten and
/// promoted; a new key is appended as most-recently-used, after evicting the
/// least-recently-used entry (index 0) when the cache is already full.
pub open spec fn put_model<V>(s: Seq<(u64, V)>, cap: nat, k: u64, v: V) -> Seq<(u64, V)> {
    if has_key(s, k) {
        s.remove(key_index(s, k)).push((k, v))
    } else if s.len() >= cap {
        s.drop_first().push((k, v))
    } else {
        s.push((k, v))
    }
}

/// `key_index` finds the first occurrence of `k`, and only fails when no
/// entry has key `k`.
pub proof fn lemma_key_index<V>(s: Seq<(u64, V)>, k: u64)
    ensures
        -1 <= key_index(s, k) < s.len(),
        key_index(s, k) >= 0 ==> s[key_index(s, k)].0 == k,
        forall|i: int| 0 <= i < s.len() && s[i].0 == k ==> key_index(s, k) >= 0,
        forall|i: int| 0 <= i < key_index(s, k) ==> s[i].0 != k,
    decreases s.len(),
{
    if s.len() == 0 {
    } else if s[0].0 == k {
    } else {
        lemma_key_index(s.drop_first(), k);
        assert(forall|i: int| 0 <= i < s.len() - 1 ==> s.drop_first()[i] == s[i + 1]);
        assert forall|i: int| 0 <= i < s.len() && s[i].0 == k implies key_index(s, k) >= 0 by {
            assert(i != 0);
            assert(s.drop_first()[i - 1] == s[i]);
        }
        assert forall|i: int| 0 <= i < key_index(s, k) implies s[i].0 != k by {
            if i > 0 {
                assert(s.drop_first()[i - 1] == s[i]);
            }
        }
    }
}

/// An entry with key `k` at index `i`, with no earlier occurrence of `k`,
/// pins `key_index` to `i`.
pub proof fn lemma_key_index_first<V>(s: Seq<(u64, V)>, k: u64, i: int)
    requires
        0 <= i < s.len(),
        s[i].0 == k,
        forall|j: int| 0 <= j < i ==> s[j].0 != k,
    ensures
        key_index(s, k) == i,
    decreases i,
{
    if i == 0 {
    } else {
        assert(s[0].0 != k);
        assert(forall|j: int| 0 <= j < s.len() - 1 ==> s.drop_first()[j] == s[j + 1]);
        lemma_key_index_first(s.drop_first(), k, i - 1);
    }
}

/// A key occurs somewhere iff `has_key` holds.
pub proof fn lemma_has_key_iff<V>(s: Seq<(u64, V)>, k: u64)
    ensures
        has_key(s, k) <==> exists|i: int| 0 <= i < s.len() && s[i].0 == k,
{
    lemma_key_index(s, k);
}

/// With unique keys, `key_index` is the index of the one entry with key `k`.
pub proof fn lemma_key_index_unique<V>(s: Seq<(u64, V)>, k: u64, i: int)
    requires
        distinct_keys(s),
        0 <= i < s.len(),
        s[i].0 == k,
    ensures
        key_index(s, k) == i,
{
    lemma_key_index(s, k);
    let ki = key_index(s, k);
    if ki < i {
        assert(s[ki].0 == s[i].0);
    } else if ki > i {
        assert(s[i].0 != k);
    }
}

/// A `get` permutes the entries: it keeps the length, keeps keys unique,
/// keeps exactly the keys that were present, carries every surviving entry
/// over unchanged, and on a hit leaves the entry for `k` at the
/// most-recently-used end.
pub proof fn lemma_touch_model<V>(s: Seq<(u64, V)>, k: u64)
    requires
        distinct_keys(s),
    ensures
        touch_model(s, k).len() == s.len(),
        distinct_keys(touch_model(s, k)),
        forall|j: int| 0 <= j < touch_model(s, k).len() ==> s.contains(#[trigger] touch_model(s, k)[j]),
        forall|k2: u64| #[trigger] has_key(touch_model(s, k), k2) <==> has_key(s, k2),
        has_key(s, k) ==> touch_model(s, k).last() == (k, s[key_index(s, k)].1),
{
    lemma_key_index(s, k);
    if has_key(s, k) {
        let i = key_index(s, k);
        let t = touch_model(s, k);
        s.remove_ensures(i);
        assert(s[i] == (k, s[i].1));
        assert(t.last() == s[i]);
        assert forall|j: int| 0 <= j < t.len() implies s.contains(#[trigger] t[j]) by {
            if j == t.len() - 1 {
                assert(t[j] == s[i]);
            } else if j < i {
                assert(t[j] == s[j]);
            } else {
                assert(t[j] == s[j + 1]);
            }
        }
        assert forall|a: int, b: int| 0 <= a < b < t.len() implies t[a].0 != t[b].0 by {
            let sa: int = if a < i { a } else { a + 1 };
            if b == t.len() - 1 {
                if a < i {
                    assert(t[a] == s[a]);
                } else {
                    assert(t[a] == s[a + 1]);
                }
                assert(t[b] == s[i]);
                assert(sa != i);
            } else {
                let sb: int = if b < i { b } else { b + 1 };
                assert(t[a] == s[sa]);
                assert(t[b] == s[sb]);
            }
        }
        assert forall|k2: u64| #[trigger] has_key(t, k2) implies has_key(s, k2) by {
            lemma_has_key_iff(t, k2);
            lemma_has_key_iff(s, k2);
            let j = choose|j: int| 0 <= j < t.len() && t[j].0 == k2;
            assert(s.contains(t[j]));
            let m = choose|m: int| 0 <= m < s.len() && s[m] == t[j];
            assert(s[m].0 == k2);
        }
        assert forall|k2: u64| has_key(s, k2) implies #[trigger] has_key(t, k2) by {
            lemma_has_key_iff(t, k2);
            lemma_has_key_iff(s, k2);
            let j = choose|j: int| 0 <= j < s.len() && s[j].0 == k2;
            if j == i {
                assert(t[t.len() - 1].0 == k2);
            } else if j < i {
                assert(t[j].0 == k2);
            } else {
                assert(t[j - 1].0 == k2);
            }
        }
    }
}

/// A `put` keeps keys unique and never grows the entries beyond the capacity.
/// Applied after every step, it shows that a cache reached by any sequence of
/// puts holds at most `cap` entries.
pub proof fn lemma_put_model_wf<V>(s: Seq<(u64, V)>, cap: nat, k: u64, v: V)
    requires
        distinct_keys(s),
        s.len() <= cap,
        cap >= 1,
    ensures
        distinct_keys(put_model(s, cap, k, v)),
        put_model(s, cap, k, v).len() <= cap,
        put_model(s, cap, k, v).last() == (k, v),
{
    lemma_key_index(s, k);
    let t = put_model(s, cap, k, v);
    if has_key(s, k) {
        let i = key_index(s, k);
        s.remove_ensures(i);
        assert forall|a: int, b: int| 0 <= a < b < t.len() implies t[a].0 != t[b].0 by {
            let sa: int = if a < i { a } else { a + 1 };
            if b == t.len() - 1 {
                assert(t[a] == s[sa]);
                assert(s[sa].0 != k) by {
                    lemma_key_index_unique(s, k, i);
                    if s[sa].0 == k {
                        lemma_key_index_unique(s, k, sa);
                    }
                }
            } else {
                let sb: int = if b < i { b } else { b + 1 };
                assert(t[a] == s[sa]);
                assert(t[b] == s[sb]);
            }
        }
    } else if s.len() >= cap {
        assert forall|a: int, b: int| 0 <= a < b < t.len() implies t[a].0 != t[b].0 by {
            if b == t.len() - 1 {
                assert(t[a] == s[a + 1]);
                assert(s[a + 1].0 != k);
            } else {
                assert(t[a] == s[a + 1]);
                assert(t[b] == s[b + 1]);
            }
        }
    } else {
        assert forall|a: int, b: int| 0 <= a < b < t.len() implies t[a].0 != t[b].0 by {
            if b == t.len() - 1 {
                assert(t[a] == s[a]);
                assert(s[a].0 != k);
            }
        }
    }
}

/// Every entry that a `put` leaves in the cache either was already present or
/// is the entry just stored.
pub proof fn lemma_put_model_entries<V>(s: Seq<(u64, V)>, cap: nat, k: u64, v: V)
    requires
        cap >= 1,
    ensures
        forall|j: int|
            0 <= j < put_model(s, cap, k, v).len() ==> (s.contains(
                #[trigger] put_model(s, cap, k, v)[j],
            ) || put_model(s, cap, k, v)[j] == (k, v)),
{
    lemma_key_index(s, k);
    let t = put_model(s, cap, k, v);
    if has_key(s, k) {
        let i = key_index(s, k);
        s.remove_ensures(i);
        assert forall|j: int| 0 <= j < t.len() implies (s.contains(#[trigger] t[j]) || t[j] == (k, v)) by {
            if j < t.len() - 1 {
                if j < i {
                    assert(t[j] == s[j]);
                } else {
                    assert(t[j] == s[j + 1]);
                }
            }
        }
    } else if s.len() >= cap {
        assert forall|j: int| 0 <= j < t.len() implies (s.contains(#[trigger] t[j]) || t[j] == (k, v)) by {
            if j < t.len() - 1 {
                assert(t[j] == s[j + 1]);
            }
        }
    } else {
        assert forall|j: int| 0 <= j < t.len() implies (s.contains(#[trigger] t[j]) || t[j] == (k, v)) by {
            if j < t.len() - 1 {
                assert(t[j] == s[j]);
            }
        }
    }
}

/// Law: a lookup of `k` immediately after a put of `(k, v)` returns `v`.
pub proof fn lemma_get_after_put<V>(s: Seq<(u64, V)>, cap: nat, k: u64, v: V)
    requires
        distinct_keys(s),
        s.len() <= cap,
        cap >= 1,
    ensures
        lookup_model(put_model(s, cap, k, v), k) == Some(v),
{
    lemma_key_index(s, k);
    lemma_put_model_wf(s, cap, k, v);
    let t = put_model(s, cap, k, v);
    let last = t.len() - 1;
    assert(t[last] == (k, v));
    assert forall|j: int| 0 <= j < last implies t[j].0 != k by {
        if has_key(s, k) {
            let i = key_index(s, k);
            s.remove_ensures(i);
            lemma_key_index_unique(s, k, i);
            let sj: int = if j < i { j } else { j + 1 };
            assert(t[j] == s[sj]);
            if s[sj].0 == k {
                lemma_key_index_unique(s, k, sj);
            }
        } else if s.len() >= cap {
            assert(t[j] == s[j + 1]);
        } else {
            assert(t[j] == s[j]);
        }
    }
    lemma_key_index_first(t, k, last);
}

/// Law: a lookup of an absent key returns nothing, and the `get` that made it
/// changes nothing — in particular the entry count stays what it was.
pub proof fn lemma_get_absent<V>(s: Seq<(u64, V)>, k: u64)
    requires
        !has_key(s, k),
    ensures
        lookup_model(s, k) == Option::<V>::None,
        touch_model(s, k) == s,
        touch_model(s, k).len() == s.len(),
{
}

/// Law: a put of a new key into a full cache evicts exactly the
/// least-recently-used entry: the entry at index 0 leaves, every other entry
/// stays, and the new key is present.
pub proof fn lemma_eviction_is_lru<V>(s: Seq<(u64, V)>, cap: nat, k: u64, v: V)
    requires
        distinct_keys(s),
        s.len() == cap,
        cap >= 1,
        !has_key(s, k),
    ensures
        put_model(s, cap, k, v) == s.drop_first().push((k, v)),
        !has_key(put_model(s, cap, k, v), s[0].0),
        forall|j: int| 1 <= j < s.len() ==> has_key(put_model(s, cap, k, v), s[j].0),
        has_key(put_model(s, cap, k, v), k),
{
    lemma_key_index(s, k);
    let t = put_model(s, cap, k, v);
    assert(t == s.drop_first().push((k, v)));
    lemma_has_key_iff(t, s[0].0);
    lemma_has_key_iff(t, k);
    assert(forall|j: int| 0 <= j < t.len() - 1 ==> t[j] == s[j + 1]);
    assert(t[t.len() - 1] == (k, v));
    assert(s[0].0 != k);
    assert forall|j: int| 0 <= j < t.len() implies t[j].0 != s[0].0 by {
        if j < t.len() - 1 {
            assert(t[j] == s[j + 1]);
        }
    }
    assert forall|j: int| 1 <= j < s.len() implies has_key(t, s[j].0) by {
        lemma_has_key_iff(t, s[j].0);
        assert(t[j - 1] == s[j]);
    }
}

/// Law: a `get` of `k` promotes `k` to most-recently-used, so `k` survives
/// the eviction caused by the next put of a fresh key, even where `k` was the
/// least-recently-used entry before the `get` (the cache must hold at least
/// two entries, otherwise the sole entry is always the victim).
pub proof fn lemma_promotion_survives_eviction<V>(
    s: Seq<(u64, V)>,
    cap: nat,
    k: u64,
    k2: u64,
    v2: V,
)
    requires
        distinct_keys(s),
        s.len() <= cap,
        cap >= 1,
        has_key(s, k),
        !has_key(s, k2),
        s.len() >= 2,
    ensures
        has_key(put_model(touch_model(s, k), cap, k2, v2), k),
{
    lemma_key_index(s, k);
    lemma_touch_model(s, k);
    let t = touch_model(s, k);
    assert(!has_key(t, k2));
    lemma_key_index(t, k2);
    let u = put_model(t, cap, k2, v2);
    lemma_has_key_iff(u, k);
    assert(t.last().0 == k);
    if t.len() >= cap {
        assert(u == t.drop_first().push((k2, v2)));
        assert(u[t.len() - 2] == t[t.len() - 1]);
    } else {
        assert(u == t.push((k2, v2)));
        assert(u[t.len() - 1] == t[t.len() - 1]);
    }
}

/// A bounded key/value store with least-recently-used eviction.
///
/// Its view is the sequence of entries ordered by recency: index 0 is the
/// least-recently-used entry, the last index the most-recently-used one.
pub struct BoundedCache<V> {
    entries: Vec<(u64, V)>,
    capacity: usize,
}

impl<V> View for BoundedCache<V> {
    type V = Seq<(u64, V)>;

    closed spec fn view(&self) -> Seq<(u64, V)> {
        self.entries@
    }
}

impl<V: Copy> BoundedCache<V> {
    /// The capacity fixed at construction.
    pub closed spec fn spec_capacity(&self) -> usize {
        self.capacity
    }

    /// Well-formedness: the capacity is positive, the entry count never
    /// exceeds it, and keys are unique.
    pub open spec fn wf(&self) -> bool {
        &&& self.spec_capacity() >= 1
        &&& self@.len() <= self.spec_capacity()
        &&& distinct_keys(self@)
    }

    #[verifier::when_used_as_spec(spec_capacity)]
    pub fn capacity(&self) -> (c: usize)
        ensures
            c == self.spec_capacity(),
    {
        self.capacity
    }

    /// Number of entries currently stored; never exceeds the capacity.
    pub fn len(&self) -> (n: usize)
        requires
            self.wf(),
        ensures
            n == self@.len(),
            n <= self.spec_capacity(),
    {
        self.entries.len()
    }

    /// Build an empty cache of the given positive capacity.
    pub fn with_capacity(capacity: usize) -> (c: Self)
        requires
            capacity >= 1,
        ensures
            c.wf(),
            c@ == Seq::<(u64, V)>::empty(),
            c.spec_capacity() == capacity,
    {
        BoundedCache { entries: Vec::new(), capacity }
    }

    /// Build an empty cache, rejecting a zero capacity with a `ConfigError`
    /// that names the invalid capacity.
    pub fn new(capacity: usize) -> (r: Result<Self, ConfigError>)
        ensures
            capacity == 0 ==> r == Result::<Self, ConfigError>::Err(ConfigError { capacity }),
            capacity >= 1 ==> {
                &&& r is Ok
                &&& r->Ok_0.wf()
                &&& r->Ok_0@ == Seq::<(u64, V)>::empty()
                &&& r->Ok_0.spec_capacity() == capacity
            },
    {
        if capacity == 0 {
            Err(ConfigError { capacity })
        } else {
            Ok(Self::with_capacity(capacity))
        }
    }

    /// Index of the entry with key `k`, if one is stored.
    fn find(&self, k: u64) -> (r: Option<usize>)
        ensures
            match r {
                Some(i) => i == key_index(self@, k) && i < self@.len(),
                None => !has_key(self@, k),
            },
    {
        let n = self.entries.len();
        let mut i: usize = 0;
        while i < n
            invariant
                n == self@.len(),
                0 <= i <= n,
                forall|j: int| 0 <= j < i ==> self@[j].0 != k,
            decreases n - i,
        {
            if self.entries[i].0 == k {
                proof {
                    lemma_key_index_first(self@, k, i as int);
                }
                return Some(i);
            }
            i = i + 1;
        }
        proof {
            lemma_key_index(self@, k);
        }
        None
    }

    /// Whether an entry with key `k` is stored; reads only.
    pub fn contains_key(&self, k: u64) -> (b: bool)
        ensures
            b == has_key(self@, k),
    {
        self.find(k).is_some()
    }

    /// Look `k` up. A hit returns a duplicate of the stored value and marks
    /// the entry most-recently-used; a miss returns nothing and changes
    /// nothing, in particular the entry count stays the same.
    pub fn get(&mut self, k: u64) -> (r: Option<V>)
        requires
            old(self).wf(),
        ensures
            final(self).wf(),
            final(self).spec_capacity() == old(self).spec_capacity(),
            r == lookup_model(old(self)@, k),
            final(self)@ == touch_model(old(self)@, k),
            final(self)@.len() == old(self)@.len(),
    {
        proof {
            lemma_touch_model(old(self)@, k);
        }
        match self.find(k) {
            None => None,
            Some(i) => {
                let e = self.entries.remove(i);
                self.entries.push(e);
                Some(e.1)
            },
        }
    }

    /// Store `v` under `k`. An existing key is overwritten and promoted to
    /// most-recently-used; a new key is inserted, evicting the single
    /// least-recently-used entry first when the cache is already full. Never
    /// fails, and the entry count never exceeds the capacity.
    pub fn put(&mut self, k: u64, v: V)
        requires
            old(self).wf(),
        ensures
            final(self).wf(),
            final(self).spec_capacity() == old(self).spec_capacity(),
            final(self)@ == put_model(old(self)@, old(self).spec_capacity() as nat, k, v),
    {
        proof {
            lemma_put_model_wf(old(self)@, old(self).spec_capacity() as nat, k, v);
        }
        match self.find(k) {
            Some(i) => {
                let _ = self.entries.remove(i);
                self.entries.push((k, v));
            },
            None => {
                if self.entries.len() == self.capacity {
                    let _ = self.entries.remove(0);
                    proof {
                        assert(self@ == old(self)@.drop_first());
                    }
                }
                self.entries.push((k, v));
            },
        }
    }
}

} // verus!
