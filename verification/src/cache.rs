//! A bounded in-memory cache: a mapping of at most `max_size` entries. When a
//! write arrives at capacity, one existing entry — the oldest remaining one —
//! is evicted first. The contract states that policy exactly; still, callers
//! should lean only on the size bound, which stands as a law of its own.

use vstd::prelude::*;
use std::sync::Arc;

verus! {

/// Relies on Arc::clone of the standard library: the clone is a second handle
/// to the same shared value, so it equals the original.
#[verifier::external_body]
pub fn arc_clone<T>(v: &Arc<T>) -> (res: Arc<T>)
    ensures
        res == *v,
{
    Arc::clone(v)
}

/// Cloning a shared handle without copying the shared value.
pub trait SmartClone {
    /// What the clone hands back.
    type Output;

    /// A second handle to the same value.
    fn smart_clone(&self) -> Self::Output;
}

impl<T> SmartClone for Arc<T> {
    type Output = Arc<T>;

    fn smart_clone(&self) -> Arc<T> {
        arc_clone(self)
    }
}

/// Is `key` the key of some entry?
pub open spec fn has_key<V>(s: Seq<(u64, V)>, key: u64) -> bool {
    exists|i: int| 0 <= i < s.len() && s[i].0 == key
}

/// The entries with the first occurrence of `key` taken out.
pub open spec fn remove_first_key<V>(s: Seq<(u64, V)>, key: u64) -> Seq<(u64, V)>
    decreases s.len(),
{
    if s.len() == 0 {
        s
    } else if s[0].0 == key {
        s.skip(1)
    } else {
        seq![s[0]] + remove_first_key(s.skip(1), key)
    }
}

/// What one write leaves behind: the key's old entry is dropped, the oldest
/// entry is evicted if the map is still at capacity, and the new entry is
/// appended.
pub open spec fn spec_insert_entries<V>(
    s: Seq<(u64, V)>,
    key: u64,
    value: V,
    max_size: nat,
) -> Seq<(u64, V)> {
    let s1 = remove_first_key(s, key);
    let s2 = if s1.len() >= max_size && s1.len() > 0 {
        s1.skip(1)
    } else {
        s1
    };
    s2.push((key, value))
}

/// The mapping that a sequence of entries denotes; later entries override.
pub open spec fn entries_map<V>(s: Seq<(u64, V)>) -> Map<u64, V>
    decreases s.len(),
{
    if s.len() == 0 {
        Map::empty()
    } else {
        entries_map(s.drop_last()).insert(s.last().0, s.last().1)
    }
}

/// A bounded in-memory cache keyed by content hashes.
pub struct Cache<V> {
    /// The entries, oldest first.
    pub entries: Vec<(u64, V)>,
    /// The capacity in entries.
    pub max_size: usize,
}

impl<V> vstd::prelude::View for Cache<V> {
    type V = Map<u64, V>;

    open spec fn view(&self) -> Map<u64, V> {
        entries_map(self.entries@)
    }
}

impl<V> Cache<V> {
    /// The entries, oldest first (ghost).
    pub open spec fn spec_entries(&self) -> Seq<(u64, V)> {
        self.entries@
    }

    /// The capacity in entries (ghost).
    pub open spec fn spec_max_size(&self) -> nat {
        self.max_size as nat
    }

    /// The cache is well formed: keys are unique and the size bound holds.
    pub open spec fn wf(&self) -> bool {
        &&& forall|i: int, j: int|
            0 <= i < j < self.entries@.len() ==> self.entries@[i].0 != self.entries@[j].0
        &&& self.entries@.len() <= self.max_size || self.entries@.len() <= 1
    }

    /// An empty cache with the given capacity.
    pub fn new(max_size: usize) -> (r: Cache<V>)
        ensures
            r.wf(),
            r.spec_max_size() == max_size,
            r.spec_entries() == Seq::<(u64, V)>::empty(),
            r@ == Map::<u64, V>::empty(),
    {
        let r = Cache { entries: Vec::new(), max_size };
        proof {
            assert(r@ =~= Map::<u64, V>::empty());
        }
        r
    }

    /// Read the entry under `key`, if present.
    pub fn get(&self, key: u64) -> (r: Option<&V>)
        ensures
            match r {
                Some(v) => self@.contains_key(key) && self@[key] == *v,
                None => !self@.contains_key(key),
            },
    {
        let n = self.entries.len();
        let mut i: usize = n;
        proof {
            assert(self.entries@.take(n as int) =~= self.entries@);
        }
        while i > 0
            invariant
                n == self.entries@.len(),
                i <= n,
                entries_map(self.entries@).contains_key(key) == entries_map(
                    self.entries@.take(i as int),
                ).contains_key(key),
                entries_map(self.entries@.take(i as int)).contains_key(key) ==> entries_map(
                    self.entries@,
                )[key] == entries_map(self.entries@.take(i as int))[key],
            decreases i,
        {
            i -= 1;
            proof {
                assert(self.entries@.take(i + 1).drop_last() =~= self.entries@.take(i as int));
                assert(self.entries@.take(i + 1).last() == self.entries@[i as int]);
            }
            if self.entries[i].0 == key {
                return Some(&self.entries[i].1);
            }
        }
        proof {
            assert(self.entries@.take(0) =~= Seq::<(u64, V)>::empty());
        }
        None
    }

    /// Write `value` under `key`. An existing entry under the same key is
    /// replaced; if the map is at capacity, the oldest remaining entry is
    /// evicted first.
    pub fn insert(&mut self, key: u64, value: V)
        requires
            old(self).wf(),
        ensures
            final(self).wf(),
            final(self).spec_max_size() == old(self).spec_max_size(),
            final(self).spec_entries() == spec_insert_entries(
                old(self).spec_entries(),
                key,
                value,
                old(self).spec_max_size(),
            ),
            final(self)@.contains_key(key),
            final(self)@[key] == value,
    {
        // Drop the existing entry under this key, if any.
        let n = self.entries.len();
        let ghost s0 = self.entries@;
        let mut i: usize = 0;
        let mut found = false;
        while i < n && !found
            invariant
                n == self.entries@.len(),
                self.entries@ == s0,
                i <= n,
                !found ==> forall|k: int| 0 <= k < i ==> s0[k].0 != key,
                found ==> i < n && s0[i as int].0 == key && forall|k: int|
                    0 <= k < i ==> s0[k].0 != key,
            decreases n - i + (if found { 0int } else { 1int }),
        {
            if self.entries[i].0 == key {
                found = true;
            } else {
                i += 1;
            }
        }
        if found {
            self.entries.remove(i);
            proof {
                lemma_remove_first_at(s0, key, i as int);
            }
        } else {
            proof {
                lemma_remove_first_absent(s0, key);
            }
        }
        // Evict the oldest remaining entry if still at capacity.
        let ghost s1 = self.entries@;
        if self.entries.len() >= self.max_size && self.entries.len() > 0 {
            self.entries.remove(0);
            proof {
                assert(s1.remove(0) =~= s1.skip(1));
            }
        }
        self.entries.push((key, value));
        proof {
            assert(self.entries@.drop_last() =~= self.entries@.take(
                self.entries@.len() - 1,
            ));
            assert(self.entries@ =~= spec_insert_entries(
                s0,
                key,
                value,
                old(self).spec_max_size(),
            ));
            lemma_remove_first_no_key(s0, key);
            assert forall|a: int, b: int|
                0 <= a < b < self.entries@.len() implies self.entries@[a].0
                != self.entries@[b].0 by {
                lemma_remove_first_keeps(s0, key);
            }
        }
    }

    /// Empty the cache.
    pub fn clear(&mut self)
        ensures
            final(self).wf(),
            final(self).spec_max_size() == old(self).spec_max_size(),
            final(self).spec_entries() == Seq::<(u64, V)>::empty(),
            final(self)@ == Map::<u64, V>::empty(),
    {
        self.entries.clear();
        proof {
            assert(final(self)@ =~= Map::<u64, V>::empty());
        }
    }

    /// How many entries are present.
    pub fn len(&self) -> (r: usize)
        ensures
            r == self.spec_entries().len(),
    {
        self.entries.len()
    }
}

/// Taking out the first occurrence of `key` at its known index `i` is the
/// same as splicing the sequence around `i`.
proof fn lemma_remove_first_at<V>(s: Seq<(u64, V)>, key: u64, i: int)
    requires
        0 <= i < s.len(),
        s[i].0 == key,
        forall|k: int| 0 <= k < i ==> s[k].0 != key,
    ensures
        remove_first_key(s, key) == s.remove(i),
    decreases i,
{
    if i == 0 {
        assert(s.remove(0) =~= s.skip(1));
    } else {
        lemma_remove_first_at(s.skip(1), key, i - 1);
        assert(remove_first_key(s, key) == seq![s[0]] + remove_first_key(s.skip(1), key));
        assert(seq![s[0]] + s.skip(1).remove(i - 1) =~= s.remove(i));
    }
}

/// When `key` has no entry, taking it out changes nothing.
proof fn lemma_remove_first_absent<V>(s: Seq<(u64, V)>, key: u64)
    requires
        !has_key(s, key),
    ensures
        remove_first_key(s, key) == s,
    decreases s.len(),
{
    if s.len() > 0 {
        assert(s[0].0 != key);
        assert(forall|i: int|
            0 <= i < s.skip(1).len() ==> s.skip(1)[i] == s[i + 1]);
        lemma_remove_first_absent(s.skip(1), key);
        assert(seq![s[0]] + s.skip(1) =~= s);
    }
}

/// After taking out the first occurrence of `key` from a sequence with unique
/// keys, no occurrence of `key` remains.
proof fn lemma_remove_first_no_key<V>(s: Seq<(u64, V)>, key: u64)
    requires
        forall|i: int, j: int| 0 <= i < j < s.len() ==> s[i].0 != s[j].0,
    ensures
        !has_key(remove_first_key(s, key), key),
    decreases s.len(),
{
    if s.len() > 0 {
        if s[0].0 == key {
            assert forall|i: int|
                0 <= i < s.skip(1).len() implies s.skip(1)[i].0 != key by {
                assert(s.skip(1)[i] == s[i + 1]);
            }
        } else {
            lemma_remove_first_no_key(s.skip(1), key);
            let r = seq![s[0]] + remove_first_key(s.skip(1), key);
            assert forall|i: int| 0 <= i < r.len() implies r[i].0 != key by {
                if i > 0 {
                    assert(r[i] == remove_first_key(s.skip(1), key)[i - 1]);
                }
            }
        }
    }
}

/// Taking out the first occurrence of `key` keeps the remaining entries, in
/// order, and so keeps their keys unique.
proof fn lemma_remove_first_keeps<V>(s: Seq<(u64, V)>, key: u64)
    requires
        forall|i: int, j: int| 0 <= i < j < s.len() ==> s[i].0 != s[j].0,
    ensures
        forall|i: int, j: int|
            0 <= i < j < remove_first_key(s, key).len() ==> remove_first_key(s, key)[i].0
                != remove_first_key(s, key)[j].0,
        remove_first_key(s, key).len() <= s.len(),
    decreases s.len(),
{
    if has_key(s, key) {
        lemma_first_key_index(s, key);
        let i0 = first_key_index(s, key);
        lemma_remove_first_at(s, key, i0);
        assert forall|i: int, j: int|
            0 <= i < j < s.remove(i0).len() implies s.remove(i0)[i].0 != s.remove(
            i0,
        )[j].0 by {
            if j < i0 {
            } else if i < i0 {
                assert(s.remove(i0)[i] == s[i] && s.remove(i0)[j] == s[j + 1]);
            } else {
                assert(s.remove(i0)[i] == s[i + 1] && s.remove(i0)[j] == s[j + 1]);
            }
        }
    } else {
        lemma_remove_first_absent(s, key);
    }
}

/// The index of the first occurrence of `key`.
spec fn first_key_index<V>(s: Seq<(u64, V)>, key: u64) -> int
    decreases s.len(),
{
    if s.len() == 0 {
        0
    } else if s[0].0 == key {
        0
    } else {
        1 + first_key_index(s.skip(1), key)
    }
}

/// The first occurrence of a present key is a real, least occurrence.
proof fn lemma_first_key_index<V>(s: Seq<(u64, V)>, key: u64)
    requires
        has_key(s, key),
    ensures
        0 <= first_key_index(s, key) < s.len(),
        s[first_key_index(s, key)].0 == key,
        forall|k: int| 0 <= k < first_key_index(s, key) ==> s[k].0 != key,
    decreases s.len(),
{
    if s.len() > 0 && s[0].0 != key {
        let w = choose|w: int| 0 <= w < s.len() && s[w].0 == key;
        assert(s.skip(1)[w - 1] == s[w]);
        lemma_first_key_index(s.skip(1), key);
        assert forall|k: int| 0 <= k < first_key_index(s, key) implies s[k].0 != key by {
            if k > 0 {
                assert(s.skip(1)[k - 1] == s[k]);
            }
        }
    }
}

/// Bounded size is a law of the cache: a write against a well-formed cache
/// leaves at most `max_size` entries (one entry when the capacity is zero),
/// and a write of a fresh key into a cache at capacity leaves exactly
/// `max_size` entries.
pub proof fn lemma_cache_bounded<V>(s: Seq<(u64, V)>, key: u64, value: V, max_size: nat)
    requires
        forall|i: int, j: int| 0 <= i < j < s.len() ==> s[i].0 != s[j].0,
        s.len() <= max_size || s.len() <= 1,
    ensures
        spec_insert_entries(s, key, value, max_size).len() <= max_size
            || spec_insert_entries(s, key, value, max_size).len() <= 1,
        s.len() == max_size && max_size > 0 && !has_key(s, key)
            ==> spec_insert_entries(s, key, value, max_size).len() == max_size,
{
    lemma_remove_first_keeps(s, key);
    if has_key(s, key) {
        lemma_first_key_index(s, key);
        lemma_remove_first_at(s, key, first_key_index(s, key));
    } else {
        lemma_remove_first_absent(s, key);
    }
}

} // verus!
