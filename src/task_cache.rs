use crate::event::Task;
use lru::LruCache;
use vstd::prelude::*;

verus! {

#[verifier::external_type_specification]
#[verifier::external_body]
#[verifier::reject_recursive_types(K)]
#[verifier::reject_recursive_types(V)]
#[verifier::reject_recursive_types(S)]
pub struct ExLruCache<K, V, S>(LruCache<K, V, S>);

#[verifier::external_type_specification]
#[verifier::external_body]
pub struct ExLruHasher(lru::DefaultHasher);

/// The entries of an LRU cache of tasks, least recently used first, each key
/// as the text it holds.
pub uninterp spec fn lru_entries(c: LruCache<Option<String>, Task>) -> Seq<(Option<Seq<char>>, Task)>;

/// The number of entries that an LRU cache of tasks was made to hold.
pub uninterp spec fn lru_capacity(c: LruCache<Option<String>, Task>) -> nat;

/// A cache key as the text it holds.
pub open spec fn key_view(k: Option<String>) -> Option<Seq<char>> {
    match k {
        Some(s) => Some(s@),
        None => None,
    }
}

/// Relies on `lru::LruCache::new`: an empty cache that holds at most `cap`
/// entries.
#[verifier::external_body]
fn lru_new(cap: usize) -> (c: LruCache<Option<String>, Task>)
    requires
        cap > 0,
    ensures
        lru_entries(c) == Seq::<(Option<Seq<char>>, Task)>::empty(),
        lru_capacity(c) == cap,
{
    LruCache::new(std::num::NonZeroUsize::new(cap).unwrap())
}

/// Relies on `lru::LruCache::get`: it finds the entry of key `k`, if any, and
/// makes it the most recently used one; the value is handed out as a clone.
#[verifier::external_body]
fn lru_get(c: &mut LruCache<Option<String>, Task>, k: &Option<String>) -> (r: Option<Task>)
    ensures
        lru_capacity(*final(c)) == lru_capacity(*old(c)),
        match r {
            Some(t) => exists|i: int|
                0 <= i < lru_entries(*old(c)).len() && lru_entries(*old(c))[i].0 == key_view(*k)
                    && t == lru_entries(*old(c))[i].1 && lru_entries(*final(c)) == lru_entries(
                    *old(c),
                ).remove(i).push(lru_entries(*old(c))[i]),
            None => (forall|i: int|
                0 <= i < lru_entries(*old(c)).len() ==> lru_entries(*old(c))[i].0 != key_view(*k))
                && lru_entries(*final(c)) == lru_entries(*old(c)),
        },
{
    c.get(k).cloned()
}

/// Relies on `lru::LruCache::put`: an entry of key `k` takes value `v` and
/// becomes the most recently used one; where `k` is new and the cache is
/// full, the least recently used entry leaves first.
#[verifier::external_body]
fn lru_put(c: &mut LruCache<Option<String>, Task>, k: Option<String>, v: Task)
    ensures
        lru_capacity(*final(c)) == lru_capacity(*old(c)),
        (exists|i: int|
            0 <= i < lru_entries(*old(c)).len() && lru_entries(*old(c))[i].0 == key_view(k))
            ==> (exists|i: int|
            0 <= i < lru_entries(*old(c)).len() && lru_entries(*old(c))[i].0 == key_view(k)
                && lru_entries(*final(c)) == lru_entries(*old(c)).remove(i).push((key_view(k), v))),
        (forall|i: int|
            0 <= i < lru_entries(*old(c)).len() ==> lru_entries(*old(c))[i].0 != key_view(k))
            && lru_entries(*old(c)).len() < lru_capacity(*old(c)) ==> lru_entries(*final(c))
            == lru_entries(*old(c)).push((key_view(k), v)),
        (forall|i: int|
            0 <= i < lru_entries(*old(c)).len() ==> lru_entries(*old(c))[i].0 != key_view(k))
            && lru_entries(*old(c)).len() == lru_capacity(*old(c)) ==> lru_entries(*final(c))
            == lru_entries(*old(c)).drop_first().push((key_view(k), v)),
{
    c.put(k, v);
}

/// Relies on `lru::LruCache::pop`: it takes the entry of key `k` out, if any,
/// and hands its value back.
#[verifier::external_body]
fn lru_pop(c: &mut LruCache<Option<String>, Task>, k: &Option<String>) -> (r: Option<Task>)
    ensures
        lru_capacity(*final(c)) == lru_capacity(*old(c)),
        match r {
            Some(t) => exists|i: int|
                0 <= i < lru_entries(*old(c)).len() && lru_entries(*old(c))[i].0 == key_view(*k)
                    && t == lru_entries(*old(c))[i].1 && lru_entries(*final(c)) == lru_entries(
                    *old(c),
                ).remove(i),
            None => (forall|i: int|
                0 <= i < lru_entries(*old(c)).len() ==> lru_entries(*old(c))[i].0 != key_view(*k))
                && lru_entries(*final(c)) == lru_entries(*old(c)),
        },
{
    c.pop(k)
}

/// An entry list as a cache sees it: `(key, task)`, least recently used first.
pub type Entries = Seq<(Option<Seq<char>>, Task)>;

/// No key stands in two entries.
pub open spec fn unique_keys(s: Entries) -> bool {
    forall|i: int, j: int| 0 <= i < s.len() && 0 <= j < s.len() && s[i].0 == s[j].0 ==> i == j
}

/// Where key `k` stands in `s`, or -1.
pub open spec fn key_pos(s: Entries, k: Option<Seq<char>>) -> int {
    if exists|i: int| 0 <= i < s.len() && s[i].0 == k {
        choose|i: int| 0 <= i < s.len() && s[i].0 == k
    } else {
        -1
    }
}

/// The task stored under key `k`, if any.
pub open spec fn lookup(s: Entries, k: Option<Seq<char>>) -> Option<Task> {
    let p = key_pos(s, k);
    if p >= 0 {
        Some(s[p].1)
    } else {
        None
    }
}

/// `s` after a read of key `k`: a found entry becomes the most recent.
pub open spec fn touched(s: Entries, k: Option<Seq<char>>) -> Entries {
    let p = key_pos(s, k);
    if p >= 0 {
        s.remove(p).push(s[p])
    } else {
        s
    }
}

/// `s` after `v` is written under key `k` in a cache of capacity `cap`: the
/// entry becomes the most recent; a new key in a full cache pushes out the
/// least recent entry.
pub open spec fn stored(s: Entries, cap: nat, k: Option<Seq<char>>, v: Task) -> Entries {
    let p = key_pos(s, k);
    if p >= 0 {
        s.remove(p).push((k, v))
    } else if s.len() < cap {
        s.push((k, v))
    } else {
        s.drop_first().push((k, v))
    }
}

/// `s` without the entry of key `k`.
pub open spec fn removed(s: Entries, k: Option<Seq<char>>) -> Entries {
    let p = key_pos(s, k);
    if p >= 0 {
        s.remove(p)
    } else {
        s
    }
}

/// Among unique keys, the entry that holds `k` is the one `key_pos` finds.
pub proof fn lemma_key_pos(s: Entries, i: int)
    requires
        unique_keys(s),
        0 <= i < s.len(),
    ensures
        key_pos(s, s[i].0) == i,
{
}

/// Taking out entry `i` and appending an entry of the same key keeps the
/// keys unique.
proof fn lemma_move_to_back(s: Entries, i: int, v: Task)
    requires
        unique_keys(s),
        0 <= i < s.len(),
    ensures
        unique_keys(s.remove(i).push((s[i].0, v))),
{
    let t = s.remove(i).push((s[i].0, v));
    assert forall|a: int, b: int| 0 <= a < t.len() && 0 <= b < t.len() && t[a].0 == t[b].0 implies a
        == b by {
        let sa = if a == t.len() - 1 { i } else if a < i { a } else { a + 1 };
        let sb = if b == t.len() - 1 { i } else if b < i { b } else { b + 1 };
        assert(s[sa].0 == t[a].0);
        assert(s[sb].0 == t[b].0);
    }
}

/// A read keeps the entries, their keys unique, and what each key finds.
pub proof fn lemma_touched(s: Entries, k: Option<Seq<char>>, k2: Option<Seq<char>>)
    requires
        unique_keys(s),
    ensures
        unique_keys(touched(s, k)),
        touched(s, k).len() == s.len(),
        lookup(touched(s, k), k2) == lookup(s, k2),
{
    let p = key_pos(s, k);
    if p >= 0 {
        lemma_move_to_back(s, p, s[p].1);
        let t = touched(s, k);
        assert(t == s.remove(p).push((s[p].0, s[p].1)));
        if exists|i: int| 0 <= i < s.len() && s[i].0 == k2 {
            let i = choose|i: int| 0 <= i < s.len() && s[i].0 == k2;
            lemma_key_pos(s, i);
            let j = if i == p { t.len() - 1 } else if i < p { i } else { i - 1 };
            assert(t[j] == s[i]);
            lemma_key_pos(t, j);
        } else {
            assert forall|j: int| 0 <= j < t.len() implies t[j].0 != k2 by {
                let i = if j == t.len() - 1 { p } else if j < p { j } else { j + 1 };
                assert(t[j] == s[i]);
            }
        }
    }
}

/// A write keeps the keys unique and the cache within its capacity, and the
/// key written finds the value written.
pub proof fn lemma_stored(s: Entries, cap: nat, k: Option<Seq<char>>, v: Task)
    requires
        unique_keys(s),
        0 < cap,
        s.len() <= cap,
    ensures
        unique_keys(stored(s, cap, k, v)),
        stored(s, cap, k, v).len() <= cap,
        lookup(stored(s, cap, k, v), k) == Some(v),
{
    let p = key_pos(s, k);
    let t = stored(s, cap, k, v);
    if p >= 0 {
        lemma_move_to_back(s, p, v);
    } else {
        let base = if s.len() < cap { s } else { s.drop_first() };
        assert(t == base.push((k, v)));
        assert forall|a: int, b: int|
            0 <= a < t.len() && 0 <= b < t.len() && t[a].0 == t[b].0 implies a == b by {
            if a < base.len() && b < base.len() {
                if s.len() < cap {
                    assert(s[a].0 == s[b].0);
                } else {
                    assert(s[a + 1].0 == s[b + 1].0);
                }
            } else if a < base.len() {
                if s.len() < cap {
                    assert(s[a].0 == k);
                } else {
                    assert(s[a + 1].0 == k);
                }
            } else if b < base.len() {
                if s.len() < cap {
                    assert(s[b].0 == k);
                } else {
                    assert(s[b + 1].0 == k);
                }
            }
        }
    }
    lemma_key_pos(t, t.len() - 1);
}

/// Taking a key out keeps the keys unique, and the key then finds nothing.
pub proof fn lemma_removed(s: Entries, k: Option<Seq<char>>)
    requires
        unique_keys(s),
    ensures
        unique_keys(removed(s, k)),
        removed(s, k).len() <= s.len(),
        lookup(removed(s, k), k) is None,
{
    let p = key_pos(s, k);
    if p >= 0 {
        let t = s.remove(p);
        assert forall|a: int, b: int|
            0 <= a < t.len() && 0 <= b < t.len() && t[a].0 == t[b].0 implies a == b by {
            let sa = if a < p { a } else { a + 1 };
            let sb = if b < p { b } else { b + 1 };
            assert(s[sa].0 == t[a].0);
            assert(s[sb].0 == t[b].0);
        }
        assert forall|j: int| 0 <= j < t.len() implies t[j].0 != k by {
            let i = if j < p { j } else { j + 1 };
            assert(t[j] == s[i]);
            lemma_key_pos(s, i);
        }
    }
}

/// An LRU cache of tasks keyed by task identity, of a capacity fixed at
/// construction.
pub struct TaskCache {
    inner: LruCache<Option<String>, Task>,
}

impl TaskCache {
    /// The entries, least recently used first.
    pub closed spec fn entries(&self) -> Entries {
        lru_entries(self.inner)
    }

    /// The most entries the cache holds at once.
    pub closed spec fn capacity(&self) -> nat {
        lru_capacity(self.inner)
    }

    pub open spec fn wf(&self) -> bool {
        &&& 0 < self.capacity()
        &&& self.entries().len() <= self.capacity()
        &&& unique_keys(self.entries())
    }

    pub fn new(cap: usize) -> (r: TaskCache)
        requires
            cap > 0,
        ensures
            r.wf(),
            r.entries() == Seq::<(Option<Seq<char>>, Task)>::empty(),
            r.capacity() == cap,
    {
        TaskCache { inner: lru_new(cap) }
    }

    /// The task stored under `k`; a found entry becomes the most recent.
    pub fn get(&mut self, k: &Option<String>) -> (r: Option<Task>)
        requires
            old(self).wf(),
        ensures
            final(self).wf(),
            final(self).capacity() == old(self).capacity(),
            final(self).entries() == touched(old(self).entries(), key_view(*k)),
            r == lookup(old(self).entries(), key_view(*k)),
    {
        let r = lru_get(&mut self.inner, k);
        proof {
            let s = old(self).entries();
            if r is Some {
                let i = choose|i: int|
                    0 <= i < s.len() && s[i].0 == key_view(*k) && r->0 == s[i].1
                        && self.entries() == s.remove(i).push(s[i]);
                lemma_key_pos(s, i);
                lemma_move_to_back(s, i, s[i].1);
                assert(s.remove(i).push((s[i].0, s[i].1)) == s.remove(i).push(s[i]));
            }
        }
        r
    }

    /// Writes `v` under `k`; the entry becomes the most recent, and a new key
    /// in a full cache pushes out the least recent entry.
    pub fn put(&mut self, k: Option<String>, v: Task)
        requires
            old(self).wf(),
        ensures
            final(self).wf(),
            final(self).capacity() == old(self).capacity(),
            final(self).entries() == stored(
                old(self).entries(),
                old(self).capacity(),
                key_view(k),
                v,
            ),
    {
        let ghost kv = key_view(k);
        lru_put(&mut self.inner, k, v);
        proof {
            let s = old(self).entries();
            if exists|i: int| 0 <= i < s.len() && s[i].0 == kv {
                let i = choose|i: int|
                    0 <= i < s.len() && s[i].0 == kv && self.entries() == s.remove(i).push((kv, v));
                lemma_key_pos(s, i);
                lemma_move_to_back(s, i, v);
            } else {
                let t = self.entries();
                let base = if s.len() < old(self).capacity() { s } else { s.drop_first() };
                assert(t == base.push((kv, v)));
                assert forall|a: int, b: int|
                    0 <= a < t.len() && 0 <= b < t.len() && t[a].0 == t[b].0 implies a == b by {
                    if a < base.len() && b < base.len() {
                        if s.len() < old(self).capacity() {
                            assert(s[a].0 == s[b].0);
                        } else {
                            assert(s[a + 1].0 == s[b + 1].0);
                        }
                    } else if a < base.len() {
                        if s.len() < old(self).capacity() {
                            assert(s[a].0 == kv);
                        } else {
                            assert(s[a + 1].0 == kv);
                        }
                    } else if b < base.len() {
                        if s.len() < old(self).capacity() {
                            assert(s[b].0 == kv);
                        } else {
                            assert(s[b + 1].0 == kv);
                        }
                    }
                }
            }
        }
    }

    /// Takes the entry of `k` out, if any, and hands its task back.
    pub fn pop(&mut self, k: &Option<String>) -> (r: Option<Task>)
        requires
            old(self).wf(),
        ensures
            final(self).wf(),
            final(self).capacity() == old(self).capacity(),
            final(self).entries() == removed(old(self).entries(), key_view(*k)),
            r == lookup(old(self).entries(), key_view(*k)),
    {
        let r = lru_pop(&mut self.inner, k);
        proof {
            let s = old(self).entries();
            if r is Some {
                let i = choose|i: int|
                    0 <= i < s.len() && s[i].0 == key_view(*k) && r->0 == s[i].1
                        && self.entries() == s.remove(i);
                lemma_key_pos(s, i);
                let t = s.remove(i);
                assert forall|a: int, b: int|
                    0 <= a < t.len() && 0 <= b < t.len() && t[a].0 == t[b].0 implies a == b by {
                    let sa = if a < i { a } else { a + 1 };
                    let sb = if b < i { b } else { b + 1 };
                    assert(s[sa].0 == t[a].0);
                    assert(s[sb].0 == t[b].0);
                }
            }
        }
        r
    }
}

} // verus!
