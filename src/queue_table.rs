use crate::task_cache::key_view;
use vstd::prelude::*;

verus! {

/// Whether two optional texts hold the same text.
pub fn same_key(a: &Option<String>, b: &Option<String>) -> (r: bool)
    ensures
        r == (key_view(*a) == key_view(*b)),
{
    match (a, b) {
        (Some(x), Some(y)) => x.eq(y),
        (None, None) => true,
        _ => false,
    }
}

/// The queue last seen for each task name (`None` standing for a task whose
/// name is unknown). Names are few, so the table is a plain list.
pub struct QueueTable {
    names: Vec<Option<String>>,
    queues: Vec<String>,
}

impl QueueTable {
    pub closed spec fn has(&self, k: Option<Seq<char>>) -> bool {
        exists|i: int| 0 <= i < self.names@.len() && key_view(self.names@[i]) == k
    }

    pub closed spec fn view(&self) -> Map<Option<Seq<char>>, Seq<char>> {
        Map::new(
            |k: Option<Seq<char>>| self.has(k),
            |k: Option<Seq<char>>|
                self.queues@[choose|i: int|
                    0 <= i < self.names@.len() && key_view(self.names@[i]) == k]@,
        )
    }

    pub closed spec fn wf(&self) -> bool {
        &&& self.names@.len() == self.queues@.len()
        &&& forall|i: int, j: int|
            0 <= i < self.names@.len() && 0 <= j < self.names@.len() && key_view(self.names@[i])
                == key_view(self.names@[j]) ==> i == j
    }

    pub fn new() -> (r: QueueTable)
        ensures
            r.wf(),
            r@ == Map::<Option<Seq<char>>, Seq<char>>::empty(),
    {
        let r = QueueTable { names: Vec::new(), queues: Vec::new() };
        assert(r@ =~= Map::<Option<Seq<char>>, Seq<char>>::empty());
        r
    }

    /// Where `k` stands in the list.
    fn position(&self, k: &Option<String>) -> (r: Option<usize>)
        requires
            self.wf(),
        ensures
            match r {
                Some(p) => p < self.names@.len() && key_view(self.names@[p as int]) == key_view(*k),
                None => !self.has(key_view(*k)),
            },
    {
        let mut i: usize = 0;
        while i < self.names.len()
            invariant
                self.wf(),
                i <= self.names@.len(),
                forall|j: int| 0 <= j < i ==> key_view(self.names@[j]) != key_view(*k),
            decreases self.names@.len() - i,
        {
            if same_key(&self.names[i], k) {
                return Some(i);
            }
            i = i + 1;
        }
        None
    }

    /// The queue recorded for name `k`.
    pub fn get(&self, k: &Option<String>) -> (r: Option<String>)
        requires
            self.wf(),
        ensures
            match r {
                Some(q) => self@.contains_key(key_view(*k)) && q@ == self@[key_view(*k)],
                None => !self@.contains_key(key_view(*k)),
            },
    {
        match self.position(k) {
            Some(p) => {
                let q = self.queues[p].clone();
                proof {
                    let j = choose|j: int|
                        0 <= j < self.names@.len() && key_view(self.names@[j]) == key_view(*k);
                    assert(j == p);
                }
                Some(q)
            },
            None => None,
        }
    }

    /// Records `q` as the queue of name `k`.
    pub fn insert(&mut self, k: Option<String>, q: String)
        requires
            old(self).wf(),
        ensures
            final(self).wf(),
            final(self)@ == old(self)@.insert(key_view(k), q@),
    {
        let ghost kv = key_view(k);
        let ghost qv = q@;
        match self.position(&k) {
            Some(p) => {
                self.queues.set(p, q);
                proof {
                    assert forall|x: Option<Seq<char>>| self.has(x) == old(self)@.insert(kv, qv).contains_key(x) by {
                        if old(self).has(x) {
                            let j = choose|j: int|
                                0 <= j < self.names@.len() && key_view(self.names@[j]) == x;
                            assert(self.has(x));
                        }
                    }
                    assert forall|x: Option<Seq<char>>| #[trigger] self.has(x) implies self@[x] == old(self)@.insert(kv, qv)[x] by {
                        let j = choose|j: int|
                            0 <= j < self.names@.len() && key_view(self.names@[j]) == x;
                        if x != kv {
                            assert(old(self).has(x));
                            assert(j != p);
                        } else {
                            assert(j == p);
                        }
                    }
                    assert(self@ =~= old(self)@.insert(kv, qv));
                }
            },
            None => {
                self.names.push(k);
                self.queues.push(q);
                proof {
                    let n = old(self).names@.len() as int;
                    assert(self.names@[n] == k);
                    assert forall|x: Option<Seq<char>>| self.has(x) == old(self)@.insert(kv, qv).contains_key(x) by {
                        if old(self).has(x) {
                            let j = choose|j: int|
                                0 <= j < old(self).names@.len() && key_view(old(self).names@[j]) == x;
                            assert(self.names@[j] == old(self).names@[j]);
                        }
                        if self.has(x) && x != kv {
                            let j = choose|j: int|
                                0 <= j < self.names@.len() && key_view(self.names@[j]) == x;
                            assert(j < n);
                            assert(old(self).names@[j] == self.names@[j]);
                        }
                    }
                    assert forall|x: Option<Seq<char>>| #[trigger] self.has(x) implies self@[x] == old(self)@.insert(kv, qv)[x] by {
                        let j = choose|j: int|
                            0 <= j < self.names@.len() && key_view(self.names@[j]) == x;
                        if x != kv {
                            assert(j < n);
                            assert(old(self).names@[j] == self.names@[j]);
                            let j0 = choose|j0: int|
                                0 <= j0 < old(self).names@.len() && key_view(old(self).names@[j0]) == x;
                            assert(j0 == j);
                        } else {
                            assert(j == n);
                        }
                    }
                    assert(self@ =~= old(self)@.insert(kv, qv));
                }
            },
        }
    }
}

} // verus!
