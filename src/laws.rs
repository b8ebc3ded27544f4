use crate::event::{decode, Event, Task};
use crate::processor::{after_event, collected, measured, snapshot_wf, tracked_name, Snapshot};
use crate::task_cache::{
    key_pos, key_view, lemma_key_pos, lemma_removed, lemma_stored, lemma_touched, lookup, stored,
    touched, unique_keys, Entries,
};
use vstd::prelude::*;

verus! {

/// The bookkeeping step keeps a snapshot well formed and leaves the task's
/// identity cached under the name it is known by.
pub proof fn lemma_after_event(s: Snapshot, t: Task)
    requires
        snapshot_wf(s),
    ensures
        snapshot_wf(after_event(s, t)),
        lookup(after_event(s, t).tasks, key_view(t.uuid)) is Some,
        lookup(after_event(s, t).tasks, key_view(t.uuid))->0.name == tracked_name(s.tasks, t),
{
    let k = key_view(t.uuid);
    lemma_touched(s.tasks, k, k);
    lemma_stored(s.tasks, s.capacity, k, t);
}

/// `collect` keeps a snapshot well formed.
pub proof fn lemma_collected_wf(s: Snapshot, t: Task, q: Option<String>)
    requires
        snapshot_wf(s),
    ensures
        snapshot_wf(collected(s, t, q).0),
{
    let k = key_view(t.uuid);
    if t.state.spec_is_terminal() {
        lemma_removed(s.tasks, k);
    } else {
        lemma_after_event(s, t);
        let s1 = after_event(s, t);
        let cur = lookup(s1.tasks, k)->0;
        lemma_stored(s1.tasks, s1.capacity, k, Task { state: t.state, ..cur });
    }
}

/// Writing an entry's own key and value again, where it is the most recent
/// entry, changes nothing; nor does reading it.
proof fn lemma_rewrite_last(s: Entries, cap: nat, k: Option<Seq<char>>, v: Task)
    requires
        unique_keys(s),
        s.len() > 0,
        s.last() == (k, v),
    ensures
        stored(s, cap, k, v) == s,
        touched(s, k) == s,
{
    lemma_key_pos(s, s.len() - 1);
    assert(key_pos(s, k) == s.len() - 1);
    assert(s.remove(s.len() - 1).push((k, v)) =~= s);
}

/// After a terminal event, a start of the same task finds no record of it:
/// `latency` reports nothing.
pub proof fn law_terminal_forgets(s: Snapshot, done: Event, start: Event)
    requires
        snapshot_wf(s),
        decode(done) is Ok,
        decode(done)->Ok_0.state.spec_is_terminal(),
        decode(start) is Ok,
        decode(start)->Ok_0.state is Started,
        key_view(decode(start)->Ok_0.uuid) == key_view(decode(done)->Ok_0.uuid),
    ensures
        measured(collected(s, decode(done)->Ok_0, done.queue).0, decode(start)->Ok_0).1 is None,
{
    lemma_removed(s.tasks, key_view(decode(done)->Ok_0.uuid));
}

/// Collecting the same non-terminal event twice for a task not yet cached
/// reports the same name, state and queue both times; the second call
/// leaves the cache as the first left it.
pub proof fn law_collect_twice(s: Snapshot, e: Event)
    requires
        snapshot_wf(s),
        decode(e) is Ok,
        !decode(e)->Ok_0.state.spec_is_terminal(),
        lookup(s.tasks, key_view(decode(e)->Ok_0.uuid)) is None,
    ensures
        ({
            let t = decode(e)->Ok_0;
            let (s1, o1) = collected(s, t, e.queue);
            let (s2, o2) = collected(s1, t, e.queue);
            &&& o1.0 == o2.0
            &&& o1.1 == o2.1
            &&& o1.3 == o2.3
            &&& s2.tasks == s1.tasks
            &&& lookup(s1.tasks, key_view(t.uuid)) == Some(t)
        }),
{
    let t = decode(e)->Ok_0;
    let k = key_view(t.uuid);
    let a = after_event(s, t);
    lemma_after_event(s, t);
    lemma_stored(s.tasks, s.capacity, k, t);
    assert(a.tasks == stored(s.tasks, s.capacity, k, t));
    let cur = lookup(a.tasks, k)->0;
    assert(cur == t);
    assert(Task { state: t.state, ..cur } == t);
    assert(a.tasks.last() == (k, t)) by {
        lemma_key_pos(a.tasks, a.tasks.len() - 1);
    }
    lemma_rewrite_last(a.tasks, a.capacity, k, t);
    let (s1, o1) = collected(s, t, e.queue);
    assert(s1.tasks == a.tasks);
    let b = after_event(s1, t);
    lemma_rewrite_last(s1.tasks, s1.capacity, k, t);
    lemma_key_pos(s1.tasks, s1.tasks.len() - 1);
    assert(lookup(s1.tasks, k) == Some(t));
    assert(b.tasks == s1.tasks);
    let (s2, o2) = collected(s1, t, e.queue);
    assert(s2.tasks == s1.tasks);
    match e.queue {
        Some(x) => {
            assert(s2.queues =~= s1.queues);
        },
        None => {},
    }
}

/// With room for one task, a receipt for a second task pushes the first
/// out: a start of the first then finds no record of it.
pub proof fn law_capacity_one_evicts(s: Snapshot, ra: Event, rb: Event, start: Event)
    requires
        snapshot_wf(s),
        s.capacity == 1,
        decode(ra) is Ok,
        decode(ra)->Ok_0.state is Received,
        decode(rb) is Ok,
        decode(rb)->Ok_0.state is Received,
        key_view(decode(ra)->Ok_0.uuid) != key_view(decode(rb)->Ok_0.uuid),
        decode(start) is Ok,
        decode(start)->Ok_0.state is Started,
        key_view(decode(start)->Ok_0.uuid) == key_view(decode(ra)->Ok_0.uuid),
    ensures
        ({
            let s1 = collected(s, decode(ra)->Ok_0, ra.queue).0;
            let s2 = collected(s1, decode(rb)->Ok_0, rb.queue).0;
            measured(s2, decode(start)->Ok_0).1 is None
        }),
{
    let ta = decode(ra)->Ok_0;
    let tb = decode(rb)->Ok_0;
    let s1 = collected(s, ta, ra.queue).0;
    lemma_collected_wf(s, ta, ra.queue);
    let b = after_event(s1, tb);
    lemma_after_event(s1, tb);
    let kb = key_view(tb.uuid);
    let cur = lookup(b.tasks, kb)->0;
    let v = Task { state: tb.state, ..cur };
    lemma_stored(b.tasks, b.capacity, kb, v);
    let s2 = collected(s1, tb, rb.queue).0;
    assert(s2.tasks == stored(b.tasks, b.capacity, kb, v));
    let ka = key_view(ta.uuid);
    let p = key_pos(s2.tasks, kb);
    assert(p >= 0);
    assert forall|i: int| 0 <= i < s2.tasks.len() implies s2.tasks[i].0 != ka by {
        assert(i == 0 && p == 0);
    }
}

/// The queue recorded through one task's event is the queue reported for
/// every task known by the same name: by `collect`, for an event that
/// carries no queue of its own, and by `latency`.
pub proof fn law_queue_shared(s: Snapshot, e1: Event, e2: Event)
    requires
        snapshot_wf(s),
        decode(e1) is Ok,
        !decode(e1)->Ok_0.state.spec_is_terminal(),
        e1.queue is Some,
        decode(e2) is Ok,
        e2.queue is None,
    ensures
        ({
            let (s1, o1) = collected(s, decode(e1)->Ok_0, e1.queue);
            let t2 = decode(e2)->Ok_0;
            let (_, o2) = collected(s1, t2, e2.queue);
            let (_, m2) = measured(s1, t2);
            &&& key_view(tracked_name(s1.tasks, t2)) == o1.0 ==> o2.3 == Some(e1.queue->0@)
            &&& (m2 matches Some((n, q, _)) ==> n == o1.0 ==> q == Some(e1.queue->0@))
        }),
{
    let t1 = decode(e1)->Ok_0;
    let t2 = decode(e2)->Ok_0;
    let (s1, o1) = collected(s, t1, e1.queue);
    lemma_collected_wf(s, t1, e1.queue);
    assert(s1.queues.contains_key(o1.0) && s1.queues[o1.0] == e1.queue->0@);
    lemma_after_event(s1, t2);
}

/// The latency of a task first seen received is the time from that receipt
/// to its start, reported under the task's name and its name's queue.
pub proof fn law_latency_from_receipt(s: Snapshot, received: Event, start: Event)
    requires
        snapshot_wf(s),
        decode(received) is Ok,
        decode(received)->Ok_0.state is Received,
        lookup(s.tasks, key_view(decode(received)->Ok_0.uuid)) is None,
        decode(start) is Ok,
        decode(start)->Ok_0.state is Started,
        key_view(decode(start)->Ok_0.uuid) == key_view(decode(received)->Ok_0.uuid),
    ensures
        ({
            let tr = decode(received)->Ok_0;
            let ts = decode(start)->Ok_0;
            let (s1, o1) = collected(s, tr, received.queue);
            measured(s1, ts).1 == Some(
                (o1.0, o1.3, ts.local_received - tr.local_received),
            )
        }),
{
    let t = decode(received)->Ok_0;
    let k = key_view(t.uuid);
    let a = after_event(s, t);
    lemma_after_event(s, t);
    lemma_stored(s.tasks, s.capacity, k, t);
    let cur = lookup(a.tasks, k)->0;
    assert(cur == t);
    assert(Task { state: t.state, ..cur } == t);
    assert(a.tasks.last() == (k, t)) by {
        lemma_key_pos(a.tasks, a.tasks.len() - 1);
    }
    lemma_rewrite_last(a.tasks, a.capacity, k, t);
    let (s1, o1) = collected(s, t, received.queue);
    assert(s1.tasks == a.tasks);
    lemma_key_pos(s1.tasks, s1.tasks.len() - 1);
    assert(lookup(s1.tasks, k) == Some(t));
}

} // verus!
