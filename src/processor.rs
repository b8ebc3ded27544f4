use crate::event::{copy_text, decode, Event, StateError, Task};
use crate::queue_table::QueueTable;
use crate::state::TaskState;
use crate::task_cache::{
    key_view, lemma_removed, lemma_stored, lemma_touched, lookup, removed, stored, touched, unique_keys, Entries, TaskCache,
};
use vstd::prelude::*;

verus! {

/// What `collect` reports: the task's name and queue (`None` where unknown),
/// the state of the event, and the runtime that a terminal event carried.
pub struct CollectOutcome {
    pub name: Option<String>,
    pub state: TaskState,
    pub runtime: Option<i64>,
    pub queue: Option<String>,
}

/// What `latency` reports for a start whose receipt is on record: the task's
/// name and queue (`None` where unknown), and the microseconds between its
/// receipt and its start.
pub struct LatencyOutcome {
    pub name: Option<String>,
    pub queue: Option<String>,
    pub latency: i128,
}

/// `collect`'s report as plain values: name, state, runtime, queue.
pub type CollectView = (Option<Seq<char>>, TaskState, Option<i64>, Option<Seq<char>>);

/// `latency`'s report as plain values: name, queue, latency.
pub type LatencyView = (Option<Seq<char>>, Option<Seq<char>>, int);

impl CollectOutcome {
    pub open spec fn view(&self) -> CollectView {
        (key_view(self.name), self.state, self.runtime, key_view(self.queue))
    }
}

impl LatencyOutcome {
    pub open spec fn view(&self) -> LatencyView {
        (key_view(self.name), key_view(self.queue), self.latency as int)
    }
}

/// Everything a tracker knows, as plain values: the cached tasks (least
/// recently used first), the cache's capacity, the queue of each task name,
/// and the two counters.
pub struct Snapshot {
    pub tasks: Entries,
    pub capacity: nat,
    pub queues: Map<Option<Seq<char>>, Seq<char>>,
    pub event_count: nat,
    pub task_count: nat,
}

/// The cache is within its capacity and holds each identity at most once.
pub open spec fn snapshot_wf(s: Snapshot) -> bool {
    &&& 0 < s.capacity
    &&& s.tasks.len() <= s.capacity
    &&& unique_keys(s.tasks)
}

/// The queue recorded for task name `n`.
pub open spec fn queue_of(m: Map<Option<Seq<char>>, Seq<char>>, n: Option<Seq<char>>) -> Option<
    Seq<char>,
> {
    if m.contains_key(n) {
        Some(m[n])
    } else {
        None
    }
}

/// The name under which task `t` is known: that of its cached entry, else
/// its own.
pub open spec fn tracked_name(tasks: Entries, t: Task) -> Option<String> {
    match lookup(tasks, key_view(t.uuid)) {
        Some(c) => c.name,
        None => t.name,
    }
}

/// The bookkeeping step for a non-terminal task `t`: it counts the event,
/// stores `t` if its identity is not cached yet (a cached one is read, which
/// makes it the most recent), and counts a receipt.
pub open spec fn after_event(s: Snapshot, t: Task) -> Snapshot {
    let k = key_view(t.uuid);
    Snapshot {
        tasks: if lookup(s.tasks, k) is Some {
            touched(s.tasks, k)
        } else {
            stored(s.tasks, s.capacity, k, t)
        },
        event_count: s.event_count + 1,
        task_count: if t.state is Received {
            s.task_count + 1
        } else {
            s.task_count
        },
        ..s
    }
}

/// `collect` on decoded task `t` whose event carried queue `q`: the new
/// snapshot and the report.
pub open spec fn collected(s: Snapshot, t: Task, q: Option<String>) -> (Snapshot, CollectView) {
    let k = key_view(t.uuid);
    if t.state.spec_is_terminal() {
        let name = key_view(tracked_name(s.tasks, t));
        (Snapshot { tasks: removed(s.tasks, k), ..s }, (name, t.state, t.runtime, queue_of(s.queues, name)))
    } else {
        let s1 = after_event(s, t);
        let cur = lookup(s1.tasks, k)->0;
        let name = key_view(cur.name);
        let queues = match q {
            Some(x) => s1.queues.insert(name, x@),
            None => s1.queues,
        };
        (
            Snapshot {
                tasks: stored(s1.tasks, s1.capacity, k, Task { state: t.state, ..cur }),
                queues,
                ..s1
            },
            (name, t.state, None, queue_of(queues, name)),
        )
    }
}

/// `latency` on decoded task `t`: the new snapshot and the report, if any.
pub open spec fn measured(s: Snapshot, t: Task) -> (Snapshot, Option<LatencyView>) {
    if t.state is Started {
        let k = key_view(t.uuid);
        let s1 = Snapshot { tasks: touched(s.tasks, k), ..s };
        match lookup(s.tasks, k) {
            Some(p) => if p.state is Received {
                let name = key_view(p.name);
                (s1, Some((name, queue_of(s.queues, name), t.local_received - p.local_received)))
            } else {
                (s1, None)
            },
            None => (s1, None),
        }
    } else {
        (s, None)
    }
}

/// Tracks the tasks in flight from their lifecycle events: a bounded LRU
/// cache of tasks by identity, the queue last seen for each task name, and
/// counters of events and of receipts.
pub struct CeleryState {
    event_count: u64,
    task_count: u64,
    queue_by_task: QueueTable,
    tasks: TaskCache,
}

impl CeleryState {
    pub closed spec fn snapshot(&self) -> Snapshot {
        Snapshot {
            tasks: self.tasks.entries(),
            capacity: self.tasks.capacity(),
            queues: self.queue_by_task@,
            event_count: self.event_count as nat,
            task_count: self.task_count as nat,
        }
    }

    pub closed spec fn wf(&self) -> bool {
        &&& self.tasks.wf()
        &&& self.queue_by_task.wf()
    }

    /// A tracker that holds at most `max_tasks_in_memory` tasks at once.
    pub fn new(max_tasks_in_memory: usize) -> (r: Result<CeleryState, StateError>)
        ensures
            match r {
                Ok(c) => max_tasks_in_memory > 0 && c.wf() && snapshot_wf(c.snapshot())
                    && c.snapshot() == (Snapshot {
                    tasks: Seq::empty(),
                    capacity: max_tasks_in_memory as nat,
                    queues: Map::empty(),
                    event_count: 0,
                    task_count: 0,
                }),
                Err(e) => max_tasks_in_memory == 0 && e == StateError::InvalidConfiguration,
            },
    {
        if max_tasks_in_memory == 0 {
            return Err(StateError::InvalidConfiguration);
        }
        Ok(
            CeleryState {
                event_count: 0,
                task_count: 0,
                queue_by_task: QueueTable::new(),
                tasks: TaskCache::new(max_tasks_in_memory),
            },
        )
    }

    /// The number of non-terminal events processed.
    pub fn event_count(&self) -> (r: u64)
        ensures
            r == self.snapshot().event_count,
    {
        self.event_count
    }

    /// The number of events processed whose state was `Received`.
    pub fn task_count(&self) -> (r: u64)
        ensures
            r == self.snapshot().task_count,
    {
        self.task_count
    }

    /// The bookkeeping step for non-terminal task `task`; hands back the
    /// cached entry of its identity.
    fn event(&mut self, task: Task) -> (cur: Task)
        requires
            old(self).wf(),
            old(self).snapshot().event_count < u64::MAX,
            old(self).snapshot().task_count < u64::MAX,
        ensures
            final(self).wf(),
            final(self).snapshot() == after_event(old(self).snapshot(), task),
            lookup(final(self).snapshot().tasks, key_view(task.uuid)) == Some(cur),
    {
        self.event_count = self.event_count + 1;
        if task.state == TaskState::Received {
            self.task_count = self.task_count + 1;
        }
        let cur = match self.tasks.get(&task.uuid) {
            Some(c) => {
                proof {
                    lemma_touched(old(self).snapshot().tasks, key_view(task.uuid), key_view(task.uuid));
                }
                c
            },
            None => {
                let key = copy_text(&task.uuid);
                let stored_task = task.copy();
                self.tasks.put(key, stored_task);
                proof {
                    lemma_stored(old(self).snapshot().tasks, old(self).snapshot().capacity, key_view(task.uuid), task);
                }
                task
            },
        };
        cur
    }

    /// Processes one event: a terminal event takes its task out of the cache;
    /// any other is counted, its task cached if new, the cached state set to
    /// the event's, and a queue it carries recorded for the task's name.
    pub fn collect(&mut self, evt: &Event) -> (r: Result<CollectOutcome, StateError>)
        requires
            old(self).wf(),
            old(self).snapshot().event_count < u64::MAX,
            old(self).snapshot().task_count < u64::MAX,
        ensures
            final(self).wf(),
            snapshot_wf(final(self).snapshot()),
            match r {
                Ok(o) => decode(*evt) is Ok && (final(self).snapshot(), o@) == collected(
                    old(self).snapshot(),
                    decode(*evt)->Ok_0,
                    evt.queue,
                ),
                Err(e) => decode(*evt) == Err::<Task, StateError>(e) && final(self).snapshot()
                    == old(self).snapshot(),
            },
            r is Ok && !decode(*evt)->Ok_0.state.spec_is_terminal() ==> r->Ok_0.state == decode(
                *evt,
            )->Ok_0.state && r->Ok_0.runtime is None,
            final(self).snapshot().event_count == old(self).snapshot().event_count + if r is Ok
                && !decode(*evt)->Ok_0.state.spec_is_terminal() {
                1int
            } else {
                0int
            },
            final(self).snapshot().task_count == old(self).snapshot().task_count + if r is Ok
                && decode(*evt)->Ok_0.state is Received {
                1int
            } else {
                0int
            },
    {
        let task = match Task::from_event(evt) {
            Ok(t) => t,
            Err(e) => {
                return Err(e);
            },
        };
        if task.state.is_terminal() {
            let popped = self.tasks.pop(&task.uuid);
            proof {
                lemma_removed(old(self).snapshot().tasks, key_view(task.uuid));
            }
            let name = match popped {
                Some(p) => p.name,
                None => task.name,
            };
            let queue = self.queue_by_task.get(&name);
            Ok(CollectOutcome { name, state: task.state, runtime: task.runtime, queue })
        } else {
            let ghost s1 = after_event(old(self).snapshot(), task);
            let key = copy_text(&task.uuid);
            let state = task.state;
            let mut cur = self.event(task);
            cur.state = state;
            let name = copy_text(&cur.name);
            let ghost updated = cur;
            self.tasks.put(key, cur);
            proof {
                lemma_stored(s1.tasks, s1.capacity, key_view(task.uuid), updated);
            }
            match &evt.queue {
                Some(q) => {
                    self.queue_by_task.insert(copy_text(&name), q.clone());
                },
                None => {},
            }
            let queue = self.queue_by_task.get(&name);
            Ok(CollectOutcome { name, state, runtime: None, queue })
        }
    }

    /// The queueing delay of a task whose start `evt` reports: present only
    /// where the cache still holds the task in state `Received`. The cached
    /// entry, if any, is read, which makes it the most recent. Call it before
    /// `collect` on the same event: `collect` sets the cached state to the
    /// event's, after which the receipt is no longer on record.
    pub fn latency(&mut self, evt: &Event) -> (r: Result<Option<LatencyOutcome>, StateError>)
        requires
            old(self).wf(),
        ensures
            final(self).wf(),
            snapshot_wf(final(self).snapshot()),
            match r {
                Ok(o) => decode(*evt) is Ok && measured(old(self).snapshot(), decode(*evt)->Ok_0)
                    == (final(self).snapshot(), match o {
                    Some(x) => Some(x@),
                    None => None,
                }),
                Err(e) => decode(*evt) == Err::<Task, StateError>(e) && final(self).snapshot()
                    == old(self).snapshot(),
            },
    {
        let task = match Task::from_event(evt) {
            Ok(t) => t,
            Err(e) => {
                return Err(e);
            },
        };
        if task.state != TaskState::Started {
            return Ok(None);
        }
        let found = self.tasks.get(&task.uuid);
        proof {
            lemma_touched(old(self).snapshot().tasks, key_view(task.uuid), key_view(task.uuid));
        }
        match found {
            Some(p) => {
                if p.state == TaskState::Received {
                    let queue = self.queue_by_task.get(&p.name);
                    let latency = task.local_received as i128 - p.local_received as i128;
                    Ok(Some(LatencyOutcome { name: p.name, queue, latency }))
                } else {
                    Ok(None)
                }
            },
            None => Ok(None),
        }
    }
}

} // verus!
