use crate::state::{state_of_name, state_of_segment, segment_is, TaskState};
use vstd::prelude::*;
use vstd::utf8::encode_utf8;

verus! {

/// One observed lifecycle event, as decoded by the host from the broker.
/// A field the event did not carry is `None`. Timestamps and durations are
/// whole microseconds.
pub struct Event {
    /// The event type, `"<category>-<state word>"`, such as `"task-started"`.
    pub kind: Option<String>,
    pub uuid: Option<String>,
    pub name: Option<String>,
    pub local_received: Option<i64>,
    pub runtime: Option<i64>,
    pub queue: Option<String>,
}

/// Why a call was refused.
#[derive(Debug, Clone, Copy, PartialEq, Eq, Structural)]
pub enum StateError {
    /// The event lacks its type, or a task event lacks `local_received`.
    MalformedEvent,
    /// The cache capacity given at construction is zero.
    InvalidConfiguration,
}

/// What is known of one task: its identity and name (`None` while unknown),
/// when it was last seen received (microseconds), how long it ran
/// (microseconds, once a terminal event said so), and its state.
#[derive(Clone)]
pub struct Task {
    pub uuid: Option<String>,
    pub name: Option<String>,
    pub local_received: i64,
    pub runtime: Option<i64>,
    pub state: TaskState,
}

/// The byte `-` that parts an event type's category from its state word.
pub const DASH: u8 = 45;

/// The index of the first `-` in `b` at or after `from`, or `b.len()`.
pub open spec fn first_dash(b: Seq<u8>, from: int) -> int
    decreases b.len() - from,
{
    if 0 <= from < b.len() {
        if b[from] == DASH {
            from
        } else {
            first_dash(b, from + 1)
        }
    } else {
        b.len() as int
    }
}

/// The category of an event type: what stands before its first `-`.
pub open spec fn category(b: Seq<u8>) -> Seq<u8> {
    b.subrange(0, first_dash(b, 0))
}

/// The state word of an event type: what stands between its first and its
/// second `-` (or its end); empty where it holds no `-`.
pub open spec fn state_word(b: Seq<u8>) -> Seq<u8> {
    let d = first_dash(b, 0);
    if d < b.len() {
        b.subrange(d + 1, first_dash(b, d + 1))
    } else {
        Seq::empty()
    }
}

/// `task` in ASCII: the category of the events that speak of a task.
pub open spec fn task_category() -> Seq<u8> {
    seq![116u8, 97, 115, 107]
}

/// A task of which nothing is known yet.
pub open spec fn blank_task() -> Task {
    Task { uuid: None, name: None, local_received: 0, runtime: None, state: TaskState::Undefined }
}

/// `t` brought up to date with event `e`. An event outside the task category
/// leaves `t` as it is; a field that `e` does not carry keeps its value in `t`.
pub open spec fn apply_event(t: Task, e: Event) -> Result<Task, StateError> {
    match e.kind {
        None => Err(StateError::MalformedEvent),
        Some(k) => {
            let b = encode_utf8(k@);
            if category(b) == task_category() {
                match e.local_received {
                    None => Err(StateError::MalformedEvent),
                    Some(lr) => Ok(
                        Task {
                            uuid: if e.uuid is Some { e.uuid } else { t.uuid },
                            name: if e.name is Some { e.name } else { t.name },
                            local_received: lr,
                            runtime: if e.runtime is Some { e.runtime } else { t.runtime },
                            state: state_of_name(state_word(b)),
                        },
                    ),
                }
            } else {
                Ok(t)
            }
        },
    }
}

/// The task that event `e` describes on its own.
pub open spec fn decode(e: Event) -> Result<Task, StateError> {
    apply_event(blank_task(), e)
}

/// A copy of an optional text.
pub fn copy_text(o: &Option<String>) -> (r: Option<String>)
    ensures
        r == *o,
{
    match o {
        Some(s) => Some(s.clone()),
        None => None,
    }
}

/// The index of the first `-` in `b` at or after `from`.
fn find_dash(b: &[u8], from: usize) -> (r: usize)
    requires
        from <= b@.len(),
    ensures
        r as int == first_dash(b@, from as int),
        from <= r <= b@.len(),
{
    let mut i: usize = from;
    while i < b.len() && b[i] != DASH
        invariant
            from <= i <= b@.len(),
            first_dash(b@, i as int) == first_dash(b@, from as int),
        decreases b@.len() - i,
    {
        i = i + 1;
    }
    i
}

impl Default for Task {
    fn default() -> (r: Task)
        ensures
            r == blank_task(),
    {
        Task { uuid: None, name: None, local_received: 0, runtime: None, state: TaskState::Undefined }
    }
}

impl Task {
    /// Updates the task with what `evt` carries; on an error the task is
    /// unchanged.
    pub fn update_from_event(&mut self, evt: &Event) -> (r: Result<(), StateError>)
        ensures
            match r {
                Ok(_) => apply_event(*old(self), *evt) == Ok::<Task, StateError>(*final(self)),
                Err(e) => apply_event(*old(self), *evt) == Err::<Task, StateError>(e)
                    && *final(self) == *old(self),
            },
    {
        let kind = match &evt.kind {
            Some(k) => k,
            None => {
                return Err(StateError::MalformedEvent);
            },
        };
        let b = kind.as_str().as_bytes();
        let d = find_dash(b, 0);
        let task: [u8; 4] = [116u8, 97, 115, 107];
        if !segment_is(b, 0, d, task.as_slice()) {
            return Ok(());
        }
        let lr = match evt.local_received {
            Some(v) => v,
            None => {
                return Err(StateError::MalformedEvent);
            },
        };
        let state = if d < b.len() {
            let e = find_dash(b, d + 1);
            state_of_segment(b, d + 1, e)
        } else {
            proof {
                assert(b@.subrange(d as int, d as int) =~= Seq::<u8>::empty());
            }
            state_of_segment(b, d, d)
        };
        if evt.uuid.is_some() {
            self.uuid = copy_text(&evt.uuid);
        }
        self.state = state;
        self.local_received = lr;
        if evt.name.is_some() {
            self.name = copy_text(&evt.name);
        }
        if evt.runtime.is_some() {
            self.runtime = evt.runtime;
        }
        Ok(())
    }

    /// A duplicate of the task, field by field.
    pub fn copy(&self) -> (r: Task)
        ensures
            r == *self,
    {
        Task {
            uuid: copy_text(&self.uuid),
            name: copy_text(&self.name),
            local_received: self.local_received,
            runtime: self.runtime,
            state: self.state,
        }
    }

    /// The task that `evt` describes on its own.
    pub fn from_event(evt: &Event) -> (r: Result<Task, StateError>)
        ensures
            r == decode(*evt),
    {
        let mut t = Task::default();
        match t.update_from_event(evt) {
            Ok(_) => Ok(t),
            Err(e) => Err(e),
        }
    }
}

} // verus!
