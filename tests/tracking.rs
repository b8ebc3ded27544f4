use celery_state::{event_to_state, CeleryState, Event, StateError, Task, TaskState};

fn text(s: &str) -> Option<String> {
    Some(s.to_string())
}

fn event(kind: &str, uuid: &str, name: Option<&str>, local_received: i64) -> Event {
    Event {
        kind: text(kind),
        uuid: text(uuid),
        name: name.map(|n| n.to_string()),
        local_received: Some(local_received),
        runtime: None,
        queue: None,
    }
}

fn with_queue(mut e: Event, q: &str) -> Event {
    e.queue = text(q);
    e
}

fn tracker(cap: usize) -> CeleryState {
    match CeleryState::new(cap) {
        Ok(c) => c,
        Err(_) => panic!("a positive capacity is accepted"),
    }
}

#[test]
fn state_words_map_to_states() {
    assert_eq!(event_to_state("sent"), TaskState::Pending);
    assert_eq!(event_to_state("received"), TaskState::Received);
    assert_eq!(event_to_state("started"), TaskState::Started);
    assert_eq!(event_to_state("failed"), TaskState::Failure);
    assert_eq!(event_to_state("retried"), TaskState::Retry);
    assert_eq!(event_to_state("succeeded"), TaskState::Success);
    assert_eq!(event_to_state("revoked"), TaskState::Revoked);
    assert_eq!(event_to_state("rejected"), TaskState::Rejected);
    assert_eq!(event_to_state("heartbeat"), TaskState::Undefined);
    assert_eq!(event_to_state(""), TaskState::Undefined);
    assert_eq!(event_to_state("Started"), TaskState::Undefined);
}

#[test]
fn state_texts() {
    assert_eq!(TaskState::Pending.as_text(), "PENDING");
    assert_eq!(TaskState::Received.as_text(), "RECEIVED");
    assert_eq!(TaskState::Started.as_text(), "STARTED");
    assert_eq!(TaskState::Failure.as_text(), "FAILURE");
    assert_eq!(TaskState::Retry.as_text(), "RETRY");
    assert_eq!(TaskState::Success.as_text(), "SUCCESS");
    assert_eq!(TaskState::Revoked.as_text(), "REVOKED");
    assert_eq!(TaskState::Rejected.as_text(), "REJECTED");
    assert_eq!(TaskState::Undefined.as_text(), "UNDEFINED");
}

#[test]
fn terminal_states() {
    assert!(TaskState::Success.is_terminal());
    assert!(TaskState::Failure.is_terminal());
    assert!(TaskState::Revoked.is_terminal());
    assert!(!TaskState::Received.is_terminal());
    assert!(!TaskState::Rejected.is_terminal());
    assert!(!TaskState::Undefined.is_terminal());
}

#[test]
fn decodes_a_task_event() {
    let mut e = event("task-succeeded", "id-1", Some("add"), 42);
    e.runtime = Some(1_250_000);
    let t = Task::from_event(&e).ok().unwrap();
    assert_eq!(t.uuid, text("id-1"));
    assert_eq!(t.name, text("add"));
    assert_eq!(t.local_received, 42);
    assert_eq!(t.runtime, Some(1_250_000));
    assert_eq!(t.state, TaskState::Success);
}

#[test]
fn decodes_absent_fields_as_absent() {
    let e = Event {
        kind: text("task-sent"),
        uuid: None,
        name: None,
        local_received: Some(7),
        runtime: None,
        queue: None,
    };
    let t = Task::from_event(&e).ok().unwrap();
    assert_eq!(t.uuid, None);
    assert_eq!(t.name, None);
    assert_eq!(t.runtime, None);
    assert_eq!(t.state, TaskState::Pending);
}

#[test]
fn state_word_stops_at_the_next_dash() {
    let t = Task::from_event(&event("task-started-late", "a", None, 1)).ok().unwrap();
    assert_eq!(t.state, TaskState::Started);
    let t = Task::from_event(&event("task", "a", None, 1)).ok().unwrap();
    assert_eq!(t.state, TaskState::Undefined);
    assert_eq!(t.uuid, text("a"));
}

#[test]
fn other_categories_decode_to_a_blank_task() {
    let mut e = event("worker-heartbeat", "w", Some("n"), 5);
    e.local_received = None;
    let t = Task::from_event(&e).ok().unwrap();
    assert_eq!(t.uuid, None);
    assert_eq!(t.name, None);
    assert_eq!(t.local_received, 0);
    assert_eq!(t.state, TaskState::Undefined);
}

#[test]
fn missing_type_is_malformed() {
    let mut e = event("task-received", "a", None, 1);
    e.kind = None;
    assert!(matches!(Task::from_event(&e), Err(StateError::MalformedEvent)));
}

#[test]
fn task_event_without_local_received_is_malformed() {
    let mut e = event("task-received", "a", None, 1);
    e.local_received = None;
    assert!(matches!(Task::from_event(&e), Err(StateError::MalformedEvent)));
}

#[test]
fn zero_capacity_is_refused() {
    assert!(matches!(CeleryState::new(0), Err(StateError::InvalidConfiguration)));
    assert!(CeleryState::new(1).is_ok());
}

#[test]
fn non_terminal_collect_reports_the_event_state() {
    let mut c = tracker(10);
    for (kind, state) in [
        ("task-sent", TaskState::Pending),
        ("task-received", TaskState::Received),
        ("task-started", TaskState::Started),
        ("task-retried", TaskState::Retry),
        ("task-rejected", TaskState::Rejected),
        ("task-unknown", TaskState::Undefined),
    ] {
        let mut e = event(kind, "a", Some("add"), 3);
        e.runtime = Some(99);
        let o = c.collect(&e).ok().unwrap();
        assert_eq!(o.state, state);
        assert_eq!(o.runtime, None);
        assert_eq!(o.name, text("add"));
        assert_eq!(o.queue, None);
    }
}

#[test]
fn terminal_collect_reports_runtime_and_cached_name() {
    let mut c = tracker(10);
    c.collect(&with_queue(event("task-received", "a", Some("add"), 1), "q1")).ok().unwrap();
    let mut done = event("task-succeeded", "a", None, 9);
    done.runtime = Some(2_500_000);
    let o = c.collect(&done).ok().unwrap();
    assert_eq!(o.name, text("add"));
    assert_eq!(o.state, TaskState::Success);
    assert_eq!(o.runtime, Some(2_500_000));
    assert_eq!(o.queue, text("q1"));
    // The entry is gone: the same terminal event now knows no name.
    let o = c.collect(&done).ok().unwrap();
    assert_eq!(o.name, None);
    assert_eq!(o.queue, None);
}

#[test]
fn terminal_collect_of_unknown_task_uses_its_own_name() {
    let mut c = tracker(10);
    let o = c.collect(&event("task-failed", "z", Some("mul"), 4)).ok().unwrap();
    assert_eq!(o.name, text("mul"));
    assert_eq!(o.state, TaskState::Failure);
    assert_eq!(o.runtime, None);
    assert_eq!(o.queue, None);
    assert_eq!(c.event_count(), 0);
}

#[test]
fn terminal_collect_forgets_the_task() {
    let mut c = tracker(10);
    c.collect(&event("task-received", "a", Some("add"), 10)).ok().unwrap();
    c.collect(&event("task-revoked", "a", None, 11)).ok().unwrap();
    let r = c.latency(&event("task-started", "a", None, 12)).ok().unwrap();
    assert!(r.is_none());
}

#[test]
fn collect_twice_reports_the_same() {
    let mut c = tracker(10);
    let e = with_queue(event("task-received", "a", Some("add"), 10), "q9");
    let o1 = c.collect(&e).ok().unwrap();
    let o2 = c.collect(&e).ok().unwrap();
    assert_eq!(o1.name, o2.name);
    assert_eq!(o1.state, o2.state);
    assert_eq!(o1.queue, o2.queue);
    assert_eq!(o2.queue, text("q9"));
    // The first record stays: its receipt time is the one latency measures from.
    let l = c.latency(&event("task-started", "a", None, 15)).ok().unwrap().unwrap();
    assert_eq!(l.latency, 5);
}

#[test]
fn later_events_keep_the_first_record() {
    let mut c = tracker(10);
    c.collect(&event("task-received", "a", Some("add"), 10)).ok().unwrap();
    let o = c.collect(&event("task-retried", "a", Some("other"), 20)).ok().unwrap();
    assert_eq!(o.name, text("add"));
    assert_eq!(o.state, TaskState::Retry);
}

#[test]
fn latency_from_receipt_to_start() {
    let mut c = tracker(10);
    c.collect(&with_queue(event("task-received", "a", Some("add"), 10_000_000), "celery")).ok().unwrap();
    let start = event("task-started", "a", None, 13_500_000);
    let l = c.latency(&start).ok().unwrap().unwrap();
    assert_eq!(l.name, text("add"));
    assert_eq!(l.queue, text("celery"));
    assert_eq!(l.latency, 3_500_000);
    // Once the start is collected, the receipt is superseded.
    c.collect(&start).ok().unwrap();
    assert!(c.latency(&start).ok().unwrap().is_none());
}

#[test]
fn latency_may_be_negative() {
    let mut c = tracker(10);
    c.collect(&event("task-received", "a", Some("add"), 500)).ok().unwrap();
    let l = c.latency(&event("task-started", "a", None, 200)).ok().unwrap().unwrap();
    assert_eq!(l.latency, -300);
    assert_eq!(l.queue, None);
}

#[test]
fn latency_of_extreme_timestamps_does_not_overflow() {
    let mut c = tracker(10);
    c.collect(&event("task-received", "a", None, i64::MIN)).ok().unwrap();
    let l = c.latency(&event("task-started", "a", None, i64::MAX)).ok().unwrap().unwrap();
    assert_eq!(l.latency, (i64::MAX as i128) - (i64::MIN as i128));
    assert_eq!(l.name, None);
}

#[test]
fn latency_needs_a_start_and_a_receipt() {
    let mut c = tracker(10);
    assert!(c.latency(&event("task-started", "a", None, 1)).ok().unwrap().is_none());
    c.collect(&event("task-sent", "a", Some("add"), 1)).ok().unwrap();
    assert!(c.latency(&event("task-started", "a", None, 2)).ok().unwrap().is_none());
    c.collect(&event("task-received", "a", None, 3)).ok().unwrap();
    assert!(c.latency(&event("task-received", "a", None, 4)).ok().unwrap().is_none());
    // The record is the one stored by the first event, at time 1.
    let l = c.latency(&event("task-started", "a", None, 4)).ok().unwrap().unwrap();
    assert_eq!(l.latency, 3);
    assert_eq!(l.name, text("add"));
}

#[test]
fn capacity_one_evicts_the_older_task() {
    let mut c = tracker(1);
    c.collect(&event("task-received", "A", Some("add"), 1)).ok().unwrap();
    c.collect(&event("task-received", "B", Some("add"), 2)).ok().unwrap();
    assert!(c.latency(&event("task-started", "A", None, 3)).ok().unwrap().is_none());
    assert!(c.latency(&event("task-started", "B", None, 3)).ok().unwrap().is_some());
}

#[test]
fn a_read_protects_an_entry_from_eviction() {
    let mut c = tracker(2);
    c.collect(&event("task-received", "A", None, 1)).ok().unwrap();
    c.collect(&event("task-received", "B", None, 2)).ok().unwrap();
    // Reading A makes B the least recently used entry.
    assert!(c.latency(&event("task-started", "A", None, 3)).ok().unwrap().is_some());
    c.collect(&event("task-received", "C", None, 4)).ok().unwrap();
    assert!(c.latency(&event("task-started", "B", None, 5)).ok().unwrap().is_none());
    assert!(c.latency(&event("task-started", "A", None, 5)).ok().unwrap().is_some());
    assert!(c.latency(&event("task-started", "C", None, 5)).ok().unwrap().is_some());
}

#[test]
fn queue_is_shared_by_name() {
    let mut c = tracker(10);
    c.collect(&event("task-received", "one", Some("add"), 1)).ok().unwrap();
    c.collect(&event("task-received", "two", Some("add"), 2)).ok().unwrap();
    c.collect(&with_queue(event("task-sent", "one", None, 3), "q1")).ok().unwrap();
    let l = c.latency(&event("task-started", "two", None, 4)).ok().unwrap().unwrap();
    assert_eq!(l.queue, text("q1"));
    let o = c.collect(&event("task-started", "two", None, 4)).ok().unwrap();
    assert_eq!(o.queue, text("q1"));
    let o = c.collect(&event("task-succeeded", "two", None, 5)).ok().unwrap();
    assert_eq!(o.queue, text("q1"));
    // The latest queue wins for every task of the name.
    c.collect(&with_queue(event("task-retried", "one", None, 6), "q2")).ok().unwrap();
    let o = c.collect(&event("task-failed", "one", None, 7)).ok().unwrap();
    assert_eq!(o.queue, text("q2"));
}

#[test]
fn counters_count_events_and_receipts() {
    let mut c = tracker(10);
    assert_eq!(c.event_count(), 0);
    assert_eq!(c.task_count(), 0);
    c.collect(&event("task-sent", "a", None, 1)).ok().unwrap();
    assert_eq!((c.event_count(), c.task_count()), (1, 0));
    c.collect(&event("task-received", "a", None, 2)).ok().unwrap();
    assert_eq!((c.event_count(), c.task_count()), (2, 1));
    c.collect(&event("task-received", "a", None, 3)).ok().unwrap();
    assert_eq!((c.event_count(), c.task_count()), (3, 2));
    c.collect(&event("task-succeeded", "a", None, 4)).ok().unwrap();
    assert_eq!((c.event_count(), c.task_count()), (3, 2));
    c.collect(&event("worker-heartbeat", "w", None, 5)).ok().unwrap();
    assert_eq!((c.event_count(), c.task_count()), (4, 2));
    c.latency(&event("task-started", "a", None, 6)).ok().unwrap();
    assert_eq!((c.event_count(), c.task_count()), (4, 2));
}

#[test]
fn malformed_events_change_nothing() {
    let mut c = tracker(1);
    c.collect(&event("task-received", "a", Some("add"), 10)).ok().unwrap();
    let mut no_type = event("task-received", "b", None, 11);
    no_type.kind = None;
    let mut no_time = event("task-received", "b", None, 11);
    no_time.local_received = None;
    for e in [&no_type, &no_time] {
        assert!(matches!(c.collect(e), Err(StateError::MalformedEvent)));
        assert!(matches!(c.latency(e), Err(StateError::MalformedEvent)));
    }
    assert_eq!((c.event_count(), c.task_count()), (1, 1));
    let l = c.latency(&event("task-started", "a", None, 12)).ok().unwrap().unwrap();
    assert_eq!(l.latency, 2);
}

#[test]
fn default_task_is_blank() {
    let t = Task::default();
    assert_eq!(t.uuid, None);
    assert_eq!(t.name, None);
    assert_eq!(t.local_received, 0);
    assert_eq!(t.runtime, None);
    assert_eq!(t.state, TaskState::Undefined);
}
