use vstd::prelude::*;
use vstd::string::StringSliceAdditionalSpecFns;

verus! {

/// The lifecycle state of a task, derived from the suffix of an event type.
#[derive(Debug, Clone, Copy, PartialEq, Eq, Structural)]
pub enum TaskState {
    Pending,
    Received,
    Started,
    Failure,
    Retry,
    Success,
    Revoked,
    Rejected,
    Undefined,
}

/// The state named by the suffix of an event type (`"started"` in
/// `"task-started"`), given as its UTF-8 bytes: `sent`, `received`, `started`,
/// `failed`, `retried`, `succeeded`, `revoked` and `rejected` in ASCII, in
/// that order.
pub open spec fn state_of_name(n: Seq<u8>) -> TaskState {
    if n == seq![115u8, 101, 110, 116] {
        TaskState::Pending
    } else if n == seq![114u8, 101, 99, 101, 105, 118, 101, 100] {
        TaskState::Received
    } else if n == seq![115u8, 116, 97, 114, 116, 101, 100] {
        TaskState::Started
    } else if n == seq![102u8, 97, 105, 108, 101, 100] {
        TaskState::Failure
    } else if n == seq![114u8, 101, 116, 114, 105, 101, 100] {
        TaskState::Retry
    } else if n == seq![115u8, 117, 99, 99, 101, 101, 100, 101, 100] {
        TaskState::Success
    } else if n == seq![114u8, 101, 118, 111, 107, 101, 100] {
        TaskState::Revoked
    } else if n == seq![114u8, 101, 106, 101, 99, 116, 101, 100] {
        TaskState::Rejected
    } else {
        TaskState::Undefined
    }
}

impl TaskState {
    /// The states after which a task leaves active tracking.
    pub open spec fn spec_is_terminal(self) -> bool {
        self is Success || self is Failure || self is Revoked
    }

    #[verifier::when_used_as_spec(spec_is_terminal)]
    pub fn is_terminal(self) -> (r: bool)
        ensures
            r == self.spec_is_terminal(),
    {
        match self {
            TaskState::Success | TaskState::Failure | TaskState::Revoked => true,
            _ => false,
        }
    }

    /// The upper-case text of a state, as reported to the host.
    pub open spec fn spec_text(self) -> Seq<char> {
        match self {
            TaskState::Pending => "PENDING"@,
            TaskState::Received => "RECEIVED"@,
            TaskState::Started => "STARTED"@,
            TaskState::Failure => "FAILURE"@,
            TaskState::Retry => "RETRY"@,
            TaskState::Success => "SUCCESS"@,
            TaskState::Revoked => "REVOKED"@,
            TaskState::Rejected => "REJECTED"@,
            TaskState::Undefined => "UNDEFINED"@,
        }
    }

    pub fn as_text(self) -> (r: String)
        ensures
            r@ == self.spec_text(),
    {
        let s: &str = match self {
            TaskState::Pending => "PENDING",
            TaskState::Received => "RECEIVED",
            TaskState::Started => "STARTED",
            TaskState::Failure => "FAILURE",
            TaskState::Retry => "RETRY",
            TaskState::Success => "SUCCESS",
            TaskState::Revoked => "REVOKED",
            TaskState::Rejected => "REJECTED",
            TaskState::Undefined => "UNDEFINED",
        };
        s.to_owned()
    }
}

/// Whether `b[lo..hi]` holds exactly the bytes of `word`.
pub fn segment_is(b: &[u8], lo: usize, hi: usize, word: &[u8]) -> (r: bool)
    requires
        lo <= hi <= b@.len(),
    ensures
        r == (b@.subrange(lo as int, hi as int) == word@),
{
    if hi - lo != word.len() {
        return false;
    }
    let mut i: usize = 0;
    while i < word.len()
        invariant
            lo <= hi <= b@.len(),
            hi - lo == word@.len(),
            i <= word@.len(),
            forall|j: int| 0 <= j < i ==> b@[lo + j] == word@[j],
        decreases word@.len() - i,
    {
        if b[lo + i] != word[i] {
            assert(b@.subrange(lo as int, hi as int)[i as int] != word@[i as int]);
            return false;
        }
        i = i + 1;
    }
    assert(b@.subrange(lo as int, hi as int) =~= word@);
    true
}

/// The state named by the bytes `b[lo..hi]`.
pub fn state_of_segment(b: &[u8], lo: usize, hi: usize) -> (r: TaskState)
    requires
        lo <= hi <= b@.len(),
    ensures
        r == state_of_name(b@.subrange(lo as int, hi as int)),
{
    let sent: [u8; 4] = [115u8, 101, 110, 116];
    let received: [u8; 8] = [114u8, 101, 99, 101, 105, 118, 101, 100];
    let started: [u8; 7] = [115u8, 116, 97, 114, 116, 101, 100];
    let failed: [u8; 6] = [102u8, 97, 105, 108, 101, 100];
    let retried: [u8; 7] = [114u8, 101, 116, 114, 105, 101, 100];
    let succeeded: [u8; 9] = [115u8, 117, 99, 99, 101, 101, 100, 101, 100];
    let revoked: [u8; 7] = [114u8, 101, 118, 111, 107, 101, 100];
    let rejected: [u8; 8] = [114u8, 101, 106, 101, 99, 116, 101, 100];
    if segment_is(b, lo, hi, sent.as_slice()) {
        TaskState::Pending
    } else if segment_is(b, lo, hi, received.as_slice()) {
        TaskState::Received
    } else if segment_is(b, lo, hi, started.as_slice()) {
        TaskState::Started
    } else if segment_is(b, lo, hi, failed.as_slice()) {
        TaskState::Failure
    } else if segment_is(b, lo, hi, retried.as_slice()) {
        TaskState::Retry
    } else if segment_is(b, lo, hi, succeeded.as_slice()) {
        TaskState::Success
    } else if segment_is(b, lo, hi, revoked.as_slice()) {
        TaskState::Revoked
    } else if segment_is(b, lo, hi, rejected.as_slice()) {
        TaskState::Rejected
    } else {
        TaskState::Undefined
    }
}

/// The state named by a state word such as `"received"`; any word that names
/// no state gives `Undefined`.
pub fn event_to_state(evt_kind: &str) -> (r: TaskState)
    ensures
        r == state_of_name(evt_kind.spec_bytes()),
{
    let b = evt_kind.as_bytes();
    assert(b@.subrange(0, b@.len() as int) =~= b@);
    state_of_segment(b, 0, b.len())
}

} // verus!
