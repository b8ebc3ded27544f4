//! Reconstructs the live state of in-flight tasks of a distributed task queue
//! from the stream of lifecycle events that its workers emit, under a fixed
//! memory ceiling.
pub mod event;
pub mod laws;
pub mod processor;
pub mod queue_table;
pub mod state;
pub mod task_cache;

pub use event::{Event, StateError, Task};
pub use processor::{CeleryState, CollectOutcome, LatencyOutcome};
pub use state::{event_to_state, TaskState};
