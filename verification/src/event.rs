//! The event value model: one delivered message instance, carrying a topic,
//! an opaque payload, a terminal flag, and the sequence number assigned at
//! publish time.

use vstd::prelude::*;

verus! {

/// One pool thread's stable identifier for the run's duration. Worker ids are
/// dense indices `0..worker_count`, assigned at spawn time and never reused
/// within a run.
#[derive(Clone, Copy, PartialEq, Eq, Structural, Debug, Hash)]
pub struct WorkerId(pub usize);

/// An immutable message instance. `sequence` is drawn once per publish call
/// from the dispatch loop's shared counter, so every subscriber of one
/// publish sees the same number, and numbers grow strictly across publishes
/// that deliver.
pub struct Event {
    /// The topic the publish was addressed to.
    pub topic: String,
    /// Opaque payload bytes, cloned once per subscriber at fan-out.
    pub payload: Vec<u8>,
    /// Terminal flag: marks the end of the receiving unit of work's lifetime.
    pub is_last: bool,
    /// Publish-time sequence number, shared by all events of one publish.
    pub sequence: u64,
}

impl Event {
    /// Builds an event from its parts; the fields are exactly the arguments.
    pub fn new(topic: String, payload: Vec<u8>, is_last: bool, sequence: u64) -> (e: Event)
        ensures
            e.topic == topic,
            e.payload == payload,
            e.is_last == is_last,
            e.sequence == sequence,
    {
        Event { topic, payload, is_last, sequence }
    }
}

/// One command issued by the driver against the pool: publish a payload to a
/// topic (with the terminal flag), have a worker start listening to a topic,
/// or have it stop.
pub enum CoreCommand {
    /// Publish(topic, payload, is_last).
    Publish(String, Vec<u8>, bool),
    /// Listen(worker, topic): subscribe the worker to the topic.
    Listen(WorkerId, String),
    /// Ignore(worker, topic): unsubscribe the worker from the topic.
    Ignore(WorkerId, String),
}

} // verus!
