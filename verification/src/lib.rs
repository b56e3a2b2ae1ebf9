//! A small in-process worker-pool core: a fixed set of worker threads is fed
//! topic-addressed events through private channels, while a single dispatch
//! loop keeps the subscription registry and assigns publish sequence numbers.
//!
//! The crate verifies the sequential heart of such a pool: the event value
//! model (`event`), the subscription registry (`board`), and the pool
//! configuration plus the per-command dispatch step (`flock`). Thread
//! creation, channel plumbing and the blocking driver loop are left to the
//! embedding application, which acts on the deliveries that the dispatch step
//! computes.

pub mod board;
pub mod event;
pub mod flock;

pub use board::Board;
pub use event::Event;
pub use flock::Flock;
