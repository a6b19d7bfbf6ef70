//! A bounded, deduplicating, first-in-first-out cache of network messages.
//!
//! [`MessageTracker`] states the contract of a tracker over a sequence model of the
//! retained messages; [`MessageStore`] is a tracker proved against it, and [`laws`]
//! holds the properties that follow for every tracker.
pub mod laws;
pub mod message;
pub mod store;
pub mod tracker;

pub use message::Message;
pub use store::MessageStore;
pub use tracker::MessageTracker;
