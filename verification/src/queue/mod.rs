//! Queues: messages, priority ordering, delayed delivery and consumers.

pub mod message;
pub mod priority;
pub mod delay;
pub mod state;
pub mod options;
