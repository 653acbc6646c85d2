//! Cooperative tasks: which one is polled next, and the keyboard as a source of events.
//!
//! The program around this library owns the futures, by the ids of their tasks, and polls them
//! as the executors here say.

pub mod executor;
pub mod keyboard;
pub mod queue;
pub mod simple_executor;
