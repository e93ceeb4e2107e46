//! The core of a single-user task queue daemon: the task model, the shared
//! queue state with its transition rules, the decisions of the task handler,
//! and the delivery of signals to the processes of a task.

pub mod handler;
pub mod process;
pub mod state;
pub mod task;
