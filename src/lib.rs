// A durable task queue's claiming core: a table of tasks that transactions
// claim oldest first under row locks, and the lifecycle each task follows.

pub mod config;
pub mod guarantees;
mod sources;
pub mod state;
pub mod store;
pub mod task;
