//! Execution engine: retry policy, the retry loop's decisions, and the
//! outcome of one run of a task.
pub mod executor;
pub mod retry;
pub mod supervisor;

pub use retry::RetryPolicy;
