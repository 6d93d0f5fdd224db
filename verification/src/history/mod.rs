//! Execution history: the log line of a record, and the queries over the
//! log files of the `logs` directory.
pub mod query;
pub mod store;

pub use query::{last_execution, list_known_tasks, total_executions};
