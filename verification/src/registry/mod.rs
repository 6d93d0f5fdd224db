//! The in-memory task registry and the conversion of configuration entries
//! into tasks.
pub mod registry;

pub use registry::TaskRegistry;
pub mod config;

pub use config::{parse_schedule, tasks_from_config, ConfigError, TaskConfig, TomlConfig};
