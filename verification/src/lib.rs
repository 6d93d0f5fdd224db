//! TaskForge: cron-style task scheduling, retry policy and execution history.
pub mod text;
pub mod types;
pub mod parser;
pub mod clock;
pub mod registry;
pub mod engine;
pub mod history;
pub mod cli;
