//! The command line: its commands, and the text that each prints.
pub mod commands;
pub mod health;
pub mod table;
