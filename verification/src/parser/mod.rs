//! Parsing of schedules (cron expressions and macros) and computation of
//! their next occurrence.
pub mod expression;

pub use expression::parse_cron_expression;
pub mod macros;

pub use macros::parse_macro;
pub mod schedule;

pub use schedule::next_occurrence;
