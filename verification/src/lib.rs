//! A birthday record library: a keyed store of per-user birthday records,
//! calendar-date validation and parsing, month grouping for display, and the
//! decision logic of a daily announcement job.

pub mod date;
pub mod error;
pub mod group;
pub mod month;
pub mod notifier;
pub mod person;
pub mod store;
