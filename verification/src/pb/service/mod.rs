//! Messages, by service.
pub mod budget;
pub mod entry;
