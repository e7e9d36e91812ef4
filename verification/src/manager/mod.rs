//! The entry service's logic: checks, decisions, queries and schedules.
pub mod biz;
pub mod repository;
pub mod scheduler;
pub mod validate;
