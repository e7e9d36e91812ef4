//! Budget entries: the checks, decisions, queries and schedules of the entry
//! service, verified with Verus.
pub mod converters;
pub mod dates;
pub mod error;
pub mod handler;
pub mod manager;
pub mod pb;
pub mod text;
