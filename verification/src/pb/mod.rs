//! The messages of the services.
pub mod service;
