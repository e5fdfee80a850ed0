//! The messages in which changes are handed to a sink.
pub mod database;
