//! What is written to the time-series database.
pub mod questdb;
