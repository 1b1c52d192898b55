//! The messages that the type hash derive reports.

pub mod errors;
