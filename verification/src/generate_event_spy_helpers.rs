//! The inline macro that generates helpers for spying on events in tests.

pub mod definition;
pub mod laws;
pub mod parser;
