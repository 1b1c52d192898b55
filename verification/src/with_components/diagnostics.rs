//! The messages that the component expander reports.

pub mod errors;
pub mod warnings;
