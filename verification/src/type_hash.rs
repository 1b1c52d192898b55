//! The derive that gives a struct or an enum the hash of its SNIP-12 type.

pub mod definition;
pub mod diagnostics;
pub mod laws;
pub mod parser;
pub mod reader;
pub mod types;
