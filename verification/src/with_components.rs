//! The expander that installs components in a contract module.

pub mod advisories;
pub mod components;
pub mod definition;
pub mod diagnostics;
pub mod generation;
pub mod laws;
pub mod patch;
pub mod validation;
