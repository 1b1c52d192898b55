//! Names and fragments shared by the expanders.

use vstd::prelude::*;

verus! {

/// One indentation step in generated code.
pub const TAB: &'static str = "    ";

/// The attribute that marks a module as a contract.
pub const CONTRACT_ATTRIBUTE: &'static str = "starknet::contract";

/// The attribute that marks the constructor of a contract.
pub const CONSTRUCTOR_ATTRIBUTE: &'static str = "constructor";

/// The name of the storage struct of a contract.
pub const STORAGE_STRUCT_NAME: &'static str = "Storage";

/// The name of the event enum of a contract.
pub const EVENT_ENUM_NAME: &'static str = "Event";

/// The attribute put on each component entry of the storage struct.
pub const SUBSTORAGE_ATTRIBUTE: &'static str = "substorage(v0)";

/// The attribute put on each component variant of the event enum.
pub const FLAT_ATTRIBUTE: &'static str = "flat";

} // verus!
