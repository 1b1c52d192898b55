//! Messages of the errors that stop the derivation of a type hash.

use vstd::prelude::*;

verus! {

/// A member is of a custom type, whose encoding is not known.
pub const CUSTOM_TYPE_NOT_SUPPORTED: &'static str = "Inner custom types are not supported yet.\n";

/// The input holds no type.
pub const EMPTY_TYPE_FOUND: &'static str = "No valid type found in the input.\n";

/// The input holds something other than a struct or an enum.
pub const NOT_VALID_TYPE_FOR_DERIVE: &'static str = "Only structs and enums are supported.\n";

} // verus!
