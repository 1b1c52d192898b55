//! Messages of the errors that stop the installation of components.

use vstd::prelude::*;

verus! {

/// The module is only declared and has no body.
pub const NO_BODY: &'static str = "Contract module must have a body.\n";

/// The component is not one of the allowed ones.
#[allow(non_snake_case)]
pub fn INVALID_COMPONENT(short_name: &str) -> (r: String)
    ensures
        r@ == short_name@ + " is not in the list of allowed components.\n"@,
{
    let mut out = String::from_str(short_name);
    out.append(" is not in the list of allowed components.\n");
    out
}

/// The message for a module without the attribute that marks a contract.
pub open spec fn no_contract_attribute(contract_attribute: Seq<char>) -> Seq<char> {
    "Contract module must have the `#["@ + contract_attribute + "]` attribute.\n"@
}

/// The module does not carry the attribute that marks a contract.
#[allow(non_snake_case)]
pub fn NO_CONTRACT_ATTRIBUTE(contract_attribute: &str) -> (r: String)
    ensures
        r@ == no_contract_attribute(contract_attribute@),
{
    let mut out = String::from_str("Contract module must have the `#[");
    out.append(contract_attribute);
    out.append("]` attribute.\n");
    out
}

/// More than one AccessControl component is used.
#[allow(non_snake_case)]
pub fn MULTIPLE_ACCESS_CONTROL_COMPONENTS(components: &str) -> (r: String)
    ensures
        r@ == "Only one AccessControl component can be used. Found: ["@ + components@ + "].\n"@,
{
    let mut out = String::from_str("Only one AccessControl component can be used. Found: [");
    out.append(components);
    out.append("].\n");
    out
}

} // verus!
