//! Advisory checks that look for the traces a component should leave in the
//! text of a contract. Each check is a search for fixed fragments, so a
//! fragment inside a comment counts and a call spelled otherwise does not.

use vstd::prelude::*;
use crate::diagnostic::{warning_of, Diagnostic, DiagnosticView};
use crate::text::{chars_of, contains, contains_str, str_equal};
use crate::with_components::components::{short_name_of, ComponentInfo};
use crate::with_components::diagnostics::warnings::{
    ERC1155_HOOKS_IMPL_MISSING,
    ERC20_HOOKS_IMPL_MISSING,
    ERC721_HOOKS_IMPL_MISSING,
    INITIALIZABLE_NOT_USED,
    PAUSABLE_NOT_USED,
    SNIP12_METADATA_IMPL_MISSING,
    UPGRADEABLE_NOT_USED,
    VESTING_SCHEDULE_IMPL_MISSING,
};

verus! {

/// The warning that `code` earns for the component with the given short
/// name, if it earns one. A component without a check earns none.
pub open spec fn component_warning(code: Seq<char>, short_name: Seq<char>) -> Option<Seq<char>> {
    if short_name == "Vesting"@ {
        if !contains(code, "LinearVestingSchedule"@) && !contains(code, "VestingScheduleTrait"@) {
            Some(VESTING_SCHEDULE_IMPL_MISSING@)
        } else {
            None
        }
    } else if short_name == "Initializable"@ {
        if !contains(code, "self.initializable.initialize()"@) {
            Some(INITIALIZABLE_NOT_USED@)
        } else {
            None
        }
    } else if short_name == "Pausable"@ {
        if !contains(code, "self.pausable.pause()"@) || !contains(
            code,
            "self.pausable.unpause()"@,
        ) {
            Some(PAUSABLE_NOT_USED@)
        } else {
            None
        }
    } else if short_name == "ERC20"@ {
        if !contains(code, "ERC20HooksTrait"@) && !contains(code, "ERC20HooksEmptyImpl"@) {
            Some(ERC20_HOOKS_IMPL_MISSING@)
        } else {
            None
        }
    } else if short_name == "ERC721"@ {
        if !contains(code, "ERC721HooksTrait"@) && !contains(code, "ERC721HooksEmptyImpl"@) {
            Some(ERC721_HOOKS_IMPL_MISSING@)
        } else {
            None
        }
    } else if short_name == "ERC1155"@ {
        if !contains(code, "ERC1155HooksTrait"@) && !contains(code, "ERC1155HooksEmptyImpl"@) {
            Some(ERC1155_HOOKS_IMPL_MISSING@)
        } else {
            None
        }
    } else if short_name == "Upgradeable"@ {
        if !contains(code, "self.upgradeable.upgrade"@) {
            Some(UPGRADEABLE_NOT_USED@)
        } else {
            None
        }
    } else if short_name == "Votes"@ {
        if !contains(code, "of SNIP12Metadata"@) {
            Some(SNIP12_METADATA_IMPL_MISSING@)
        } else {
            None
        }
    } else {
        None
    }
}

/// The warnings that `code` earns for the component with the given short
/// name: one or none.
pub open spec fn component_warnings(code: Seq<char>, short_name: Seq<char>) -> Seq<
    DiagnosticView,
> {
    match component_warning(code, short_name) {
        Some(message) => seq![warning_of(message)],
        None => Seq::empty(),
    }
}

/// Appends to `warnings` a warning with the given message.
pub(crate) fn push_warning(warnings: &mut Vec<Diagnostic>, message: &str)
    ensures
        final(warnings).deep_view() == old(warnings).deep_view().push(warning_of(message@)),
{
    let ghost before = warnings.deep_view();
    warnings.push(Diagnostic::warn(String::from_str(message)));
    assert(warnings.deep_view() =~= before.push(warning_of(message@)));
}

/// Looks in the text of a contract for what the given component needs, and
/// gives the warning for what is missing.
pub fn add_per_component_warnings(code: &str, component_info: &ComponentInfo) -> (r: Vec<
    Diagnostic,
>)
    ensures
        r.deep_view() == component_warnings(code@, short_name_of(component_info.name@)),
{
    let mut warnings: Vec<Diagnostic> = Vec::new();
    assert(warnings.deep_view() =~= Seq::<DiagnosticView>::empty());
    let code = chars_of(code);
    let short_name = component_info.short_name();
    let short = short_name.as_str();
    if str_equal(short, "Vesting") {
        let linear_impl_used = contains_str(&code, "LinearVestingSchedule");
        let vesting_trait_used = contains_str(&code, "VestingScheduleTrait");
        if !linear_impl_used && !vesting_trait_used {
            push_warning(&mut warnings, VESTING_SCHEDULE_IMPL_MISSING);
        }
    } else if str_equal(short, "Initializable") {
        if !contains_str(&code, "self.initializable.initialize()") {
            push_warning(&mut warnings, INITIALIZABLE_NOT_USED);
        }
    } else if str_equal(short, "Pausable") {
        let pause_function_called = contains_str(&code, "self.pausable.pause()");
        let unpause_function_called = contains_str(&code, "self.pausable.unpause()");
        if !pause_function_called || !unpause_function_called {
            push_warning(&mut warnings, PAUSABLE_NOT_USED);
        }
    } else if str_equal(short, "ERC20") {
        let hooks_trait_used = contains_str(&code, "ERC20HooksTrait");
        let hooks_empty_impl_used = contains_str(&code, "ERC20HooksEmptyImpl");
        if !hooks_trait_used && !hooks_empty_impl_used {
            push_warning(&mut warnings, ERC20_HOOKS_IMPL_MISSING);
        }
    } else if str_equal(short, "ERC721") {
        let hooks_trait_used = contains_str(&code, "ERC721HooksTrait");
        let hooks_empty_impl_used = contains_str(&code, "ERC721HooksEmptyImpl");
        if !hooks_trait_used && !hooks_empty_impl_used {
            push_warning(&mut warnings, ERC721_HOOKS_IMPL_MISSING);
        }
    } else if str_equal(short, "ERC1155") {
        let hooks_trait_used = contains_str(&code, "ERC1155HooksTrait");
        let hooks_empty_impl_used = contains_str(&code, "ERC1155HooksEmptyImpl");
        if !hooks_trait_used && !hooks_empty_impl_used {
            push_warning(&mut warnings, ERC1155_HOOKS_IMPL_MISSING);
        }
    } else if str_equal(short, "Upgradeable") {
        if !contains_str(&code, "self.upgradeable.upgrade") {
            push_warning(&mut warnings, UPGRADEABLE_NOT_USED);
        }
    } else if str_equal(short, "Votes") {
        if !contains_str(&code, "of SNIP12Metadata") {
            push_warning(&mut warnings, SNIP12_METADATA_IMPL_MISSING);
        }
    }
    warnings
}

} // verus!
