//! The attribute that takes the name of a single component.

use vstd::prelude::*;
use crate::diagnostic::Diagnostic;
use crate::token_stream::{
    failure_of,
    plain_stream,
    stream_text,
    ProcMacroResult,
    ProcMacroResultView,
    TokenStream,
};
use crate::with_components::definition::{arguments_of, parse_args};

verus! {

/// What is reported for an attribute that does not name one component.
pub const INVALID_NUMBER_OF_ARGUMENTS: &'static str = "Invalid number of arguments";

/// What the attribute gives: no code, and an error unless it names one
/// component.
pub open spec fn oz_component_output(attribute: Seq<char>) -> ProcMacroResultView {
    if arguments_of(attribute).len() != 1 {
        failure_of(INVALID_NUMBER_OF_ARGUMENTS@)
    } else {
        ProcMacroResultView { token_stream: plain_stream(Seq::empty()), diagnostics: Seq::empty() }
    }
}

/// Takes the name of one component. Anything but one name is an error.
pub fn oz_component(attribute_stream: &TokenStream, item_stream: &TokenStream) -> (r:
    ProcMacroResult)
    ensures
        r.deep_view() == oz_component_output(stream_text(attribute_stream.deep_view())),
{
    let attribute = attribute_stream.to_text();
    let args = parse_args(attribute.as_str());
    if args.len() != 1 {
        return ProcMacroResult::failure(
            Diagnostic::error(String::from_str(INVALID_NUMBER_OF_ARGUMENTS)),
        );
    }
    ProcMacroResult::new(TokenStream::empty())
}

} // verus!
