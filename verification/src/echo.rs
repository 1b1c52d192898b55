//! A macro that gives the same code whatever it is called with.

use vstd::prelude::*;
use crate::token_stream::{
    plain_stream,
    tokens_of_text,
    ProcMacroResult,
    ProcMacroResultView,
    TokenStream,
};

verus! {

/// The code that the macro gives.
pub const ECHO_CODE: &'static str = "println!(\"{}\", eric);";

/// Gives a line that prints, whatever the input is.
pub fn echo(token_stream: &TokenStream) -> (r: ProcMacroResult)
    ensures
        r.deep_view() == (ProcMacroResultView {
            token_stream: plain_stream(tokens_of_text(ECHO_CODE@)),
            diagnostics: Seq::empty(),
        }),
{
    ProcMacroResult::new(TokenStream::from_text(ECHO_CODE))
}

} // verus!
