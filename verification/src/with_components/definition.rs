//! The attribute itself: from the list of components and the source of a
//! contract module to the module with the components installed.

use vstd::prelude::*;
use crate::diagnostic::{Diagnostic, DiagnosticView, Severity};
use crate::pattern::{find_all, regex_matches};
use crate::syntax::{
    first_item,
    format_code,
    formatted_code,
    parse_syntax,
    parsed_syntax,
    SyntaxEntry,
    Tree,
};
use crate::token_stream::{
    failure_of,
    output_stream,
    plain_stream,
    stream_text,
    tokens_with_spans,
    TokenStreamView,
    ProcMacroResult,
    ProcMacroResultView,
    TokenStream,
};
use crate::with_components::advisories::{add_per_component_warnings, component_warnings};
use crate::with_components::components::{
    component_lookup,
    get_component_info,
    short_name_of,
    ComponentInfo,
    ComponentInfoView,
};
use crate::with_components::patch::{build_patch, patch_result};
use crate::with_components::validation::{
    extend_diagnostics,
    has_config_path,
    have_config_paths,
    is_contract_module,
};

verus! {

/// The pattern of one argument of the attribute: a run of word characters.
pub const ARGUMENT_PATTERN: &'static str = "(\\w+)";

/// The arguments of the attribute: the runs of word characters in its text,
/// in order.
pub open spec fn arguments_of(text: Seq<char>) -> Seq<Seq<char>> {
    match regex_matches(ARGUMENT_PATTERN@, text) {
        Some(words) => words,
        None => Seq::empty(),
    }
}

/// Reads the arguments from the text of the attribute.
pub fn parse_args(text: &str) -> (r: Vec<String>)
    ensures
        r.deep_view() == arguments_of(text@),
{
    match find_all(ARGUMENT_PATTERN, text) {
        Some(words) => words,
        None => {
            let none: Vec<String> = Vec::new();
            assert(none.deep_view() =~= Seq::<Seq<char>>::empty());
            none
        },
    }
}

/// The components that the first `n` arguments name, or the diagnostics for
/// the first of them that names none.
pub open spec fn components_among(args: Seq<Seq<char>>, n: nat) -> Result<
    Seq<ComponentInfoView>,
    Seq<DiagnosticView>,
>
    decreases n,
{
    if n == 0 {
        Ok(Seq::empty())
    } else {
        match components_among(args, (n - 1) as nat) {
            Err(diagnostics) => Err(diagnostics),
            Ok(found) => match component_lookup(args[n - 1]) {
                (Some(info), _) => Ok(found.push(info)),
                (None, diagnostics) => Err(diagnostics),
            },
        }
    }
}

/// Once an argument names no component, the lookup stays stopped.
proof fn lemma_components_stop(args: Seq<Seq<char>>, n: nat, m: nat)
    requires
        n <= m,
        components_among(args, n) is Err,
    ensures
        components_among(args, m) == components_among(args, n),
    decreases m,
{
    if n < m {
        lemma_components_stop(args, n, (m - 1) as nat);
    }
}

/// The model of a list of components, or of the diagnostics in its place.
pub open spec fn components_view(r: Result<Vec<ComponentInfo>, Vec<Diagnostic>>) -> Result<
    Seq<ComponentInfoView>,
    Seq<DiagnosticView>,
> {
    match r {
        Ok(found) => Ok(found.deep_view()),
        Err(diagnostics) => Err(diagnostics.deep_view()),
    }
}

/// Looks up the components that the arguments name, in order. Stops at the
/// first argument that names none, with the diagnostics for it.
pub fn find_components(args: &Vec<String>) -> (r: Result<Vec<ComponentInfo>, Vec<Diagnostic>>)
    ensures
        components_view(r) == components_among(args.deep_view(), args.len() as nat),
        r matches Ok(found) ==> forall|i: int|
            0 <= i < found.len() ==> has_config_path(#[trigger] found.deep_view()[i]),
{
    let mut components_info: Vec<ComponentInfo> = Vec::new();
    assert(components_info.deep_view() =~= Seq::<ComponentInfoView>::empty());
    let mut i: usize = 0;
    while i < args.len()
        invariant
            i <= args.len(),
            components_among(args.deep_view(), i as nat) == Ok::<
                Seq<ComponentInfoView>,
                Seq<DiagnosticView>,
            >(components_info.deep_view()),
            forall|k: int|
                0 <= k < components_info.len() ==> has_config_path(
                    #[trigger] components_info.deep_view()[k],
                ),
        decreases args.len() - i,
    {
        assert(args.deep_view()[i as int] == args[i as int]@);
        let (component_info, diagnostics) = get_component_info(args[i].as_str());
        match component_info {
            Some(info) => {
                let ghost before = components_info.deep_view();
                components_info.push(info);
                assert(components_info.deep_view() =~= before.push(info.deep_view()));
            },
            None => {
                proof {
                    lemma_components_stop(args.deep_view(), (i + 1) as nat, args.len() as nat);
                }
                return Err(diagnostics);
            },
        }
        i += 1;
    }
    Ok(components_info)
}

/// Whether one of the diagnostics is an error.
pub open spec fn any_error(diagnostics: Seq<DiagnosticView>) -> bool {
    exists|i: int| 0 <= i < diagnostics.len() && diagnostics[i].severity == Severity::Error
}

/// Whether one of the diagnostics is an error.
pub fn has_error(diagnostics: &Vec<Diagnostic>) -> (r: bool)
    ensures
        r == any_error(diagnostics.deep_view()),
{
    let mut i: usize = 0;
    while i < diagnostics.len()
        invariant
            i <= diagnostics.len(),
            forall|k: int| 0 <= k < i ==> diagnostics.deep_view()[k].severity != Severity::Error,
        decreases diagnostics.len() - i,
    {
        if diagnostics[i].severity == Severity::Error {
            assert(diagnostics.deep_view()[i as int].severity == Severity::Error);
            return true;
        }
        i += 1;
    }
    false
}

/// The warnings that `code` earns for the first `n` components, in their
/// order.
pub open spec fn warnings_among(code: Seq<char>, cs: Seq<ComponentInfoView>, n: nat) -> Seq<
    DiagnosticView,
>
    decreases n,
{
    if n == 0 {
        Seq::empty()
    } else {
        warnings_among(code, cs, (n - 1) as nat) + component_warnings(
            code,
            short_name_of(cs[n - 1].name),
        )
    }
}

/// What the installation of the given components in a parsed module gives.
///
/// With an error of the validation there is no code and the error is the
/// only diagnostic. Otherwise the code is that of the module with the
/// components installed, formatted, with the spans of the input; and the
/// diagnostics are the warnings of the validation, followed by those that
/// the new code earns for each component.
pub open spec fn installed(
    initial: TokenStreamView,
    t: Tree,
    cs: Seq<ComponentInfoView>,
) -> ProcMacroResultView {
    let (content, diagnostics) = patch_result(t, cs);
    if any_error(diagnostics) {
        ProcMacroResultView { token_stream: plain_stream(Seq::empty()), diagnostics }
    } else {
        ProcMacroResultView {
            token_stream: output_stream(
                initial,
                if content.len() > 0 {
                    formatted_code(content)
                } else {
                    content
                },
            ),
            diagnostics: diagnostics + warnings_among(content, cs, cs.len()),
        }
    }
}

/// What the attribute gives for the text of its arguments and the tokens of
/// the module. An argument that names no component gives the error that
/// lists the allowed ones, and a module that cannot be parsed the parser's
/// report; either comes alone and without code.
pub open spec fn with_components_output(
    attribute: Seq<char>,
    initial: TokenStreamView,
) -> ProcMacroResultView {
    let args = arguments_of(attribute);
    match components_among(args, args.len()) {
        Err(diagnostics) => ProcMacroResultView {
            token_stream: plain_stream(Seq::empty()),
            diagnostics,
        },
        Ok(cs) => match parsed_syntax(stream_text(initial)) {
            Err(report) => failure_of(report),
            Ok(t) => installed(initial, t, cs),
        },
    }
}

/// Installs the components that the attribute names in the contract module
/// that it stands on.
pub fn with_components(attribute_stream: &TokenStream, item_stream: &TokenStream) -> (r:
    ProcMacroResult)
    ensures
        r.deep_view() == with_components_output(
            stream_text(attribute_stream.deep_view()),
            item_stream.deep_view(),
        ),
{
    let attribute = attribute_stream.to_text();
    let args = parse_args(attribute.as_str());
    let components_info = match find_components(&args) {
        Ok(components_info) => components_info,
        Err(diagnostics) => {
            return ProcMacroResult::new(TokenStream::empty()).with_diagnostics(diagnostics);
        },
    };
    let source = item_stream.to_text();
    let tree = match parse_syntax(source.as_str()) {
        Ok(tree) => tree,
        Err(report) => {
            return ProcMacroResult::failure(Diagnostic::error(report));
        },
    };
    install(item_stream, &tree, &components_info)
}

/// Installs the given components in the module that the tree holds.
///
/// `item_stream` holds the tokens of the module, from which the new code
/// takes its spans. Where the first item of the tree is a contract module,
/// the path of each component that needs an immutable config has to end
/// with the name of the component.
pub fn install(
    item_stream: &TokenStream,
    tree: &Vec<SyntaxEntry>,
    components_info: &Vec<ComponentInfo>,
) -> (r: ProcMacroResult)
    requires
        first_item(tree.deep_view()) matches Some(m) && is_contract_module(tree.deep_view(), m)
            ==> have_config_paths(components_info.deep_view()),
    ensures
        r.deep_view() == installed(
            item_stream.deep_view(),
            tree.deep_view(),
            components_info.deep_view(),
        ),
{
    let (content, diagnostics) = build_patch(tree, components_info);
    if has_error(&diagnostics) {
        return ProcMacroResult::new(TokenStream::empty()).with_diagnostics(diagnostics);
    }
    let mut diagnostics = diagnostics;
    let ghost validated = diagnostics.deep_view();
    let mut i: usize = 0;
    assert(diagnostics.deep_view() =~= validated + Seq::<DiagnosticView>::empty());
    while i < components_info.len()
        invariant
            i <= components_info.len(),
            diagnostics.deep_view() == validated + warnings_among(
                content@,
                components_info.deep_view(),
                i as nat,
            ),
        decreases components_info.len() - i,
    {
        assert(components_info.deep_view()[i as int] == components_info[i as int].deep_view());
        let component_warnings = add_per_component_warnings(
            content.as_str(),
            &components_info[i],
        );
        let ghost before = diagnostics.deep_view();
        extend_diagnostics(&mut diagnostics, component_warnings);
        assert(diagnostics.deep_view() =~= validated + warnings_among(
            content@,
            components_info.deep_view(),
            (i + 1) as nat,
        ));
        i += 1;
    }
    let formatted_content = if content.as_str().unicode_len() > 0 {
        format_code(content.as_str())
    } else {
        content
    };
    let token_stream = tokens_with_spans(item_stream, formatted_content.as_str());
    ProcMacroResult::new(token_stream).with_diagnostics(diagnostics)
}

} // verus!
