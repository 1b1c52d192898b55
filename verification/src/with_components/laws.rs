//! What holds of the installation of components whatever the module is.

use vstd::prelude::*;
use crate::constants::{CONTRACT_ATTRIBUTE, EVENT_ENUM_NAME, STORAGE_STRUCT_NAME};
use crate::diagnostic::{error_of, DiagnosticView, Severity};
use crate::text::contains;
use crate::syntax::{
    child,
    child_count,
    child_of_kind,
    first_item,
    has_attribute,
    parsed_syntax,
    Tree,
};
use crate::token_stream::{plain_stream, stream_text, ProcMacroResultView, TokenStreamView};
use crate::with_components::components::{
    catalog_index,
    invalid_component_message,
    ComponentInfoView,
};
use crate::with_components::definition::{
    any_error,
    arguments_of,
    components_among,
    installed,
    warnings_among,
    with_components_output,
};
use crate::with_components::diagnostics::errors::no_contract_attribute;
use crate::with_components::generation::{
    event_enum_text,
    module_text,
    new_event_enum_text,
    new_storage_struct_text,
    storage_struct_text,
};
use crate::with_components::patch::{
    event_enum_among,
    is_named,
    lemma_components_are_entered,
    lemma_render_holds_insertions,
    module_insertions,
    patch_result,
    rendered,
    storage_struct_among,
    InsertionView,
};
use crate::with_components::validation::{
    config_warnings,
    is_contract_module,
    module_body,
    validation,
};

verus! {

/// Whether all of the diagnostics are warnings.
pub open spec fn all_warnings(diagnostics: Seq<DiagnosticView>) -> bool {
    forall|i: int| 0 <= i < diagnostics.len() ==> diagnostics[i].severity == Severity::Warning
}

/// What is reported for missing immutable configs are warnings.
proof fn lemma_config_warnings_warn(code: Seq<char>, cs: Seq<ComponentInfoView>)
    ensures
        all_warnings(config_warnings(code, cs)),
    decreases cs.len(),
{
    if cs.len() > 0 {
        lemma_config_warnings_warn(code, cs.drop_last());
    }
}

/// What is reported for the components are warnings.
proof fn lemma_warnings_among_warn(code: Seq<char>, cs: Seq<ComponentInfoView>, n: nat)
    ensures
        all_warnings(warnings_among(code, cs, n)),
    decreases n,
{
    if n > 0 {
        lemma_warnings_among_warn(code, cs, (n - 1) as nat);
    }
}

/// A module that has a body and carries the contract attribute is valid:
/// its validation gives no error, and nothing but warnings.
pub proof fn lemma_marked_module_is_valid(t: Tree, m: int, cs: Seq<ComponentInfoView>)
    requires
        module_body(t, m) is Some,
        has_attribute(t, m, CONTRACT_ATTRIBUTE@),
    ensures
        validation(t, m, cs).0.len() == 0,
        all_warnings(validation(t, m, cs).1),
{
    let body = module_body(t, m)->0;
    lemma_config_warnings_warn(crate::syntax::node_text(t, body), cs);
}

/// A module that has a body and does not carry the contract attribute is
/// refused with exactly one error and without a warning.
pub proof fn lemma_unmarked_module_is_refused(t: Tree, m: int, cs: Seq<ComponentInfoView>)
    requires
        module_body(t, m) is Some,
        !has_attribute(t, m, CONTRACT_ATTRIBUTE@),
    ensures
        validation(t, m, cs) == (
            seq![error_of(no_contract_attribute(CONTRACT_ATTRIBUTE@))],
            Seq::<DiagnosticView>::empty(),
        ),
{
}

/// What a patch inserts stands in the text that is written with it.
proof fn lemma_inserted_text_is_written(t: Tree, patch: Seq<InsertionView>, wanted: InsertionView)
    requires
        patch.contains(wanted),
    ensures
        contains(rendered(t, patch), wanted.text),
{
    let k = choose|k: int| 0 <= k < patch.len() && patch[k] == wanted;
    lemma_render_holds_insertions(t, patch, k);
}

/// The code of a contract module in which components are installed holds
/// what installs them.
///
/// The module is the first item of the file, has a body with its items
/// between braces, and carries the contract attribute. The code, as it is
/// before it is formatted, then holds the imports, registrations and
/// internal implementations of the components; their storage entries, in a
/// new storage struct where the module has none, and else in the storage
/// struct that it has; and their event variants, in a new event enum or in
/// the one that the module has.
pub proof fn lemma_installed_code_holds_components(
    t: Tree,
    m: int,
    body: int,
    list: int,
    rbrace: int,
    cs: Seq<ComponentInfoView>,
)
    requires
        first_item(t) == Some(m),
        is_contract_module(t, m),
        module_body(t, m) == Some(body),
        child_of_kind(t, body, 1, "ModuleItemList"@) == Some(list),
        child(t, body, 2) == Some(rbrace),
    ensures
        patch_result(t, cs).0 == rendered(t, module_insertions(t, body, cs)),
        contains(patch_result(t, cs).0, module_text(cs)),
        !storage_struct_among(t, list, child_count(t, list)) ==> contains(
            patch_result(t, cs).0,
            new_storage_struct_text(cs),
        ),
        !event_enum_among(t, list, child_count(t, list)) ==> contains(
            patch_result(t, cs).0,
            new_event_enum_text(cs),
        ),
        forall|k: nat|
            k < child_count(t, list) ==> match #[trigger] child(t, list, k) {
                Some(c) => {
                    &&& is_named(t, c, "ItemStruct"@, STORAGE_STRUCT_NAME@) && child(t, c, 6)
                        is Some ==> contains(patch_result(t, cs).0, storage_struct_text(cs))
                    &&& is_named(t, c, "ItemEnum"@, EVENT_ENUM_NAME@) && child(t, c, 6)
                        is Some ==> contains(patch_result(t, cs).0, event_enum_text(cs))
                },
                None => true,
            },
{
    let patch = module_insertions(t, body, cs);
    let code = patch_result(t, cs).0;
    lemma_marked_module_is_valid(t, m, cs);
    assert(code == rendered(t, patch));
    lemma_components_are_entered(t, body, list, rbrace, cs);
    lemma_inserted_text_is_written(t, patch, InsertionView { at: rbrace, text: module_text(cs) });
    if !storage_struct_among(t, list, child_count(t, list)) {
        lemma_inserted_text_is_written(
            t,
            patch,
            InsertionView { at: rbrace, text: new_storage_struct_text(cs) },
        );
    }
    if !event_enum_among(t, list, child_count(t, list)) {
        lemma_inserted_text_is_written(
            t,
            patch,
            InsertionView { at: rbrace, text: new_event_enum_text(cs) },
        );
    }
    assert forall|k: nat| k < child_count(t, list) implies match #[trigger] child(t, list, k) {
        Some(c) => {
            &&& is_named(t, c, "ItemStruct"@, STORAGE_STRUCT_NAME@) && child(t, c, 6)
                is Some ==> contains(code, storage_struct_text(cs))
            &&& is_named(t, c, "ItemEnum"@, EVENT_ENUM_NAME@) && child(t, c, 6)
                is Some ==> contains(code, event_enum_text(cs))
        },
        None => true,
    } by {
        match child(t, list, k) {
            Some(c) => {
                if child(t, c, 6) is Some {
                    let at = child(t, c, 6)->0;
                    if is_named(t, c, "ItemStruct"@, STORAGE_STRUCT_NAME@) {
                        lemma_inserted_text_is_written(
                            t,
                            patch,
                            InsertionView { at, text: storage_struct_text(cs) },
                        );
                    }
                    if is_named(t, c, "ItemEnum"@, EVENT_ENUM_NAME@) {
                        lemma_inserted_text_is_written(
                            t,
                            patch,
                            InsertionView { at, text: event_enum_text(cs) },
                        );
                    }
                }
            },
            None => {},
        }
    }
}

/// The installation of components in a file whose first item is a module
/// with a body and with the contract attribute succeeds: none of its
/// diagnostics is an error.
pub proof fn lemma_installation_succeeds(
    initial: TokenStreamView,
    t: Tree,
    cs: Seq<ComponentInfoView>,
)
    requires
        first_item(t) matches Some(m) && module_body(t, m) is Some && has_attribute(
            t,
            m,
            CONTRACT_ATTRIBUTE@,
        ),
    ensures
        !any_error(installed(initial, t, cs).diagnostics),
        all_warnings(installed(initial, t, cs).diagnostics),
{
    let m = first_item(t)->0;
    lemma_marked_module_is_valid(t, m, cs);
    let (content, diagnostics) = patch_result(t, cs);
    assert(diagnostics == validation(t, m, cs).1);
    assert(!any_error(diagnostics));
    lemma_warnings_among_warn(content, cs, cs.len());
}

/// The installation of components in a file whose first item is a module
/// with a body and without the contract attribute fails: it gives no code,
/// exactly one error, and no warning.
pub proof fn lemma_installation_needs_marker(
    initial: TokenStreamView,
    t: Tree,
    cs: Seq<ComponentInfoView>,
)
    requires
        first_item(t) matches Some(m) && module_body(t, m) is Some && !has_attribute(
            t,
            m,
            CONTRACT_ATTRIBUTE@,
        ),
    ensures
        installed(initial, t, cs) == (ProcMacroResultView {
            token_stream: plain_stream(Seq::empty()),
            diagnostics: seq![error_of(no_contract_attribute(CONTRACT_ATTRIBUTE@))],
        }),
{
    let m = first_item(t)->0;
    lemma_unmarked_module_is_refused(t, m, cs);
    let (content, diagnostics) = patch_result(t, cs);
    assert(diagnostics[0].severity == Severity::Error);
}

/// The lookup stops at the first argument that names no component.
proof fn lemma_components_fail_at(args: Seq<Seq<char>>, k: int, n: nat)
    requires
        0 <= k < n <= args.len(),
        catalog_index(args[k]) is None,
        forall|j: int| 0 <= j < k ==> catalog_index(#[trigger] args[j]) is Some,
    ensures
        components_among(args, n) == Err::<Seq<ComponentInfoView>, Seq<DiagnosticView>>(
            seq![error_of(invalid_component_message(args[k]))],
        ),
    decreases n,
{
    if n - 1 > k {
        lemma_components_fail_at(args, k, (n - 1) as nat);
    } else {
        lemma_components_found(args, k as nat);
    }
}

/// The lookup goes on while the arguments name components.
proof fn lemma_components_found(args: Seq<Seq<char>>, n: nat)
    requires
        n <= args.len(),
        forall|j: int| 0 <= j < n ==> catalog_index(#[trigger] args[j]) is Some,
    ensures
        components_among(args, n) is Ok,
    decreases n,
{
    if n > 0 {
        lemma_components_found(args, (n - 1) as nat);
    }
}

/// An argument that names no component of the catalog makes the attribute
/// fail, whatever the module is: there is no code, and the only diagnostic
/// is the error that names the argument and lists the allowed components.
pub proof fn lemma_unknown_component_fails(
    attribute: Seq<char>,
    initial: TokenStreamView,
    k: int,
)
    requires
        0 <= k < arguments_of(attribute).len(),
        catalog_index(arguments_of(attribute)[k]) is None,
        forall|j: int| 0 <= j < k ==> catalog_index(#[trigger] arguments_of(attribute)[j]) is Some,
    ensures
        with_components_output(attribute, initial) == (ProcMacroResultView {
            token_stream: plain_stream(Seq::empty()),
            diagnostics: seq![
                error_of(invalid_component_message(arguments_of(attribute)[k])),
            ],
        }),
{
    let args = arguments_of(attribute);
    lemma_components_fail_at(args, k, args.len());
}

/// Whether the text of a stream is that of a module with a body: the host
/// parses it, and its first item is a module that has a body.
pub open spec fn is_module_with_body(item: TokenStreamView) -> bool {
    match parsed_syntax(stream_text(item)) {
        Ok(t) => match first_item(t) {
            Some(m) => module_body(t, m) is Some,
            None => false,
        },
        Err(_) => false,
    }
}

/// Whether the text of a stream is that of a module that carries the
/// contract attribute.
pub open spec fn is_marked_module(item: TokenStreamView) -> bool {
    match parsed_syntax(stream_text(item)) {
        Ok(t) => match first_item(t) {
            Some(m) => has_attribute(t, m, CONTRACT_ATTRIBUTE@),
            None => false,
        },
        Err(_) => false,
    }
}

/// The attribute with arguments that all name components, on a module with
/// a body and with the contract attribute, succeeds: none of its diagnostics
/// is an error.
pub proof fn lemma_known_components_are_installed(attribute: Seq<char>, item: TokenStreamView)
    requires
        components_among(arguments_of(attribute), arguments_of(attribute).len()) is Ok,
        is_module_with_body(item),
        is_marked_module(item),
    ensures
        !any_error(with_components_output(attribute, item).diagnostics),
        all_warnings(with_components_output(attribute, item).diagnostics),
{
    let args = arguments_of(attribute);
    let cs = components_among(args, args.len())->Ok_0;
    let t = parsed_syntax(stream_text(item))->Ok_0;
    lemma_installation_succeeds(item, t, cs);
}

/// The attribute with arguments that all name components, on a module with
/// a body and without the contract attribute, fails with exactly one error
/// and without a warning, and gives no code.
pub proof fn lemma_unmarked_module_fails(attribute: Seq<char>, item: TokenStreamView)
    requires
        components_among(arguments_of(attribute), arguments_of(attribute).len()) is Ok,
        is_module_with_body(item),
        !is_marked_module(item),
    ensures
        with_components_output(attribute, item) == (ProcMacroResultView {
            token_stream: plain_stream(Seq::empty()),
            diagnostics: seq![error_of(no_contract_attribute(CONTRACT_ATTRIBUTE@))],
        }),
{
    let args = arguments_of(attribute);
    let cs = components_among(args, args.len())->Ok_0;
    let t = parsed_syntax(stream_text(item))->Ok_0;
    lemma_installation_needs_marker(item, t, cs);
}

} // verus!
