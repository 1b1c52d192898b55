//! What has to hold of a contract module before components are installed in
//! it, and what is only advised.

use vstd::prelude::*;
use crate::constants::{CONSTRUCTOR_ATTRIBUTE, CONTRACT_ATTRIBUTE};
use crate::diagnostic::{error_of, warning_of, Diagnostic, DiagnosticView};
use crate::syntax::{
    child,
    child_count,
    child_of_kind,
    children_of,
    find_child_of_kind,
    has_attr,
    has_attribute,
    has_kind,
    node_text,
    text_of_node,
    SyntaxEntry,
    Tree,
};
use crate::text::{
    chars_of,
    contains,
    contains_chars,
    ends_with,
    join,
    join_strings,
    push_all,
    push_line,
    push_range,
    push_str,
    string_of,
};
use crate::with_components::advisories::push_warning;
use crate::with_components::components::{short_name_of, ComponentInfo, ComponentInfoView};
use crate::with_components::diagnostics::errors::{
    no_contract_attribute,
    NO_BODY,
    NO_CONTRACT_ATTRIBUTE,
};
use crate::with_components::diagnostics::warnings::{
    immutable_config_missing,
    initializers_missing,
    IMMUTABLE_CONFIG_MISSING,
    INITIALIZERS_MISSING,
};

verus! {

/// The call by which a constructor initializes a component.
pub open spec fn initializer_call(c: ComponentInfoView) -> Seq<char> {
    "self."@ + c.storage + ".initializer("@
}

/// The short names of those components that have an initializer which
/// `code` does not call, in the order of the components.
pub open spec fn missing_initializers(code: Seq<char>, cs: Seq<ComponentInfoView>) -> Seq<
    Seq<char>,
>
    decreases cs.len(),
{
    if cs.len() == 0 {
        Seq::empty()
    } else {
        let rest = missing_initializers(code, cs.drop_last());
        let c = cs.last();
        if c.has_initializer && !contains(code, initializer_call(c)) {
            rest.push(short_name_of(c.name))
        } else {
            rest
        }
    }
}

/// The warning for the initializers that the constructor does not call: one
/// warning that names them all, or none where none is missing.
pub open spec fn initializer_warnings(code: Seq<char>, cs: Seq<ComponentInfoView>) -> Seq<
    DiagnosticView,
> {
    let missing = missing_initializers(code, cs);
    if missing.len() > 0 {
        seq![warning_of(initializers_missing(join(missing, ", "@)))]
    } else {
        Seq::empty()
    }
}

/// Checks that the code of the constructor calls the initializer of each
/// component that has one.
pub fn check_initializers(constructor_code: &Vec<char>, components_info: &Vec<ComponentInfo>) -> (r:
    Vec<Diagnostic>)
    ensures
        r.deep_view() == initializer_warnings(constructor_code@, components_info.deep_view()),
{
    let mut missing: Vec<String> = Vec::new();
    assert(missing.deep_view() =~= Seq::<Seq<char>>::empty());
    let mut i: usize = 0;
    while i < components_info.len()
        invariant
            i <= components_info.len(),
            missing.deep_view() == missing_initializers(
                constructor_code@,
                components_info.deep_view().take(i as int),
            ),
        decreases components_info.len() - i,
    {
        let component = &components_info[i];
        proof {
            let next = components_info.deep_view().take(i + 1);
            assert(next.drop_last() == components_info.deep_view().take(i as int));
            assert(next.last() == component.deep_view());
        }
        if component.has_initializer {
            let mut call: Vec<char> = Vec::new();
            push_str(&mut call, "self.");
            push_str(&mut call, component.storage.as_str());
            push_str(&mut call, ".initializer(");
            if !contains_chars(constructor_code, &call) {
                push_line(&mut missing, component.short_name());
            }
        }
        i += 1;
    }
    assert(components_info.deep_view().take(components_info.len() as int)
        == components_info.deep_view());
    let mut warnings: Vec<Diagnostic> = Vec::new();
    assert(warnings.deep_view() =~= Seq::<DiagnosticView>::empty());
    if missing.len() > 0 {
        let names = join_strings(&missing, ", ");
        let message = INITIALIZERS_MISSING(names.as_str());
        push_warning(&mut warnings, message.as_str());
    }
    warnings
}

/// A component that needs an immutable config is imported from a path that
/// ends with its name.
pub open spec fn has_config_path(c: ComponentInfoView) -> bool {
    c.has_immutable_config ==> ends_with(c.path, c.name)
}

/// Whether each of the components that need an immutable config is imported
/// from a path that ends with its name.
pub open spec fn have_config_paths(cs: Seq<ComponentInfoView>) -> bool {
    forall|i: int| 0 <= i < cs.len() ==> has_config_path(#[trigger] cs[i])
}

/// Where the default config of a component is found: beside the component.
pub open spec fn default_config_path(c: ComponentInfoView) -> Seq<char> {
    c.path.take(c.path.len() - c.name.len()) + "DefaultConfig"@
}

/// The warning that `code` earns for the immutable config of one component,
/// if it earns one: the component needs a config, and `code` neither names
/// the default config nor implements one.
pub open spec fn config_warning(code: Seq<char>, c: ComponentInfoView) -> Option<Seq<char>> {
    if c.has_immutable_config && !contains(code, default_config_path(c)) && !contains(
        code,
        "of "@ + c.name + "::ImmutableConfig"@,
    ) {
        Some(immutable_config_missing(short_name_of(c.name), default_config_path(c)))
    } else {
        None
    }
}

/// The warnings for the immutable configs that `code` lacks, in the order of
/// the components.
pub open spec fn config_warnings(code: Seq<char>, cs: Seq<ComponentInfoView>) -> Seq<
    DiagnosticView,
>
    decreases cs.len(),
{
    if cs.len() == 0 {
        Seq::empty()
    } else {
        let rest = config_warnings(code, cs.drop_last());
        match config_warning(code, cs.last()) {
            Some(message) => rest.push(warning_of(message)),
            None => rest,
        }
    }
}

/// Checks that the code of the module body has an immutable config for each
/// component that needs one.
pub fn check_immutable_configs(body_code: &Vec<char>, components_info: &Vec<ComponentInfo>) -> (r:
    Vec<Diagnostic>)
    requires
        have_config_paths(components_info.deep_view()),
    ensures
        r.deep_view() == config_warnings(body_code@, components_info.deep_view()),
{
    let mut warnings: Vec<Diagnostic> = Vec::new();
    assert(warnings.deep_view() =~= Seq::<DiagnosticView>::empty());
    let mut i: usize = 0;
    while i < components_info.len()
        invariant
            i <= components_info.len(),
            have_config_paths(components_info.deep_view()),
            warnings.deep_view() == config_warnings(
                body_code@,
                components_info.deep_view().take(i as int),
            ),
        decreases components_info.len() - i,
    {
        let component = &components_info[i];
        proof {
            let next = components_info.deep_view().take(i + 1);
            assert(next.drop_last() == components_info.deep_view().take(i as int));
            assert(next.last() == component.deep_view());
            assert(has_config_path(components_info.deep_view()[i as int]));
        }
        if component.has_immutable_config {
            let path = chars_of(component.path.as_str());
            let name = chars_of(component.name.as_str());
            let mut default_config: Vec<char> = Vec::new();
            push_range(&mut default_config, &path, 0, path.len() - name.len());
            push_str(&mut default_config, "DefaultConfig");
            assert(default_config@ == default_config_path(component.deep_view())) by {
                assert(path@.subrange(0, path.len() - name.len()) == path@.take(
                    path.len() - name.len(),
                ));
            }
            if !contains_chars(body_code, &default_config) {
                let mut implementation: Vec<char> = Vec::new();
                push_str(&mut implementation, "of ");
                push_all(&mut implementation, &name);
                push_str(&mut implementation, "::ImmutableConfig");
                if !contains_chars(body_code, &implementation) {
                    let short_name = component.short_name();
                    let default_config_text = string_of(&default_config);
                    let message = IMMUTABLE_CONFIG_MISSING(
                        short_name.as_str(),
                        default_config_text.as_str(),
                    );
                    push_warning(&mut warnings, message.as_str());
                }
            }
        }
        i += 1;
    }
    assert(components_info.deep_view().take(components_info.len() as int)
        == components_info.deep_view());
    warnings
}

/// The body of the module at `m`, where the node is a module and has one.
pub open spec fn module_body(t: Tree, m: int) -> Option<int> {
    if 0 <= m < t.len() && t[m].kind == "ItemModule"@ {
        child_of_kind(t, m, 4, "ModuleBody"@)
    } else {
        None
    }
}

/// The body of the module at `m`, where the node is a module and has one.
pub fn find_module_body(tree: &Vec<SyntaxEntry>, m: usize) -> (r: Option<usize>)
    requires
        m < tree.len(),
    ensures
        crate::syntax::position(r) == module_body(tree.deep_view(), m as int),
        r matches Some(body) ==> m < body < tree.len(),
{
    if has_kind(tree, m, "ItemModule") {
        find_child_of_kind(tree, m, 4, "ModuleBody")
    } else {
        None
    }
}

/// Whether the node at `c` is a function marked as the constructor.
pub open spec fn is_constructor(t: Tree, c: int) -> bool {
    t[c].kind == "FunctionWithBody"@ && has_attribute(t, c, CONSTRUCTOR_ATTRIBUTE@)
}

/// The first constructor among the first `n` children of the list at `list`.
pub open spec fn constructor_among(t: Tree, list: int, n: nat) -> Option<int>
    decreases n,
{
    if n == 0 {
        None
    } else {
        match constructor_among(t, list, (n - 1) as nat) {
            Some(c) => Some(c),
            None => match child(t, list, (n - 1) as nat) {
                Some(c) => if is_constructor(t, c) {
                    Some(c)
                } else {
                    None
                },
                None => None,
            },
        }
    }
}

/// The text of the constructor of the module whose body is at `body`: that
/// of the first item of the body that is a function marked as constructor,
/// or nothing where there is none.
pub open spec fn constructor_code(t: Tree, body: int) -> Seq<char> {
    match child_of_kind(t, body, 1, "ModuleItemList"@) {
        Some(list) => match constructor_among(t, list, child_count(t, list)) {
            Some(c) => node_text(t, c),
            None => Seq::empty(),
        },
        None => Seq::empty(),
    }
}

/// The text of the constructor of the module whose body is at `body`.
pub fn find_constructor_code(tree: &Vec<SyntaxEntry>, body: usize) -> (r: Vec<char>)
    requires
        body < tree.len(),
    ensures
        r@ == constructor_code(tree.deep_view(), body as int),
{
    match find_child_of_kind(tree, body, 1, "ModuleItemList") {
        Some(list) => {
            let items = children_of(tree, list);
            let mut i: usize = 0;
            while i < items.len()
                invariant
                    i <= items.len(),
                    list < tree.len(),
                    items.len() == child_count(tree.deep_view(), list as int),
                    forall|k: int|
                        0 <= k < items.len() ==> child(tree.deep_view(), list as int, k as nat)
                            == Some(#[trigger] items[k] as int) && list < items[k] < tree.len(),
                    constructor_among(tree.deep_view(), list as int, i as nat) is None,
                    child_of_kind(tree.deep_view(), body as int, 1, "ModuleItemList"@) == Some(
                        list as int,
                    ),
                decreases items.len() - i,
            {
                let c = items[i];
                if has_kind(tree, c, "FunctionWithBody") && has_attr(
                    tree,
                    c,
                    CONSTRUCTOR_ATTRIBUTE,
                ) {
                    proof {
                        assert(child(tree.deep_view(), list as int, i as nat) == Some(
                            items[i as int] as int,
                        ));
                        lemma_constructor_found(
                            tree.deep_view(),
                            list as int,
                            (i + 1) as nat,
                            items.len() as nat,
                        );
                    }
                    return text_of_node(tree, c);
                }
                i += 1;
            }
            Vec::new()
        },
        None => Vec::new(),
    }
}

/// Once a constructor is found among the first children, it is the one found
/// among any more of them.
proof fn lemma_constructor_found(t: Tree, list: int, n: nat, m: nat)
    requires
        n <= m,
        constructor_among(t, list, n) is Some,
    ensures
        constructor_among(t, list, m) == constructor_among(t, list, n),
    decreases m,
{
    if n < m {
        lemma_constructor_found(t, list, n, (m - 1) as nat);
    }
}

/// Whether the module at `m` is one in which components can be installed:
/// it has a body and carries the contract attribute.
pub open spec fn is_contract_module(t: Tree, m: int) -> bool {
    module_body(t, m) is Some && has_attribute(t, m, CONTRACT_ATTRIBUTE@)
}

/// What the validation of the module at `m` gives: its errors and its
/// warnings. A module without a body is an error, and so is one without the
/// contract attribute; either comes alone and without warnings. Otherwise
/// there is no error, and the warnings are those for missing initializers
/// and then those for missing immutable configs.
pub open spec fn validation(t: Tree, m: int, cs: Seq<ComponentInfoView>) -> (
    Seq<DiagnosticView>,
    Seq<DiagnosticView>,
) {
    match module_body(t, m) {
        None => (seq![error_of(NO_BODY@)], Seq::empty()),
        Some(body) => if !has_attribute(t, m, CONTRACT_ATTRIBUTE@) {
            (seq![error_of(no_contract_attribute(CONTRACT_ATTRIBUTE@))], Seq::empty())
        } else {
            (
                Seq::empty(),
                initializer_warnings(constructor_code(t, body), cs) + config_warnings(
                    node_text(t, body),
                    cs,
                ),
            )
        },
    }
}

/// Appends the diagnostics of `more` to `all`.
pub(crate) fn extend_diagnostics(all: &mut Vec<Diagnostic>, more: Vec<Diagnostic>)
    ensures
        final(all).deep_view() == old(all).deep_view() + more.deep_view(),
{
    let ghost before = all.deep_view();
    let ghost added = more.deep_view();
    let mut more = more;
    all.append(&mut more);
    assert(all.deep_view() =~= before + added);
}

/// Validates the contract module at `node`.
///
/// Gives the errors and the warnings. With an error there is no warning.
/// The paths of the components are read only where there is no error: there
/// the path of each component that needs an immutable config has to end
/// with the name of the component.
pub fn validate_contract_module(
    tree: &Vec<SyntaxEntry>,
    node: usize,
    components_info: &Vec<ComponentInfo>,
) -> (r: (Vec<Diagnostic>, Vec<Diagnostic>))
    requires
        node < tree.len(),
        is_contract_module(tree.deep_view(), node as int) ==> have_config_paths(
            components_info.deep_view(),
        ),
    ensures
        (r.0.deep_view(), r.1.deep_view()) == validation(
            tree.deep_view(),
            node as int,
            components_info.deep_view(),
        ),
{
    let mut errors: Vec<Diagnostic> = Vec::new();
    let mut warnings: Vec<Diagnostic> = Vec::new();
    assert(errors.deep_view() =~= Seq::<DiagnosticView>::empty());
    assert(warnings.deep_view() =~= Seq::<DiagnosticView>::empty());
    let body = match find_module_body(tree, node) {
        Some(body) => body,
        None => {
            let ghost before = errors.deep_view();
            errors.push(Diagnostic::error(String::from_str(NO_BODY)));
            assert(errors.deep_view() =~= before.push(error_of(NO_BODY@)));
            return (errors, warnings);
        },
    };
    if !has_attr(tree, node, CONTRACT_ATTRIBUTE) {
        let ghost before = errors.deep_view();
        errors.push(Diagnostic::error(NO_CONTRACT_ATTRIBUTE(CONTRACT_ATTRIBUTE)));
        assert(errors.deep_view() =~= before.push(
            error_of(no_contract_attribute(CONTRACT_ATTRIBUTE@)),
        ));
        return (errors, warnings);
    }
    let constructor = find_constructor_code(tree, body);
    let initializers = check_initializers(&constructor, components_info);
    extend_diagnostics(&mut warnings, initializers);
    let body_code = text_of_node(tree, body);
    let configs = check_immutable_configs(&body_code, components_info);
    extend_diagnostics(&mut warnings, configs);
    (errors, warnings)
}

} // verus!
