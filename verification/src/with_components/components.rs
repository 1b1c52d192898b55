//! The catalog of components that can be installed in a contract.

use vstd::prelude::*;
use crate::diagnostic::{error_of, Diagnostic, DiagnosticView};
use crate::text::{ends_with, before_first, chars_of, join, prefix_before, str_equal, string_of};

verus! {

/// What the expander knows of one component.
///
/// * `name`: the component's name, such as `ERC20Component`
/// * `path`: where it is imported from
/// * `storage`: the name of its entry in the storage struct
/// * `event`: the name of its variant in the event enum
/// * `has_initializer`: whether the constructor has to call its initializer
/// * `has_immutable_config`: whether it needs an `ImmutableConfig` in scope
/// * `internal_impls`: the internal implementations that are made available
#[derive(Clone, Debug, PartialEq, Eq)]
pub struct ComponentInfo {
    pub name: String,
    pub path: String,
    pub storage: String,
    pub event: String,
    pub has_initializer: bool,
    pub has_immutable_config: bool,
    pub internal_impls: Vec<String>,
}

/// The model of a [`ComponentInfo`].
pub struct ComponentInfoView {
    pub name: Seq<char>,
    pub path: Seq<char>,
    pub storage: Seq<char>,
    pub event: Seq<char>,
    pub has_initializer: bool,
    pub has_immutable_config: bool,
    pub internal_impls: Seq<Seq<char>>,
}

impl DeepView for ComponentInfo {
    type V = ComponentInfoView;

    open spec fn deep_view(&self) -> ComponentInfoView {
        ComponentInfoView {
            name: self.name@,
            path: self.path@,
            storage: self.storage@,
            event: self.event@,
            has_initializer: self.has_initializer,
            has_immutable_config: self.has_immutable_config,
            internal_impls: self.internal_impls.deep_view(),
        }
    }
}

/// The short name of a component: what stands before `Component` in its
/// name, or the whole name where `Component` does not stand in it.
pub open spec fn short_name_of(name: Seq<char>) -> Seq<char> {
    before_first(name, "Component"@)
}

impl ComponentInfo {
    /// The component's short name, such as `ERC20` for `ERC20Component`.
    pub fn short_name(&self) -> (r: String)
        ensures
            r@ == short_name_of(self.name@),
    {
        let name = chars_of(self.name.as_str());
        let needle = chars_of("Component");
        let short = prefix_before(&name, &needle);
        string_of(&short)
    }
}

/// The number of components in the catalog.
pub const COMPONENT_COUNT: usize = 19;

/// One row of the catalog: the component's short name, the module it lives
/// in, its storage entry, whether it has an initializer, and whether it needs
/// an immutable config.
pub open spec fn catalog_row(i: int) -> (Seq<char>, Seq<char>, Seq<char>, bool, bool) {
    if i == 0 {
        ("AccessControl"@, "openzeppelin_access::accesscontrol"@, "accesscontrol"@, true, false)
    } else if i == 1 {
        ("Ownable"@, "openzeppelin_access::ownable"@, "ownable"@, true, false)
    } else if i == 2 {
        ("Vesting"@, "openzeppelin_finance::vesting"@, "vesting"@, true, false)
    } else if i == 3 {
        ("SRC5"@, "openzeppelin_introspection::src5"@, "src5"@, false, false)
    } else if i == 4 {
        ("Initializable"@, "openzeppelin_security"@, "initializable"@, false, false)
    } else if i == 5 {
        ("Pausable"@, "openzeppelin_security"@, "pausable"@, false, false)
    } else if i == 6 {
        ("ReentrancyGuard"@, "openzeppelin_security"@, "reentrancyguard"@, false, false)
    } else if i == 7 {
        ("ERC20"@, "openzeppelin_token::erc20"@, "erc20"@, true, false)
    } else if i == 8 {
        ("ERC721"@, "openzeppelin_token::erc721"@, "erc721"@, true, false)
    } else if i == 9 {
        (
            "ERC721Enumerable"@,
            "openzeppelin_token::erc721::extensions"@,
            "erc721_enumerable"@,
            true,
            false,
        )
    } else if i == 10 {
        ("ERC721Receiver"@, "openzeppelin_token::erc721"@, "erc721_receiver"@, true, false)
    } else if i == 11 {
        ("ERC1155"@, "openzeppelin_token::erc1155"@, "erc1155"@, true, false)
    } else if i == 12 {
        ("ERC1155Receiver"@, "openzeppelin_token::erc1155"@, "erc1155_receiver"@, true, false)
    } else if i == 13 {
        ("ERC2981"@, "openzeppelin_token::common::erc2981"@, "erc2981"@, true, true)
    } else if i == 14 {
        ("Upgradeable"@, "openzeppelin_upgrades"@, "upgradeable"@, false, false)
    } else if i == 15 {
        ("Nonces"@, "openzeppelin_utils::nonces"@, "nonces"@, false, false)
    } else if i == 16 {
        ("Multisig"@, "openzeppelin_governance::multisig"@, "multisig"@, true, false)
    } else if i == 17 {
        (
            "TimelockController"@,
            "openzeppelin_governance::timelock"@,
            "timelock_controller"@,
            true,
            false,
        )
    } else {
        ("Votes"@, "openzeppelin_governance::votes"@, "votes"@, false, false)
    }
}

/// The row of the catalog at `i`, as `catalog_row` gives it.
fn row(i: usize) -> (r: (&'static str, &'static str, &'static str, bool, bool))
    requires
        i < COMPONENT_COUNT,
    ensures
        (r.0@, r.1@, r.2@, r.3, r.4) == catalog_row(i as int),
{
    if i == 0 {
        ("AccessControl", "openzeppelin_access::accesscontrol", "accesscontrol", true, false)
    } else if i == 1 {
        ("Ownable", "openzeppelin_access::ownable", "ownable", true, false)
    } else if i == 2 {
        ("Vesting", "openzeppelin_finance::vesting", "vesting", true, false)
    } else if i == 3 {
        ("SRC5", "openzeppelin_introspection::src5", "src5", false, false)
    } else if i == 4 {
        ("Initializable", "openzeppelin_security", "initializable", false, false)
    } else if i == 5 {
        ("Pausable", "openzeppelin_security", "pausable", false, false)
    } else if i == 6 {
        ("ReentrancyGuard", "openzeppelin_security", "reentrancyguard", false, false)
    } else if i == 7 {
        ("ERC20", "openzeppelin_token::erc20", "erc20", true, false)
    } else if i == 8 {
        ("ERC721", "openzeppelin_token::erc721", "erc721", true, false)
    } else if i == 9 {
        (
            "ERC721Enumerable",
            "openzeppelin_token::erc721::extensions",
            "erc721_enumerable",
            true,
            false,
        )
    } else if i == 10 {
        ("ERC721Receiver", "openzeppelin_token::erc721", "erc721_receiver", true, false)
    } else if i == 11 {
        ("ERC1155", "openzeppelin_token::erc1155", "erc1155", true, false)
    } else if i == 12 {
        ("ERC1155Receiver", "openzeppelin_token::erc1155", "erc1155_receiver", true, false)
    } else if i == 13 {
        ("ERC2981", "openzeppelin_token::common::erc2981", "erc2981", true, true)
    } else if i == 14 {
        ("Upgradeable", "openzeppelin_upgrades", "upgradeable", false, false)
    } else if i == 15 {
        ("Nonces", "openzeppelin_utils::nonces", "nonces", false, false)
    } else if i == 16 {
        ("Multisig", "openzeppelin_governance::multisig", "multisig", true, false)
    } else if i == 17 {
        (
            "TimelockController",
            "openzeppelin_governance::timelock",
            "timelock_controller",
            true,
            false,
        )
    } else {
        ("Votes", "openzeppelin_governance::votes", "votes", false, false)
    }
}

/// The component that row `i` of the catalog describes.
pub open spec fn catalog_info(i: int) -> ComponentInfoView {
    let (short, module, storage, has_initializer, has_immutable_config) = catalog_row(i);
    ComponentInfoView {
        name: short + "Component"@,
        path: module + "::"@ + short + "Component"@,
        storage,
        event: short + "Event"@,
        has_initializer,
        has_immutable_config,
        internal_impls: seq!["InternalImpl"@],
    }
}

/// The short names of the first `n` components of the catalog, in its order.
pub open spec fn allowed_prefix(n: nat) -> Seq<Seq<char>>
    decreases n,
{
    if n == 0 {
        Seq::empty()
    } else {
        allowed_prefix((n - 1) as nat).push(catalog_row(n - 1).0)
    }
}

/// The short names of all components of the catalog, in its order.
pub open spec fn allowed_components() -> Seq<Seq<char>> {
    allowed_prefix(COMPONENT_COUNT as nat)
}

/// The first row of the catalog, from row `from` on, whose short name is
/// `name`, if there is one.
pub open spec fn catalog_index_from(name: Seq<char>, from: int) -> Option<int>
    decreases COMPONENT_COUNT - from,
{
    if from < 0 || from >= COMPONENT_COUNT {
        None
    } else if catalog_row(from).0 == name {
        Some(from)
    } else {
        catalog_index_from(name, from + 1)
    }
}

/// The row of the catalog whose short name is `name`, if there is one.
pub open spec fn catalog_index(name: Seq<char>) -> Option<int> {
    catalog_index_from(name, 0)
}

/// What is reported for a name that the catalog does not hold: the name, and
/// the names that are allowed.
pub open spec fn invalid_component_message(name: Seq<char>) -> Seq<char> {
    "Invalid component: "@ + name + "\n\nAllowed components are:\n"@ + join(
        allowed_components(),
        ", "@,
    ) + "\n"@
}

/// What a lookup of `name` in the catalog gives: the component, or the error.
pub open spec fn component_lookup(name: Seq<char>) -> (
    Option<ComponentInfoView>,
    Seq<DiagnosticView>,
) {
    match catalog_index(name) {
        Some(i) => (Some(catalog_info(i)), Seq::empty()),
        None => (None, seq![error_of(invalid_component_message(name))]),
    }
}

/// The short names of the catalog, joined by `", "`.
fn allowed_components_list() -> (r: String)
    ensures
        r@ == join(allowed_components(), ", "@),
{
    let mut out = String::new();
    let mut i: usize = 0;
    while i < COMPONENT_COUNT
        invariant
            i <= COMPONENT_COUNT,
            out@ == join(allowed_prefix(i as nat), ", "@),
        decreases COMPONENT_COUNT - i,
    {
        let r = row(i);
        proof {
            let next = allowed_prefix((i + 1) as nat);
            assert(next.drop_last() == allowed_prefix(i as nat));
            assert(next.last() == r.0@);
            if i == 0 {
                assert(allowed_prefix(0).len() == 0);
                assert(next.len() == 1);
                assert(Seq::<char>::empty() + r.0@ == r.0@);
            } else {
                lemma_allowed_prefix_len(i as nat);
            }
        }
        if i != 0 {
            out.append(", ");
        }
        out.append(r.0);
        i += 1;
    }
    out
}

/// There is one short name for each row.
proof fn lemma_allowed_prefix_len(n: nat)
    ensures
        allowed_prefix(n).len() == n,
    decreases n,
{
    if n > 0 {
        lemma_allowed_prefix_len((n - 1) as nat);
    }
}

/// Builds the component of one row of the catalog.
fn component_of_row(i: usize) -> (r: ComponentInfo)
    requires
        i < COMPONENT_COUNT,
    ensures
        r.deep_view() == catalog_info(i as int),
{
    let (short, module, storage, has_initializer, has_immutable_config) = row(i);
    let mut name = String::from_str(short);
    name.append("Component");
    let mut path = String::from_str(module);
    path.append("::");
    path.append(short);
    path.append("Component");
    let mut event = String::from_str(short);
    event.append("Event");
    let mut internal_impls: Vec<String> = Vec::new();
    internal_impls.push(String::from_str("InternalImpl"));
    let info = ComponentInfo {
        name,
        path,
        storage: String::from_str(storage),
        event,
        has_initializer,
        has_immutable_config,
        internal_impls,
    };
    assert(info.internal_impls.deep_view() == seq!["InternalImpl"@]);
    info
}

/// Each component of the catalog is imported from a path that ends with its
/// name.
pub proof fn lemma_catalog_path(i: int)
    ensures
        ends_with(catalog_info(i).path, catalog_info(i).name),
{
    let info = catalog_info(i);
    let (short, module, storage, has_initializer, has_immutable_config) = catalog_row(i);
    let at = info.path.len() - info.name.len();
    assert(info.path.subrange(at, at + info.name.len()) =~= info.name);
}

/// Looks a component up by its short name, such as `ERC20`.
///
/// Gives the component and no diagnostic where the catalog holds the name,
/// and otherwise no component and one error that lists the allowed names.
pub fn get_component_info(name: &str) -> (r: (Option<ComponentInfo>, Vec<Diagnostic>))
    ensures
        (r.0.deep_view(), r.1.deep_view()) == component_lookup(name@),
        r.0 matches Some(info) ==> ends_with(info.path@, info.name@),
{
    let mut i: usize = 0;
    while i < COMPONENT_COUNT
        invariant
            i <= COMPONENT_COUNT,
            catalog_index(name@) == catalog_index_from(name@, i as int),
        decreases COMPONENT_COUNT - i,
    {
        let r = row(i);
        if str_equal(name, r.0) {
            let info = component_of_row(i);
            proof {
                lemma_catalog_path(i as int);
            }
            let none: Vec<Diagnostic> = Vec::new();
            assert(none.deep_view() == Seq::<DiagnosticView>::empty());
            assert(catalog_index(name@) == Some(i as int));
            return (Some(info), none);
        }
        i += 1;
    }
    let mut message = String::from_str("Invalid component: ");
    message.append(name);
    message.append("\n\nAllowed components are:\n");
    let allowed = allowed_components_list();
    message.append(allowed.as_str());
    message.append("\n");
    let mut errors: Vec<Diagnostic> = Vec::new();
    errors.push(Diagnostic::error(message));
    assert(errors.deep_view() == seq![error_of(invalid_component_message(name@))]);
    (None, errors)
}

} // verus!
