use openzeppelin_macros::diagnostic::{Diagnostic, Severity};
use openzeppelin_macros::with_components::advisories::add_per_component_warnings;
use openzeppelin_macros::with_components::components::{
    get_component_info, ComponentInfo, COMPONENT_COUNT,
};
use openzeppelin_macros::with_components::diagnostics::errors::{
    INVALID_COMPONENT, MULTIPLE_ACCESS_CONTROL_COMPONENTS, NO_BODY, NO_CONTRACT_ATTRIBUTE,
};
use openzeppelin_macros::with_components::diagnostics::warnings;

const CATALOG: [(&str, &str, &str, bool, bool); 19] = [
    ("AccessControl", "openzeppelin_access::accesscontrol::AccessControlComponent", "accesscontrol", true, false),
    ("Ownable", "openzeppelin_access::ownable::OwnableComponent", "ownable", true, false),
    ("Vesting", "openzeppelin_finance::vesting::VestingComponent", "vesting", true, false),
    ("SRC5", "openzeppelin_introspection::src5::SRC5Component", "src5", false, false),
    ("Initializable", "openzeppelin_security::InitializableComponent", "initializable", false, false),
    ("Pausable", "openzeppelin_security::PausableComponent", "pausable", false, false),
    ("ReentrancyGuard", "openzeppelin_security::ReentrancyGuardComponent", "reentrancyguard", false, false),
    ("ERC20", "openzeppelin_token::erc20::ERC20Component", "erc20", true, false),
    ("ERC721", "openzeppelin_token::erc721::ERC721Component", "erc721", true, false),
    ("ERC721Enumerable", "openzeppelin_token::erc721::extensions::ERC721EnumerableComponent", "erc721_enumerable", true, false),
    ("ERC721Receiver", "openzeppelin_token::erc721::ERC721ReceiverComponent", "erc721_receiver", true, false),
    ("ERC1155", "openzeppelin_token::erc1155::ERC1155Component", "erc1155", true, false),
    ("ERC1155Receiver", "openzeppelin_token::erc1155::ERC1155ReceiverComponent", "erc1155_receiver", true, false),
    ("ERC2981", "openzeppelin_token::common::erc2981::ERC2981Component", "erc2981", true, true),
    ("Upgradeable", "openzeppelin_upgrades::UpgradeableComponent", "upgradeable", false, false),
    ("Nonces", "openzeppelin_utils::nonces::NoncesComponent", "nonces", false, false),
    ("Multisig", "openzeppelin_governance::multisig::MultisigComponent", "multisig", true, false),
    ("TimelockController", "openzeppelin_governance::timelock::TimelockControllerComponent", "timelock_controller", true, false),
    ("Votes", "openzeppelin_governance::votes::VotesComponent", "votes", false, false),
];

fn component(name: &str) -> ComponentInfo {
    get_component_info(name).0.unwrap()
}

fn warning(message: &str) -> Vec<Diagnostic> {
    vec![Diagnostic { severity: Severity::Warning, message: message.to_string() }]
}

#[test]
fn the_catalog_holds_each_component() {
    assert_eq!(COMPONENT_COUNT, CATALOG.len());
    for (short, path, storage, has_initializer, has_immutable_config) in CATALOG {
        let (info, diagnostics) = get_component_info(short);
        assert_eq!(diagnostics, vec![]);
        assert_eq!(
            info,
            Some(ComponentInfo {
                name: format!("{short}Component"),
                path: path.to_string(),
                storage: storage.to_string(),
                event: format!("{short}Event"),
                has_initializer,
                has_immutable_config,
                internal_impls: vec!["InternalImpl".to_string()],
            })
        );
    }
}

#[test]
fn an_unknown_name_gives_the_list_of_allowed_names() {
    let expected = "Invalid component: ERC6000\n\nAllowed components are:\nAccessControl, Ownable, Vesting, SRC5, Initializable, Pausable, ReentrancyGuard, ERC20, ERC721, ERC721Enumerable, ERC721Receiver, ERC1155, ERC1155Receiver, ERC2981, Upgradeable, Nonces, Multisig, TimelockController, Votes\n";
    let (info, diagnostics) = get_component_info("ERC6000");
    assert_eq!(info, None);
    assert_eq!(
        diagnostics,
        vec![Diagnostic { severity: Severity::Error, message: expected.to_string() }]
    );
    for name in ["", "erc20", "ERC20Component", "ERC20 ", "Ownable2"] {
        let (info, diagnostics) = get_component_info(name);
        assert_eq!(info, None);
        assert_eq!(diagnostics.len(), 1);
        assert_eq!(diagnostics[0].severity, Severity::Error);
        assert!(diagnostics[0].message.starts_with(&format!("Invalid component: {name}\n")));
    }
}

#[test]
fn the_short_name_stands_before_component() {
    for (short, _, _, _, _) in CATALOG {
        assert_eq!(component(short).short_name(), short);
    }
    let mut info = component("ERC20");
    info.name = "Plain".to_string();
    assert_eq!(info.short_name(), "Plain");
    info.name = "ComponentFirst".to_string();
    assert_eq!(info.short_name(), "");
    info.name = "AComponentBComponent".to_string();
    assert_eq!(info.short_name(), "A");
}

#[test]
fn messages_of_component_errors() {
    assert_eq!(NO_BODY, "Contract module must have a body.\n");
    assert_eq!(INVALID_COMPONENT("ERC6000"), "ERC6000 is not in the list of allowed components.\n");
    assert_eq!(
        NO_CONTRACT_ATTRIBUTE("starknet::contract"),
        "Contract module must have the `#[starknet::contract]` attribute.\n"
    );
    assert_eq!(
        MULTIPLE_ACCESS_CONTROL_COMPONENTS("AccessControl, AccessControlDefaultAdminRules"),
        "Only one AccessControl component can be used. Found: [AccessControl, AccessControlDefaultAdminRules].\n"
    );
}

#[test]
fn messages_of_warnings() {
    assert_eq!(
        warnings::INITIALIZERS_MISSING("ERC20, Ownable"),
        "It looks like the initializers for the following components are missing:\n\nERC20, Ownable\n\nThis may lead to unexpected behavior.\nWe recommend adding the corresponding initializer calls to the constructor.\n"
    );
    assert_eq!(
        warnings::IMMUTABLE_CONFIG_MISSING("ERC2981", "openzeppelin_token::common::erc2981::DefaultConfig"),
        "The ERC2981 component requires an ImmutableConfig implementation in scope and\nit looks like it is missing.\n\nYou can use the default implementation by importing it:\n\n`use openzeppelin_token::common::erc2981::DefaultConfig;`\n"
    );
    assert!(warnings::ERC4626_HOOKS_IMPL_MISSING.contains("ERC4626EmptyHooks"));
    assert!(warnings::ERC4626_FEE_CONFIG_IMPL_MISSING.contains("ERC4626DefaultNoFees"));
    assert!(warnings::ERC4626_LIMIT_CONFIG_IMPL_MISSING.contains("ERC4626DefaultNoLimits"));
    assert!(warnings::ERC4626_ASSETS_MANAGEMENT_IMPL_MISSING.contains("ERC4626SelfAssetsManagement"));
}

#[test]
fn vesting_needs_a_schedule() {
    let info = component("Vesting");
    assert_eq!(add_per_component_warnings("", &info), warning(warnings::VESTING_SCHEDULE_IMPL_MISSING));
    assert_eq!(add_per_component_warnings("use x::LinearVestingSchedule;", &info), vec![]);
    assert_eq!(add_per_component_warnings("impl S of VestingScheduleTrait {}", &info), vec![]);
    assert_eq!(
        warnings::VESTING_SCHEDULE_IMPL_MISSING,
        "The Vesting component requires an implementation of the VestingScheduleTrait in scope and\nit looks like it is missing.\n\nYou can use the LinearVestingSchedule implementation by importing it:\n\n`use openzeppelin_finance::vesting::LinearVestingSchedule;`\n"
    );
}

#[test]
fn initializable_needs_a_call_of_initialize() {
    let info = component("Initializable");
    assert_eq!(add_per_component_warnings("fn f() {}", &info), warning(warnings::INITIALIZABLE_NOT_USED));
    assert_eq!(add_per_component_warnings("self.initializable.initialize();", &info), vec![]);
    assert_eq!(
        add_per_component_warnings("self.initializable.initialize ();", &info),
        warning(warnings::INITIALIZABLE_NOT_USED)
    );
    assert_eq!(
        warnings::INITIALIZABLE_NOT_USED,
        "It looks like the `self.initializable.initialize()` function is not used in the contract. If\nthis is intentional, you may consider removing the Initializable component.\n"
    );
}

#[test]
fn pausable_needs_both_calls() {
    let info = component("Pausable");
    let both = "self.pausable.pause(); self.pausable.unpause();";
    assert_eq!(add_per_component_warnings(both, &info), vec![]);
    assert_eq!(add_per_component_warnings("self.pausable.pause();", &info), warning(warnings::PAUSABLE_NOT_USED));
    assert_eq!(add_per_component_warnings("self.pausable.unpause();", &info), warning(warnings::PAUSABLE_NOT_USED));
    assert_eq!(add_per_component_warnings("", &info), warning(warnings::PAUSABLE_NOT_USED));
    // A fragment in a comment counts as well.
    assert_eq!(add_per_component_warnings("// self.pausable.pause() self.pausable.unpause()", &info), vec![]);
    assert_eq!(
        warnings::PAUSABLE_NOT_USED,
        "It looks like the `self.pausable.pause()` and `self.pausable.unpause()` functions are not used in the contract. If\nthis is intentional, you may consider removing the Pausable component.\n"
    );
}

#[test]
fn tokens_need_their_hooks() {
    for (short, message) in [
        ("ERC20", warnings::ERC20_HOOKS_IMPL_MISSING),
        ("ERC721", warnings::ERC721_HOOKS_IMPL_MISSING),
        ("ERC1155", warnings::ERC1155_HOOKS_IMPL_MISSING),
    ] {
        let info = component(short);
        assert_eq!(add_per_component_warnings("mod m {}", &info), warning(message));
        assert_eq!(add_per_component_warnings(&format!("impl H of {short}HooksTrait {{}}"), &info), vec![]);
        assert_eq!(add_per_component_warnings(&format!("use t::{short}HooksEmptyImpl;"), &info), vec![]);
        assert!(message.starts_with(&format!("The {short} component requires an implementation of the {short}HooksTrait in scope and\nit looks like it is missing.\n")));
        assert!(message.ends_with(&format!("::{short}HooksEmptyImpl;`\n")));
    }
    // The hooks of another token do not count.
    assert_eq!(
        add_per_component_warnings("use t::ERC721HooksEmptyImpl;", &component("ERC20")),
        warning(warnings::ERC20_HOOKS_IMPL_MISSING)
    );
}

#[test]
fn upgradeable_needs_a_call_of_upgrade() {
    let info = component("Upgradeable");
    assert_eq!(add_per_component_warnings("", &info), warning(warnings::UPGRADEABLE_NOT_USED));
    assert_eq!(add_per_component_warnings("self.upgradeable.upgrade(new_class_hash);", &info), vec![]);
    assert_eq!(add_per_component_warnings("self.upgradeable.upgrade_and_call(x);", &info), vec![]);
    assert_eq!(
        warnings::UPGRADEABLE_NOT_USED,
        "It looks like the `self.upgradeable.upgrade(new_class_hash)` function is not used in the contract. If\nthis is intentional, you may consider removing the Upgradeable component.\n"
    );
}

#[test]
fn votes_need_the_metadata() {
    let info = component("Votes");
    assert_eq!(add_per_component_warnings("", &info), warning(warnings::SNIP12_METADATA_IMPL_MISSING));
    assert_eq!(add_per_component_warnings("impl M of SNIP12Metadata {}", &info), vec![]);
    assert_eq!(add_per_component_warnings("use SNIP12Metadata;", &info), warning(warnings::SNIP12_METADATA_IMPL_MISSING));
    assert_eq!(
        warnings::SNIP12_METADATA_IMPL_MISSING,
        "The Votes component requires an implementation of the SNIP12Metadata trait in scope and\nit looks like it is missing.\n"
    );
}

#[test]
fn other_components_earn_no_warning() {
    for short in ["AccessControl", "Ownable", "SRC5", "ReentrancyGuard", "ERC721Enumerable", "ERC721Receiver", "ERC1155Receiver", "ERC2981", "Nonces", "Multisig", "TimelockController"] {
        assert_eq!(add_per_component_warnings("", &component(short)), vec![]);
    }
}
