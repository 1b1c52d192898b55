use cairo_lang_formatter::format_string;
use cairo_lang_parser::utils::SimpleParserDatabase;
use openzeppelin_macros::diagnostic::{Diagnostic, Severity};
use openzeppelin_macros::syntax::SyntaxEntry;
use openzeppelin_macros::token_stream::{ProcMacroResult, TokenStream};
use openzeppelin_macros::with_components::components::{get_component_info, ComponentInfo};
use openzeppelin_macros::with_components::definition::with_components;
use openzeppelin_macros::with_components::patch::build_patch;

/// Runs the attribute on the text of its arguments and of the module.
fn get_result(attribute: &str, item: &str) -> ProcMacroResult {
    with_components(&TokenStream::from_text(attribute), &TokenStream::from_text(item))
}

/// The syntax tree of a source text, node by node in preorder.
fn tree_of(source: &str) -> Vec<SyntaxEntry> {
    let db = SimpleParserDatabase::default();
    let root = db.parse_virtual(source).unwrap();
    root.descendants(&db)
        .map(|node| SyntaxEntry {
            kind: format!("{:?}", node.kind(&db)),
            depth: node.ancestors(&db).count(),
            text: node.text(&db).map(|text| text.to_string(&db)).unwrap_or_default(),
        })
        .collect()
}

fn components(names: &[&str]) -> Vec<ComponentInfo> {
    names.iter().map(|name| get_component_info(name).0.unwrap()).collect()
}

fn formatted(code: &str) -> String {
    format_string(&SimpleParserDatabase::default(), code.to_string())
}

fn expect_diagnostics(found: &[Diagnostic], expected: &[(Severity, &str)]) {
    let found: Vec<(Severity, &str)> =
        found.iter().map(|d| (d.severity, d.message.as_str())).collect();
    assert_eq!(found, expected);
}

/// The attribute fails: there is no code, and the one diagnostic is the error.
fn expect_failure(attribute: &str, item: &str, message: &str) {
    let result = get_result(attribute, item);
    assert!(result.token_stream.tokens.is_empty());
    expect_diagnostics(&result.diagnostics, &[(Severity::Error, message)]);
}

/// The attribute succeeds: the code is the module with the components
/// installed, formatted, and the diagnostics are the given warnings.
fn expect_success(attribute: &str, names: &[&str], item: &str, content: &str, warnings: &[&str]) {
    let result = get_result(attribute, item);
    let expected: Vec<(Severity, &str)> =
        warnings.iter().map(|message| (Severity::Warning, *message)).collect();
    expect_diagnostics(&result.diagnostics, &expected);
    assert_eq!(result.token_stream.to_text(), formatted(content));

    let (patched, _) = build_patch(&tree_of(item), &components(names));
    assert_eq!(patched, content);
}

#[test]
fn test_with_account() {
    let attribute = "(Account)";
    let item = r###"#[starknet::contract(account)]
pub mod MyContract {
    #[storage]
    pub struct Storage {}

    #[constructor]
    fn constructor(ref self: ContractState, public_key: felt252) {
        self.account.initializer(public_key);
    }
}"###;
    expect_failure(attribute, item, "Invalid component: Account\n\nAllowed components are:\nAccessControl, Ownable, Vesting, SRC5, Initializable, Pausable, ReentrancyGuard, ERC20, ERC721, ERC721Enumerable, ERC721Receiver, ERC1155, ERC1155Receiver, ERC2981, Upgradeable, Nonces, Multisig, TimelockController, Votes\n");
}

#[test]
fn test_with_account_no_initializer() {
    let attribute = "(Account)";
    let item = r###"#[starknet::contract]
pub mod MyContract {
    #[storage]
    pub struct Storage {}
}"###;
    expect_failure(attribute, item, "Invalid component: Account\n\nAllowed components are:\nAccessControl, Ownable, Vesting, SRC5, Initializable, Pausable, ReentrancyGuard, ERC20, ERC721, ERC721Enumerable, ERC721Receiver, ERC1155, ERC1155Receiver, ERC2981, Upgradeable, Nonces, Multisig, TimelockController, Votes\n");
}

#[test]
fn test_with_eth_account() {
    let attribute = "(EthAccount)";
    let item = r###"#[starknet::contract(account)]
pub mod MyContract {
    use openzeppelin_interfaces::accounts::EthPublicKey;

    #[storage]
    pub struct Storage {}

    #[constructor]
    fn constructor(ref self: ContractState, public_key: EthPublicKey) {
        self.eth_account.initializer(public_key);
    }
}"###;
    expect_failure(attribute, item, "Invalid component: EthAccount\n\nAllowed components are:\nAccessControl, Ownable, Vesting, SRC5, Initializable, Pausable, ReentrancyGuard, ERC20, ERC721, ERC721Enumerable, ERC721Receiver, ERC1155, ERC1155Receiver, ERC2981, Upgradeable, Nonces, Multisig, TimelockController, Votes\n");
}

#[test]
fn test_with_eth_account_no_initializer() {
    let attribute = "(EthAccount)";
    let item = r###"#[starknet::contract(account)]
pub mod MyContract {
    #[storage]
    pub struct Storage {}
}"###;
    expect_failure(attribute, item, "Invalid component: EthAccount\n\nAllowed components are:\nAccessControl, Ownable, Vesting, SRC5, Initializable, Pausable, ReentrancyGuard, ERC20, ERC721, ERC721Enumerable, ERC721Receiver, ERC1155, ERC1155Receiver, ERC2981, Upgradeable, Nonces, Multisig, TimelockController, Votes\n");
}

#[test]
fn test_with_src9() {
    let attribute = "(SRC9)";
    let item = r###"#[starknet::contract(src9)]
pub mod MyContract {
    #[storage]
    pub struct Storage {}

    #[constructor]
    fn constructor(ref self: ContractState) {
        self.src9.initializer();
    }
}"###;
    expect_failure(attribute, item, "Invalid component: SRC9\n\nAllowed components are:\nAccessControl, Ownable, Vesting, SRC5, Initializable, Pausable, ReentrancyGuard, ERC20, ERC721, ERC721Enumerable, ERC721Receiver, ERC1155, ERC1155Receiver, ERC2981, Upgradeable, Nonces, Multisig, TimelockController, Votes\n");
}

#[test]
fn test_with_src9_no_initializer() {
    let attribute = "(SRC9)";
    let item = r###"#[starknet::contract]
pub mod MyContract {
    #[storage]
    pub struct Storage {}
}"###;
    expect_failure(attribute, item, "Invalid component: SRC9\n\nAllowed components are:\nAccessControl, Ownable, Vesting, SRC5, Initializable, Pausable, ReentrancyGuard, ERC20, ERC721, ERC721Enumerable, ERC721Receiver, ERC1155, ERC1155Receiver, ERC2981, Upgradeable, Nonces, Multisig, TimelockController, Votes\n");
}

#[test]
fn test_with_erc20() {
    let attribute = "(ERC20)";
    let item = r###"#[starknet::contract]
pub mod MyToken {
    use openzeppelin_token::erc20::{ERC20HooksEmptyImpl, DefaultConfig};
    use starknet::ContractAddress;

    #[storage]
    pub struct Storage {}

    #[constructor]
    fn constructor(ref self: ContractState) {
        self.erc20.initializer("MyToken", "MTK");
    }
}"###;
    let content = r###"#[starknet::contract]
pub mod MyToken {
    use openzeppelin_token::erc20::{ERC20HooksEmptyImpl, DefaultConfig};
    use starknet::ContractAddress;

    #[storage]
    pub struct Storage {        #[substorage(v0)]
        erc20: ERC20Component::Storage,
}

    #[constructor]
    fn constructor(ref self: ContractState) {
        self.erc20.initializer("MyToken", "MTK");
    }

    use openzeppelin_token::erc20::ERC20Component;

    component!(path: ERC20Component, storage: erc20, event: ERC20Event);

    impl ERC20InternalImpl = ERC20Component::InternalImpl<ContractState>;

    #[event]
    #[derive(Drop, starknet::Event)]
    enum Event {
        #[flat]
        ERC20Event: ERC20Component::Event,
    }}"###;
    expect_success(attribute, &["ERC20"], item, content, &[]);
}

#[test]
fn test_with_erc20_no_initializer() {
    let attribute = "(ERC20)";
    let item = r###"#[starknet::contract]
pub mod MyToken {
    use openzeppelin_token::erc20::{ERC20HooksEmptyImpl, DefaultConfig};
    use starknet::ContractAddress;

    #[storage]
    pub struct Storage {}

    #[constructor]
    fn constructor(ref self: ContractState) {
    }
}"###;
    let content = r###"#[starknet::contract]
pub mod MyToken {
    use openzeppelin_token::erc20::{ERC20HooksEmptyImpl, DefaultConfig};
    use starknet::ContractAddress;

    #[storage]
    pub struct Storage {        #[substorage(v0)]
        erc20: ERC20Component::Storage,
}

    #[constructor]
    fn constructor(ref self: ContractState) {
    }

    use openzeppelin_token::erc20::ERC20Component;

    component!(path: ERC20Component, storage: erc20, event: ERC20Event);

    impl ERC20InternalImpl = ERC20Component::InternalImpl<ContractState>;

    #[event]
    #[derive(Drop, starknet::Event)]
    enum Event {
        #[flat]
        ERC20Event: ERC20Component::Event,
    }}"###;
    let warnings = [
        "It looks like the initializers for the following components are missing:\n\nERC20\n\nThis may lead to unexpected behavior.\nWe recommend adding the corresponding initializer calls to the constructor.\n",
    ];
    expect_success(attribute, &["ERC20"], item, content, &warnings);
}

#[test]
fn test_with_erc20_no_hooks_impl() {
    let attribute = "(ERC20)";
    let item = r###"#[starknet::contract]
pub mod MyToken {
    use openzeppelin_token::erc20::DefaultConfig;
    use starknet::ContractAddress;

    #[storage]
    pub struct Storage {}

    #[constructor]
    fn constructor(ref self: ContractState) {
        self.erc20.initializer("MyToken", "MTK");
    }
}"###;
    let content = r###"#[starknet::contract]
pub mod MyToken {
    use openzeppelin_token::erc20::DefaultConfig;
    use starknet::ContractAddress;

    #[storage]
    pub struct Storage {        #[substorage(v0)]
        erc20: ERC20Component::Storage,
}

    #[constructor]
    fn constructor(ref self: ContractState) {
        self.erc20.initializer("MyToken", "MTK");
    }

    use openzeppelin_token::erc20::ERC20Component;

    component!(path: ERC20Component, storage: erc20, event: ERC20Event);

    impl ERC20InternalImpl = ERC20Component::InternalImpl<ContractState>;

    #[event]
    #[derive(Drop, starknet::Event)]
    enum Event {
        #[flat]
        ERC20Event: ERC20Component::Event,
    }}"###;
    let warnings = [
        "The ERC20 component requires an implementation of the ERC20HooksTrait in scope and\nit looks like it is missing.\n\nYou can use the ERC20HooksEmptyImpl implementation by importing it:\n\n`use openzeppelin_token::erc20::ERC20HooksEmptyImpl;`\n",
    ];
    expect_success(attribute, &["ERC20"], item, content, &warnings);
}

#[test]
fn test_with_erc20_no_config() {
    let attribute = "(ERC20)";
    let item = r###"#[starknet::contract]
pub mod MyToken {
    use openzeppelin_token::erc20::ERC20HooksEmptyImpl;
    use starknet::ContractAddress;

    #[storage]
    pub struct Storage {}

    #[constructor]
    fn constructor(ref self: ContractState) {
        self.erc20.initializer("MyToken", "MTK");
    }
}"###;
    let content = r###"#[starknet::contract]
pub mod MyToken {
    use openzeppelin_token::erc20::ERC20HooksEmptyImpl;
    use starknet::ContractAddress;

    #[storage]
    pub struct Storage {        #[substorage(v0)]
        erc20: ERC20Component::Storage,
}

    #[constructor]
    fn constructor(ref self: ContractState) {
        self.erc20.initializer("MyToken", "MTK");
    }

    use openzeppelin_token::erc20::ERC20Component;

    component!(path: ERC20Component, storage: erc20, event: ERC20Event);

    impl ERC20InternalImpl = ERC20Component::InternalImpl<ContractState>;

    #[event]
    #[derive(Drop, starknet::Event)]
    enum Event {
        #[flat]
        ERC20Event: ERC20Component::Event,
    }}"###;
    expect_success(attribute, &["ERC20"], item, content, &[]);
}

#[test]
fn test_with_ownable() {
    let attribute = "(Ownable)";
    let item = r###"#[starknet::contract]
pub mod Owned {
    use starknet::ContractAddress;

    #[storage]
    pub struct Storage {}

    #[constructor]
    fn constructor(ref self: ContractState, owner: ContractAddress) {
        self.ownable.initializer(owner);
    }
}"###;
    let content = r###"#[starknet::contract]
pub mod Owned {
    use starknet::ContractAddress;

    #[storage]
    pub struct Storage {        #[substorage(v0)]
        ownable: OwnableComponent::Storage,
}

    #[constructor]
    fn constructor(ref self: ContractState, owner: ContractAddress) {
        self.ownable.initializer(owner);
    }

    use openzeppelin_access::ownable::OwnableComponent;

    component!(path: OwnableComponent, storage: ownable, event: OwnableEvent);

    impl OwnableInternalImpl = OwnableComponent::InternalImpl<ContractState>;

    #[event]
    #[derive(Drop, starknet::Event)]
    enum Event {
        #[flat]
        OwnableEvent: OwnableComponent::Event,
    }}"###;
    expect_success(attribute, &["Ownable"], item, content, &[]);
}

#[test]
fn test_with_ownable_no_initializer() {
    let attribute = "(Ownable)";
    let item = r###"#[starknet::contract]
pub mod Owned {
    use starknet::ContractAddress;

    #[storage]
    pub struct Storage {}

    #[constructor]
    fn constructor(ref self: ContractState) {
    }
}"###;
    let content = r###"#[starknet::contract]
pub mod Owned {
    use starknet::ContractAddress;

    #[storage]
    pub struct Storage {        #[substorage(v0)]
        ownable: OwnableComponent::Storage,
}

    #[constructor]
    fn constructor(ref self: ContractState) {
    }

    use openzeppelin_access::ownable::OwnableComponent;

    component!(path: OwnableComponent, storage: ownable, event: OwnableEvent);

    impl OwnableInternalImpl = OwnableComponent::InternalImpl<ContractState>;

    #[event]
    #[derive(Drop, starknet::Event)]
    enum Event {
        #[flat]
        OwnableEvent: OwnableComponent::Event,
    }}"###;
    let warnings = [
        "It looks like the initializers for the following components are missing:\n\nOwnable\n\nThis may lead to unexpected behavior.\nWe recommend adding the corresponding initializer calls to the constructor.\n",
    ];
    expect_success(attribute, &["Ownable"], item, content, &warnings);
}

#[test]
fn test_with_two_components() {
    let attribute = "(ERC20, Ownable)";
    let item = r###"#[starknet::contract]
pub mod MyToken {
    use openzeppelin_token::erc20::{ERC20HooksEmptyImpl, DefaultConfig};
    use starknet::ContractAddress;

    #[storage]
    pub struct Storage {}

    #[constructor]
    fn constructor(ref self: ContractState, owner: ContractAddress) {
        self.ownable.initializer(owner);
        self.erc20.initializer("MyToken", "MTK");
    }
}"###;
    let content = r###"#[starknet::contract]
pub mod MyToken {
    use openzeppelin_token::erc20::{ERC20HooksEmptyImpl, DefaultConfig};
    use starknet::ContractAddress;

    #[storage]
    pub struct Storage {        #[substorage(v0)]
        erc20: ERC20Component::Storage,
        #[substorage(v0)]
        ownable: OwnableComponent::Storage,
}

    #[constructor]
    fn constructor(ref self: ContractState, owner: ContractAddress) {
        self.ownable.initializer(owner);
        self.erc20.initializer("MyToken", "MTK");
    }

    use openzeppelin_token::erc20::ERC20Component;
    use openzeppelin_access::ownable::OwnableComponent;

    component!(path: ERC20Component, storage: erc20, event: ERC20Event);
    component!(path: OwnableComponent, storage: ownable, event: OwnableEvent);

    impl ERC20InternalImpl = ERC20Component::InternalImpl<ContractState>;
    impl OwnableInternalImpl = OwnableComponent::InternalImpl<ContractState>;

    #[event]
    #[derive(Drop, starknet::Event)]
    enum Event {
        #[flat]
        ERC20Event: ERC20Component::Event,
        #[flat]
        OwnableEvent: OwnableComponent::Event,
    }}"###;
    expect_success(attribute, &["ERC20", "Ownable"], item, content, &[]);
}

#[test]
fn test_with_two_components_no_initializer() {
    let attribute = "(ERC20, Ownable)";
    let item = r###"#[starknet::contract]
pub mod MyToken {
    use openzeppelin_token::erc20::{ERC20HooksEmptyImpl, DefaultConfig};
    use starknet::ContractAddress;

    #[storage]
    pub struct Storage {}

    #[constructor]
    fn constructor(ref self: ContractState) {
    }
}"###;
    let content = r###"#[starknet::contract]
pub mod MyToken {
    use openzeppelin_token::erc20::{ERC20HooksEmptyImpl, DefaultConfig};
    use starknet::ContractAddress;

    #[storage]
    pub struct Storage {        #[substorage(v0)]
        erc20: ERC20Component::Storage,
        #[substorage(v0)]
        ownable: OwnableComponent::Storage,
}

    #[constructor]
    fn constructor(ref self: ContractState) {
    }

    use openzeppelin_token::erc20::ERC20Component;
    use openzeppelin_access::ownable::OwnableComponent;

    component!(path: ERC20Component, storage: erc20, event: ERC20Event);
    component!(path: OwnableComponent, storage: ownable, event: OwnableEvent);

    impl ERC20InternalImpl = ERC20Component::InternalImpl<ContractState>;
    impl OwnableInternalImpl = OwnableComponent::InternalImpl<ContractState>;

    #[event]
    #[derive(Drop, starknet::Event)]
    enum Event {
        #[flat]
        ERC20Event: ERC20Component::Event,
        #[flat]
        OwnableEvent: OwnableComponent::Event,
    }}"###;
    let warnings = [
        "It looks like the initializers for the following components are missing:\n\nERC20, Ownable\n\nThis may lead to unexpected behavior.\nWe recommend adding the corresponding initializer calls to the constructor.\n",
    ];
    expect_success(attribute, &["ERC20", "Ownable"], item, content, &warnings);
}

#[test]
fn test_with_two_components_no_constructor() {
    let attribute = "(ERC20, Ownable)";
    let item = r###"#[starknet::contract]
pub mod MyToken {
    use openzeppelin_token::erc20::{ERC20HooksEmptyImpl, DefaultConfig};
    use starknet::ContractAddress;

    #[storage]
    pub struct Storage {}
}"###;
    let content = r###"#[starknet::contract]
pub mod MyToken {
    use openzeppelin_token::erc20::{ERC20HooksEmptyImpl, DefaultConfig};
    use starknet::ContractAddress;

    #[storage]
    pub struct Storage {        #[substorage(v0)]
        erc20: ERC20Component::Storage,
        #[substorage(v0)]
        ownable: OwnableComponent::Storage,
}

    use openzeppelin_token::erc20::ERC20Component;
    use openzeppelin_access::ownable::OwnableComponent;

    component!(path: ERC20Component, storage: erc20, event: ERC20Event);
    component!(path: OwnableComponent, storage: ownable, event: OwnableEvent);

    impl ERC20InternalImpl = ERC20Component::InternalImpl<ContractState>;
    impl OwnableInternalImpl = OwnableComponent::InternalImpl<ContractState>;

    #[event]
    #[derive(Drop, starknet::Event)]
    enum Event {
        #[flat]
        ERC20Event: ERC20Component::Event,
        #[flat]
        OwnableEvent: OwnableComponent::Event,
    }}"###;
    let warnings = [
        "It looks like the initializers for the following components are missing:\n\nERC20, Ownable\n\nThis may lead to unexpected behavior.\nWe recommend adding the corresponding initializer calls to the constructor.\n",
    ];
    expect_success(attribute, &["ERC20", "Ownable"], item, content, &warnings);
}

#[test]
fn test_with_access_control() {
    let attribute = "(AccessControl)";
    let item = r###"#[starknet::contract]
pub mod Contract {
    use openzeppelin_access::accesscontrol::DEFAULT_ADMIN_ROLE;
    use starknet::ContractAddress;

    #[storage]
    pub struct Storage {}

    #[constructor]
    fn constructor(ref self: ContractState, default_admin: ContractAddress) {
        self.access_control.initializer();

        self.access_control._grant_role(DEFAULT_ADMIN_ROLE, default_admin);
    }
}"###;
    let content = r###"#[starknet::contract]
pub mod Contract {
    use openzeppelin_access::accesscontrol::DEFAULT_ADMIN_ROLE;
    use starknet::ContractAddress;

    #[storage]
    pub struct Storage {        #[substorage(v0)]
        accesscontrol: AccessControlComponent::Storage,
}

    #[constructor]
    fn constructor(ref self: ContractState, default_admin: ContractAddress) {
        self.access_control.initializer();

        self.access_control._grant_role(DEFAULT_ADMIN_ROLE, default_admin);
    }

    use openzeppelin_access::accesscontrol::AccessControlComponent;

    component!(path: AccessControlComponent, storage: accesscontrol, event: AccessControlEvent);

    impl AccessControlInternalImpl = AccessControlComponent::InternalImpl<ContractState>;

    #[event]
    #[derive(Drop, starknet::Event)]
    enum Event {
        #[flat]
        AccessControlEvent: AccessControlComponent::Event,
    }}"###;
    let warnings = [
        "It looks like the initializers for the following components are missing:\n\nAccessControl\n\nThis may lead to unexpected behavior.\nWe recommend adding the corresponding initializer calls to the constructor.\n",
    ];
    expect_success(attribute, &["AccessControl"], item, content, &warnings);
}

#[test]
fn test_with_access_control_no_initializer() {
    let attribute = "(AccessControl)";
    let item = r###"#[starknet::contract]
pub mod Contract {
    use openzeppelin_access::accesscontrol::DEFAULT_ADMIN_ROLE;
    use starknet::ContractAddress;

    #[storage]
    pub struct Storage {}

    #[constructor]
    fn constructor(ref self: ContractState) {
    }
}"###;
    let content = r###"#[starknet::contract]
pub mod Contract {
    use openzeppelin_access::accesscontrol::DEFAULT_ADMIN_ROLE;
    use starknet::ContractAddress;

    #[storage]
    pub struct Storage {        #[substorage(v0)]
        accesscontrol: AccessControlComponent::Storage,
}

    #[constructor]
    fn constructor(ref self: ContractState) {
    }

    use openzeppelin_access::accesscontrol::AccessControlComponent;

    component!(path: AccessControlComponent, storage: accesscontrol, event: AccessControlEvent);

    impl AccessControlInternalImpl = AccessControlComponent::InternalImpl<ContractState>;

    #[event]
    #[derive(Drop, starknet::Event)]
    enum Event {
        #[flat]
        AccessControlEvent: AccessControlComponent::Event,
    }}"###;
    let warnings = [
        "It looks like the initializers for the following components are missing:\n\nAccessControl\n\nThis may lead to unexpected behavior.\nWe recommend adding the corresponding initializer calls to the constructor.\n",
    ];
    expect_success(attribute, &["AccessControl"], item, content, &warnings);
}

#[test]
fn test_with_vesting() {
    let attribute = "(Vesting, Ownable)";
    let item = r###"#[starknet::contract]
pub mod VestingWallet {
    use openzeppelin_finance::vesting::LinearVestingSchedule;
    use starknet::ContractAddress;

    #[storage]
    pub struct Storage {}

    #[constructor]
    fn constructor(
        ref self: ContractState,
        beneficiary: ContractAddress,
        start: u64,
        duration: u64,
        cliff_duration: u64,
    ) {
        self.ownable.initializer(beneficiary);
        self.vesting.initializer(start, duration, cliff_duration);
    }
}"###;
    let content = r###"#[starknet::contract]
pub mod VestingWallet {
    use openzeppelin_finance::vesting::LinearVestingSchedule;
    use starknet::ContractAddress;

    #[storage]
    pub struct Storage {        #[substorage(v0)]
        vesting: VestingComponent::Storage,
        #[substorage(v0)]
        ownable: OwnableComponent::Storage,
}

    #[constructor]
    fn constructor(
        ref self: ContractState,
        beneficiary: ContractAddress,
        start: u64,
        duration: u64,
        cliff_duration: u64,
    ) {
        self.ownable.initializer(beneficiary);
        self.vesting.initializer(start, duration, cliff_duration);
    }

    use openzeppelin_finance::vesting::VestingComponent;
    use openzeppelin_access::ownable::OwnableComponent;

    component!(path: VestingComponent, storage: vesting, event: VestingEvent);
    component!(path: OwnableComponent, storage: ownable, event: OwnableEvent);

    impl VestingInternalImpl = VestingComponent::InternalImpl<ContractState>;
    impl OwnableInternalImpl = OwnableComponent::InternalImpl<ContractState>;

    #[event]
    #[derive(Drop, starknet::Event)]
    enum Event {
        #[flat]
        VestingEvent: VestingComponent::Event,
        #[flat]
        OwnableEvent: OwnableComponent::Event,
    }}"###;
    expect_success(attribute, &["Vesting", "Ownable"], item, content, &[]);
}

#[test]
fn test_with_vesting_no_initializer() {
    let attribute = "(Vesting, Ownable)";
    let item = r###"#[starknet::contract]
pub mod VestingWallet {
    use openzeppelin_finance::vesting::LinearVestingSchedule;
    use starknet::ContractAddress;

    #[storage]
    pub struct Storage {}

    #[constructor]
    fn constructor(
        ref self: ContractState,
        beneficiary: ContractAddress,
        start: u64,
        duration: u64,
        cliff_duration: u64,
    ) {
        self.ownable.initializer(beneficiary);
    }
}"###;
    let content = r###"#[starknet::contract]
pub mod VestingWallet {
    use openzeppelin_finance::vesting::LinearVestingSchedule;
    use starknet::ContractAddress;

    #[storage]
    pub struct Storage {        #[substorage(v0)]
        vesting: VestingComponent::Storage,
        #[substorage(v0)]
        ownable: OwnableComponent::Storage,
}

    #[constructor]
    fn constructor(
        ref self: ContractState,
        beneficiary: ContractAddress,
        start: u64,
        duration: u64,
        cliff_duration: u64,
    ) {
        self.ownable.initializer(beneficiary);
    }

    use openzeppelin_finance::vesting::VestingComponent;
    use openzeppelin_access::ownable::OwnableComponent;

    component!(path: VestingComponent, storage: vesting, event: VestingEvent);
    component!(path: OwnableComponent, storage: ownable, event: OwnableEvent);

    impl VestingInternalImpl = VestingComponent::InternalImpl<ContractState>;
    impl OwnableInternalImpl = OwnableComponent::InternalImpl<ContractState>;

    #[event]
    #[derive(Drop, starknet::Event)]
    enum Event {
        #[flat]
        VestingEvent: VestingComponent::Event,
        #[flat]
        OwnableEvent: OwnableComponent::Event,
    }}"###;
    let warnings = [
        "It looks like the initializers for the following components are missing:\n\nVesting\n\nThis may lead to unexpected behavior.\nWe recommend adding the corresponding initializer calls to the constructor.\n",
    ];
    expect_success(attribute, &["Vesting", "Ownable"], item, content, &warnings);
}

#[test]
fn test_with_vesting_no_schedule() {
    let attribute = "(Vesting, Ownable)";
    let item = r###"#[starknet::contract]
pub mod VestingWallet {
    use starknet::ContractAddress;

    #[storage]
    pub struct Storage {}

    #[constructor]
    fn constructor(
        ref self: ContractState,
        beneficiary: ContractAddress,
        start: u64,
        duration: u64,
        cliff_duration: u64,
    ) {
        self.ownable.initializer(beneficiary);
        self.vesting.initializer(start, duration, cliff_duration);
    }
}"###;
    let content = r###"#[starknet::contract]
pub mod VestingWallet {
    use starknet::ContractAddress;

    #[storage]
    pub struct Storage {        #[substorage(v0)]
        vesting: VestingComponent::Storage,
        #[substorage(v0)]
        ownable: OwnableComponent::Storage,
}

    #[constructor]
    fn constructor(
        ref self: ContractState,
        beneficiary: ContractAddress,
        start: u64,
        duration: u64,
        cliff_duration: u64,
    ) {
        self.ownable.initializer(beneficiary);
        self.vesting.initializer(start, duration, cliff_duration);
    }

    use openzeppelin_finance::vesting::VestingComponent;
    use openzeppelin_access::ownable::OwnableComponent;

    component!(path: VestingComponent, storage: vesting, event: VestingEvent);
    component!(path: OwnableComponent, storage: ownable, event: OwnableEvent);

    impl VestingInternalImpl = VestingComponent::InternalImpl<ContractState>;
    impl OwnableInternalImpl = OwnableComponent::InternalImpl<ContractState>;

    #[event]
    #[derive(Drop, starknet::Event)]
    enum Event {
        #[flat]
        VestingEvent: VestingComponent::Event,
        #[flat]
        OwnableEvent: OwnableComponent::Event,
    }}"###;
    let warnings = [
        "The Vesting component requires an implementation of the VestingScheduleTrait in scope and\nit looks like it is missing.\n\nYou can use the LinearVestingSchedule implementation by importing it:\n\n`use openzeppelin_finance::vesting::LinearVestingSchedule;`\n",
    ];
    expect_success(attribute, &["Vesting", "Ownable"], item, content, &warnings);
}

#[test]
fn test_with_no_contract_attribute() {
    let attribute = "(Ownable)";
    let item = r###"pub mod Owned {
    use starknet::ContractAddress;

    #[storage]
    pub struct Storage {}

    #[constructor]
    fn constructor(ref self: ContractState, owner: ContractAddress) {
        self.ownable.initializer(owner);
    }
}"###;
    expect_failure(attribute, item, "Contract module must have the `#[starknet::contract]` attribute.\n");
}

#[test]
fn test_with_no_body() {
    let attribute = "(ERC20, Ownable)";
    let item = r###"pub mod MyContract;"###;
    expect_failure(attribute, item, "Contract module must have a body.\n");
}

#[test]
fn test_with_no_components() {
    let attribute = "()";
    let item = r###"#[starknet::contract]
pub mod MyContract {
    #[storage]
    pub struct Storage {}
}"###;
    let content = r###"#[starknet::contract]
pub mod MyContract {
    #[storage]
    pub struct Storage {
}







    #[event]
    #[derive(Drop, starknet::Event)]
    enum Event {
    }}"###;
    expect_success(attribute, &[], item, content, &[]);
}

#[test]
fn test_with_invalid_component() {
    let attribute = "(ERC6000, Ownable)";
    let item = r###"#[starknet::contract]
pub mod MyContract {
    #[storage]
    pub struct Storage {}
}"###;
    expect_failure(attribute, item, "Invalid component: ERC6000\n\nAllowed components are:\nAccessControl, Ownable, Vesting, SRC5, Initializable, Pausable, ReentrancyGuard, ERC20, ERC721, ERC721Enumerable, ERC721Receiver, ERC1155, ERC1155Receiver, ERC2981, Upgradeable, Nonces, Multisig, TimelockController, Votes\n");
}

#[test]
fn test_with_src5() {
    let attribute = "(SRC5)";
    let item = r###"#[starknet::contract]
pub mod MyContract {
    #[storage]
    pub struct Storage {}
}"###;
    let content = r###"#[starknet::contract]
pub mod MyContract {
    #[storage]
    pub struct Storage {        #[substorage(v0)]
        src5: SRC5Component::Storage,
}

    use openzeppelin_introspection::src5::SRC5Component;

    component!(path: SRC5Component, storage: src5, event: SRC5Event);

    impl SRC5InternalImpl = SRC5Component::InternalImpl<ContractState>;

    #[event]
    #[derive(Drop, starknet::Event)]
    enum Event {
        #[flat]
        SRC5Event: SRC5Component::Event,
    }}"###;
    expect_success(attribute, &["SRC5"], item, content, &[]);
}

#[test]
fn test_with_initializable() {
    let attribute = "(Initializable)";
    let item = r###"#[starknet::contract]
pub mod MyContract {
    #[storage]
    pub struct Storage {}

    #[generate_trait]
    #[abi(per_item)]
    impl ExternalImpl of ExternalTrait {
        #[external(v0)]
        fn initialize(ref self: ContractState) {
            self.initializable.initialize();
        }
    }
}"###;
    let content = r###"#[starknet::contract]
pub mod MyContract {
    #[storage]
    pub struct Storage {        #[substorage(v0)]
        initializable: InitializableComponent::Storage,
}

    #[generate_trait]
    #[abi(per_item)]
    impl ExternalImpl of ExternalTrait {
        #[external(v0)]
        fn initialize(ref self: ContractState) {
            self.initializable.initialize();
        }
    }

    use openzeppelin_security::InitializableComponent;

    component!(path: InitializableComponent, storage: initializable, event: InitializableEvent);

    impl InitializableInternalImpl = InitializableComponent::InternalImpl<ContractState>;

    #[event]
    #[derive(Drop, starknet::Event)]
    enum Event {
        #[flat]
        InitializableEvent: InitializableComponent::Event,
    }}"###;
    expect_success(attribute, &["Initializable"], item, content, &[]);
}

#[test]
fn test_with_initializable_no_initialize_call() {
    let attribute = "(Initializable)";
    let item = r###"#[starknet::contract]
pub mod MyContract {
    #[storage]
    pub struct Storage {}
}"###;
    let content = r###"#[starknet::contract]
pub mod MyContract {
    #[storage]
    pub struct Storage {        #[substorage(v0)]
        initializable: InitializableComponent::Storage,
}

    use openzeppelin_security::InitializableComponent;

    component!(path: InitializableComponent, storage: initializable, event: InitializableEvent);

    impl InitializableInternalImpl = InitializableComponent::InternalImpl<ContractState>;

    #[event]
    #[derive(Drop, starknet::Event)]
    enum Event {
        #[flat]
        InitializableEvent: InitializableComponent::Event,
    }}"###;
    let warnings = [
        "It looks like the `self.initializable.initialize()` function is not used in the contract. If\nthis is intentional, you may consider removing the Initializable component.\n",
    ];
    expect_success(attribute, &["Initializable"], item, content, &warnings);
}

#[test]
fn test_with_pausable() {
    let attribute = "(Pausable)";
    let item = r###"#[starknet::contract]
pub mod MyContract {
    #[storage]
    pub struct Storage {}

    #[generate_trait]
    #[abi(per_item)]
    impl ExternalImpl of ExternalTrait {
        #[external(v0)]
        fn pause(ref self: ContractState) {
            self.pausable.pause();
        }

        #[external(v0)]
        fn unpause(ref self: ContractState) {
            self.pausable.unpause();
        }
    }
}"###;
    let content = r###"#[starknet::contract]
pub mod MyContract {
    #[storage]
    pub struct Storage {        #[substorage(v0)]
        pausable: PausableComponent::Storage,
}

    #[generate_trait]
    #[abi(per_item)]
    impl ExternalImpl of ExternalTrait {
        #[external(v0)]
        fn pause(ref self: ContractState) {
            self.pausable.pause();
        }

        #[external(v0)]
        fn unpause(ref self: ContractState) {
            self.pausable.unpause();
        }
    }

    use openzeppelin_security::PausableComponent;

    component!(path: PausableComponent, storage: pausable, event: PausableEvent);

    impl PausableInternalImpl = PausableComponent::InternalImpl<ContractState>;

    #[event]
    #[derive(Drop, starknet::Event)]
    enum Event {
        #[flat]
        PausableEvent: PausableComponent::Event,
    }}"###;
    expect_success(attribute, &["Pausable"], item, content, &[]);
}

#[test]
fn test_with_pausable_no_pause_call() {
    let attribute = "(Pausable)";
    let item = r###"#[starknet::contract]
pub mod MyContract {
    #[storage]
    pub struct Storage {}

    #[generate_trait]
    #[abi(per_item)]
    impl ExternalImpl of ExternalTrait {
        #[external(v0)]
        fn unpause(ref self: ContractState) {
            self.pausable.unpause();
        }
    }
}"###;
    let content = r###"#[starknet::contract]
pub mod MyContract {
    #[storage]
    pub struct Storage {        #[substorage(v0)]
        pausable: PausableComponent::Storage,
}

    #[generate_trait]
    #[abi(per_item)]
    impl ExternalImpl of ExternalTrait {
        #[external(v0)]
        fn unpause(ref self: ContractState) {
            self.pausable.unpause();
        }
    }

    use openzeppelin_security::PausableComponent;

    component!(path: PausableComponent, storage: pausable, event: PausableEvent);

    impl PausableInternalImpl = PausableComponent::InternalImpl<ContractState>;

    #[event]
    #[derive(Drop, starknet::Event)]
    enum Event {
        #[flat]
        PausableEvent: PausableComponent::Event,
    }}"###;
    let warnings = [
        "It looks like the `self.pausable.pause()` and `self.pausable.unpause()` functions are not used in the contract. If\nthis is intentional, you may consider removing the Pausable component.\n",
    ];
    expect_success(attribute, &["Pausable"], item, content, &warnings);
}

#[test]
fn test_with_pausable_no_unpause_call() {
    let attribute = "(Pausable)";
    let item = r###"#[starknet::contract]
pub mod MyContract {
    #[storage]
    pub struct Storage {}

    #[generate_trait]
    #[abi(per_item)]
    impl ExternalImpl of ExternalTrait {
        #[external(v0)]
        fn pause(ref self: ContractState) {
            self.pausable.pause();
        }
    }
}"###;
    let content = r###"#[starknet::contract]
pub mod MyContract {
    #[storage]
    pub struct Storage {        #[substorage(v0)]
        pausable: PausableComponent::Storage,
}

    #[generate_trait]
    #[abi(per_item)]
    impl ExternalImpl of ExternalTrait {
        #[external(v0)]
        fn pause(ref self: ContractState) {
            self.pausable.pause();
        }
    }

    use openzeppelin_security::PausableComponent;

    component!(path: PausableComponent, storage: pausable, event: PausableEvent);

    impl PausableInternalImpl = PausableComponent::InternalImpl<ContractState>;

    #[event]
    #[derive(Drop, starknet::Event)]
    enum Event {
        #[flat]
        PausableEvent: PausableComponent::Event,
    }}"###;
    let warnings = [
        "It looks like the `self.pausable.pause()` and `self.pausable.unpause()` functions are not used in the contract. If\nthis is intentional, you may consider removing the Pausable component.\n",
    ];
    expect_success(attribute, &["Pausable"], item, content, &warnings);
}

#[test]
fn test_with_pausable_no_pause_or_unpause_call() {
    let attribute = "(Pausable)";
    let item = r###"#[starknet::contract]
pub mod MyContract {
    #[storage]
    pub struct Storage {}
}"###;
    let content = r###"#[starknet::contract]
pub mod MyContract {
    #[storage]
    pub struct Storage {        #[substorage(v0)]
        pausable: PausableComponent::Storage,
}

    use openzeppelin_security::PausableComponent;

    component!(path: PausableComponent, storage: pausable, event: PausableEvent);

    impl PausableInternalImpl = PausableComponent::InternalImpl<ContractState>;

    #[event]
    #[derive(Drop, starknet::Event)]
    enum Event {
        #[flat]
        PausableEvent: PausableComponent::Event,
    }}"###;
    let warnings = [
        "It looks like the `self.pausable.pause()` and `self.pausable.unpause()` functions are not used in the contract. If\nthis is intentional, you may consider removing the Pausable component.\n",
    ];
    expect_success(attribute, &["Pausable"], item, content, &warnings);
}

#[test]
fn test_with_reentrancy_guard() {
    let attribute = "(ReentrancyGuard)";
    let item = r###"#[starknet::contract]
pub mod MyContract {
    #[storage]
    pub struct Storage {}
}"###;
    let content = r###"#[starknet::contract]
pub mod MyContract {
    #[storage]
    pub struct Storage {        #[substorage(v0)]
        reentrancyguard: ReentrancyGuardComponent::Storage,
}

    use openzeppelin_security::ReentrancyGuardComponent;

    component!(path: ReentrancyGuardComponent, storage: reentrancyguard, event: ReentrancyGuardEvent);

    impl ReentrancyGuardInternalImpl = ReentrancyGuardComponent::InternalImpl<ContractState>;

    #[event]
    #[derive(Drop, starknet::Event)]
    enum Event {
        #[flat]
        ReentrancyGuardEvent: ReentrancyGuardComponent::Event,
    }}"###;
    expect_success(attribute, &["ReentrancyGuard"], item, content, &[]);
}

#[test]
fn test_with_erc721() {
    let attribute = "(ERC721)";
    let item = r###"#[starknet::contract]
pub mod MyContract {
    use openzeppelin_token::erc721::ERC721HooksEmptyImpl;

    #[storage]
    pub struct Storage {}

    #[constructor]
    fn constructor(ref self: ContractState) {
        self.erc721.initializer("MyToken", "MTK", "");
    }
}"###;
    let content = r###"#[starknet::contract]
pub mod MyContract {
    use openzeppelin_token::erc721::ERC721HooksEmptyImpl;

    #[storage]
    pub struct Storage {        #[substorage(v0)]
        erc721: ERC721Component::Storage,
}

    #[constructor]
    fn constructor(ref self: ContractState) {
        self.erc721.initializer("MyToken", "MTK", "");
    }

    use openzeppelin_token::erc721::ERC721Component;

    component!(path: ERC721Component, storage: erc721, event: ERC721Event);

    impl ERC721InternalImpl = ERC721Component::InternalImpl<ContractState>;

    #[event]
    #[derive(Drop, starknet::Event)]
    enum Event {
        #[flat]
        ERC721Event: ERC721Component::Event,
    }}"###;
    expect_success(attribute, &["ERC721"], item, content, &[]);
}

#[test]
fn test_with_erc721_no_initializer() {
    let attribute = "(ERC721)";
    let item = r###"#[starknet::contract]
pub mod MyContract {
    use openzeppelin_token::erc721::ERC721HooksEmptyImpl;

    #[storage]
    pub struct Storage {}
}"###;
    let content = r###"#[starknet::contract]
pub mod MyContract {
    use openzeppelin_token::erc721::ERC721HooksEmptyImpl;

    #[storage]
    pub struct Storage {        #[substorage(v0)]
        erc721: ERC721Component::Storage,
}

    use openzeppelin_token::erc721::ERC721Component;

    component!(path: ERC721Component, storage: erc721, event: ERC721Event);

    impl ERC721InternalImpl = ERC721Component::InternalImpl<ContractState>;

    #[event]
    #[derive(Drop, starknet::Event)]
    enum Event {
        #[flat]
        ERC721Event: ERC721Component::Event,
    }}"###;
    let warnings = [
        "It looks like the initializers for the following components are missing:\n\nERC721\n\nThis may lead to unexpected behavior.\nWe recommend adding the corresponding initializer calls to the constructor.\n",
    ];
    expect_success(attribute, &["ERC721"], item, content, &warnings);
}

#[test]
fn test_with_erc721_no_hooks_impl() {
    let attribute = "(ERC721)";
    let item = r###"#[starknet::contract]
pub mod MyContract {
    #[storage]
    pub struct Storage {}

    #[constructor]
    fn constructor(ref self: ContractState) {
        self.erc721.initializer("MyToken", "MTK", "");
    }
}"###;
    let content = r###"#[starknet::contract]
pub mod MyContract {
    #[storage]
    pub struct Storage {        #[substorage(v0)]
        erc721: ERC721Component::Storage,
}

    #[constructor]
    fn constructor(ref self: ContractState) {
        self.erc721.initializer("MyToken", "MTK", "");
    }

    use openzeppelin_token::erc721::ERC721Component;

    component!(path: ERC721Component, storage: erc721, event: ERC721Event);

    impl ERC721InternalImpl = ERC721Component::InternalImpl<ContractState>;

    #[event]
    #[derive(Drop, starknet::Event)]
    enum Event {
        #[flat]
        ERC721Event: ERC721Component::Event,
    }}"###;
    let warnings = [
        "The ERC721 component requires an implementation of the ERC721HooksTrait in scope and\nit looks like it is missing.\n\nYou can use the ERC721HooksEmptyImpl implementation by importing it:\n\n`use openzeppelin_token::erc721::ERC721HooksEmptyImpl;`\n",
    ];
    expect_success(attribute, &["ERC721"], item, content, &warnings);
}

#[test]
fn test_with_erc1155() {
    let attribute = "(ERC1155)";
    let item = r###"#[starknet::contract]
pub mod MyContract {
    use openzeppelin_token::erc1155::ERC1155HooksEmptyImpl;

    #[storage]
    pub struct Storage {}

    #[constructor]
    fn constructor(ref self: ContractState) {
        self.erc1155.initializer("");
    }
}"###;
    let content = r###"#[starknet::contract]
pub mod MyContract {
    use openzeppelin_token::erc1155::ERC1155HooksEmptyImpl;

    #[storage]
    pub struct Storage {        #[substorage(v0)]
        erc1155: ERC1155Component::Storage,
}

    #[constructor]
    fn constructor(ref self: ContractState) {
        self.erc1155.initializer("");
    }

    use openzeppelin_token::erc1155::ERC1155Component;

    component!(path: ERC1155Component, storage: erc1155, event: ERC1155Event);

    impl ERC1155InternalImpl = ERC1155Component::InternalImpl<ContractState>;

    #[event]
    #[derive(Drop, starknet::Event)]
    enum Event {
        #[flat]
        ERC1155Event: ERC1155Component::Event,
    }}"###;
    expect_success(attribute, &["ERC1155"], item, content, &[]);
}

#[test]
fn test_with_erc1155_no_initializer() {
    let attribute = "(ERC1155)";
    let item = r###"#[starknet::contract]
pub mod MyContract {
    use openzeppelin_token::erc1155::ERC1155HooksEmptyImpl;

    #[storage]
    pub struct Storage {}
}"###;
    let content = r###"#[starknet::contract]
pub mod MyContract {
    use openzeppelin_token::erc1155::ERC1155HooksEmptyImpl;

    #[storage]
    pub struct Storage {        #[substorage(v0)]
        erc1155: ERC1155Component::Storage,
}

    use openzeppelin_token::erc1155::ERC1155Component;

    component!(path: ERC1155Component, storage: erc1155, event: ERC1155Event);

    impl ERC1155InternalImpl = ERC1155Component::InternalImpl<ContractState>;

    #[event]
    #[derive(Drop, starknet::Event)]
    enum Event {
        #[flat]
        ERC1155Event: ERC1155Component::Event,
    }}"###;
    let warnings = [
        "It looks like the initializers for the following components are missing:\n\nERC1155\n\nThis may lead to unexpected behavior.\nWe recommend adding the corresponding initializer calls to the constructor.\n",
    ];
    expect_success(attribute, &["ERC1155"], item, content, &warnings);
}

#[test]
fn test_with_erc1155_no_hooks_impl() {
    let attribute = "(ERC1155)";
    let item = r###"#[starknet::contract]
pub mod MyContract {
    #[storage]
    pub struct Storage {}

    #[constructor]
    fn constructor(ref self: ContractState) {
        self.erc1155.initializer("");
    }
}"###;
    let content = r###"#[starknet::contract]
pub mod MyContract {
    #[storage]
    pub struct Storage {        #[substorage(v0)]
        erc1155: ERC1155Component::Storage,
}

    #[constructor]
    fn constructor(ref self: ContractState) {
        self.erc1155.initializer("");
    }

    use openzeppelin_token::erc1155::ERC1155Component;

    component!(path: ERC1155Component, storage: erc1155, event: ERC1155Event);

    impl ERC1155InternalImpl = ERC1155Component::InternalImpl<ContractState>;

    #[event]
    #[derive(Drop, starknet::Event)]
    enum Event {
        #[flat]
        ERC1155Event: ERC1155Component::Event,
    }}"###;
    let warnings = [
        "The ERC1155 component requires an implementation of the ERC1155HooksTrait in scope and\nit looks like it is missing.\n\nYou can use the ERC1155HooksEmptyImpl implementation by importing it:\n\n`use openzeppelin_token::erc1155::ERC1155HooksEmptyImpl;`\n",
    ];
    expect_success(attribute, &["ERC1155"], item, content, &warnings);
}

#[test]
fn test_with_erc721_enumerable() {
    let attribute = "(ERC721Enumerable)";
    let item = r###"#[starknet::contract]
pub mod MyContract {
    #[storage]
    pub struct Storage {}

    #[constructor]
    fn constructor(ref self: ContractState) {
        self.erc721_enumerable.initializer();
    }
}"###;
    let content = r###"#[starknet::contract]
pub mod MyContract {
    #[storage]
    pub struct Storage {        #[substorage(v0)]
        erc721_enumerable: ERC721EnumerableComponent::Storage,
}

    #[constructor]
    fn constructor(ref self: ContractState) {
        self.erc721_enumerable.initializer();
    }

    use openzeppelin_token::erc721::extensions::ERC721EnumerableComponent;

    component!(path: ERC721EnumerableComponent, storage: erc721_enumerable, event: ERC721EnumerableEvent);

    impl ERC721EnumerableInternalImpl = ERC721EnumerableComponent::InternalImpl<ContractState>;

    #[event]
    #[derive(Drop, starknet::Event)]
    enum Event {
        #[flat]
        ERC721EnumerableEvent: ERC721EnumerableComponent::Event,
    }}"###;
    expect_success(attribute, &["ERC721Enumerable"], item, content, &[]);
}

#[test]
fn test_with_erc721_enumerable_no_initializer() {
    let attribute = "(ERC721Enumerable)";
    let item = r###"#[starknet::contract]
pub mod MyContract {
    #[storage]
    pub struct Storage {}
}"###;
    let content = r###"#[starknet::contract]
pub mod MyContract {
    #[storage]
    pub struct Storage {        #[substorage(v0)]
        erc721_enumerable: ERC721EnumerableComponent::Storage,
}

    use openzeppelin_token::erc721::extensions::ERC721EnumerableComponent;

    component!(path: ERC721EnumerableComponent, storage: erc721_enumerable, event: ERC721EnumerableEvent);

    impl ERC721EnumerableInternalImpl = ERC721EnumerableComponent::InternalImpl<ContractState>;

    #[event]
    #[derive(Drop, starknet::Event)]
    enum Event {
        #[flat]
        ERC721EnumerableEvent: ERC721EnumerableComponent::Event,
    }}"###;
    let warnings = [
        "It looks like the initializers for the following components are missing:\n\nERC721Enumerable\n\nThis may lead to unexpected behavior.\nWe recommend adding the corresponding initializer calls to the constructor.\n",
    ];
    expect_success(attribute, &["ERC721Enumerable"], item, content, &warnings);
}

#[test]
fn test_with_erc721_receiver() {
    let attribute = "(ERC721Receiver)";
    let item = r###"#[starknet::contract]
pub mod MyContract {
    #[storage]
    pub struct Storage {}

    #[constructor]
    fn constructor(ref self: ContractState) {
        self.erc721_receiver.initializer();
    }
}"###;
    let content = r###"#[starknet::contract]
pub mod MyContract {
    #[storage]
    pub struct Storage {        #[substorage(v0)]
        erc721_receiver: ERC721ReceiverComponent::Storage,
}

    #[constructor]
    fn constructor(ref self: ContractState) {
        self.erc721_receiver.initializer();
    }

    use openzeppelin_token::erc721::ERC721ReceiverComponent;

    component!(path: ERC721ReceiverComponent, storage: erc721_receiver, event: ERC721ReceiverEvent);

    impl ERC721ReceiverInternalImpl = ERC721ReceiverComponent::InternalImpl<ContractState>;

    #[event]
    #[derive(Drop, starknet::Event)]
    enum Event {
        #[flat]
        ERC721ReceiverEvent: ERC721ReceiverComponent::Event,
    }}"###;
    expect_success(attribute, &["ERC721Receiver"], item, content, &[]);
}

#[test]
fn test_with_erc721_receiver_no_initializer() {
    let attribute = "(ERC721Receiver)";
    let item = r###"#[starknet::contract]
pub mod MyContract {
    #[storage]
    pub struct Storage {}
}"###;
    let content = r###"#[starknet::contract]
pub mod MyContract {
    #[storage]
    pub struct Storage {        #[substorage(v0)]
        erc721_receiver: ERC721ReceiverComponent::Storage,
}

    use openzeppelin_token::erc721::ERC721ReceiverComponent;

    component!(path: ERC721ReceiverComponent, storage: erc721_receiver, event: ERC721ReceiverEvent);

    impl ERC721ReceiverInternalImpl = ERC721ReceiverComponent::InternalImpl<ContractState>;

    #[event]
    #[derive(Drop, starknet::Event)]
    enum Event {
        #[flat]
        ERC721ReceiverEvent: ERC721ReceiverComponent::Event,
    }}"###;
    let warnings = [
        "It looks like the initializers for the following components are missing:\n\nERC721Receiver\n\nThis may lead to unexpected behavior.\nWe recommend adding the corresponding initializer calls to the constructor.\n",
    ];
    expect_success(attribute, &["ERC721Receiver"], item, content, &warnings);
}

#[test]
fn test_with_erc1155_receiver() {
    let attribute = "(ERC1155Receiver)";
    let item = r###"#[starknet::contract]
pub mod MyContract {
    #[storage]
    pub struct Storage {}

    #[constructor]
    fn constructor(ref self: ContractState) {
        self.erc1155_receiver.initializer();
    }
}"###;
    let content = r###"#[starknet::contract]
pub mod MyContract {
    #[storage]
    pub struct Storage {        #[substorage(v0)]
        erc1155_receiver: ERC1155ReceiverComponent::Storage,
}

    #[constructor]
    fn constructor(ref self: ContractState) {
        self.erc1155_receiver.initializer();
    }

    use openzeppelin_token::erc1155::ERC1155ReceiverComponent;

    component!(path: ERC1155ReceiverComponent, storage: erc1155_receiver, event: ERC1155ReceiverEvent);

    impl ERC1155ReceiverInternalImpl = ERC1155ReceiverComponent::InternalImpl<ContractState>;

    #[event]
    #[derive(Drop, starknet::Event)]
    enum Event {
        #[flat]
        ERC1155ReceiverEvent: ERC1155ReceiverComponent::Event,
    }}"###;
    expect_success(attribute, &["ERC1155Receiver"], item, content, &[]);
}

#[test]
fn test_with_erc1155_receiver_no_initializer() {
    let attribute = "(ERC1155Receiver)";
    let item = r###"#[starknet::contract]
pub mod MyContract {
    #[storage]
    pub struct Storage {}
}"###;
    let content = r###"#[starknet::contract]
pub mod MyContract {
    #[storage]
    pub struct Storage {        #[substorage(v0)]
        erc1155_receiver: ERC1155ReceiverComponent::Storage,
}

    use openzeppelin_token::erc1155::ERC1155ReceiverComponent;

    component!(path: ERC1155ReceiverComponent, storage: erc1155_receiver, event: ERC1155ReceiverEvent);

    impl ERC1155ReceiverInternalImpl = ERC1155ReceiverComponent::InternalImpl<ContractState>;

    #[event]
    #[derive(Drop, starknet::Event)]
    enum Event {
        #[flat]
        ERC1155ReceiverEvent: ERC1155ReceiverComponent::Event,
    }}"###;
    let warnings = [
        "It looks like the initializers for the following components are missing:\n\nERC1155Receiver\n\nThis may lead to unexpected behavior.\nWe recommend adding the corresponding initializer calls to the constructor.\n",
    ];
    expect_success(attribute, &["ERC1155Receiver"], item, content, &warnings);
}

#[test]
fn test_with_erc2981() {
    let attribute = "(ERC2981)";
    let item = r###"#[starknet::contract]
pub mod MyContract {
    use openzeppelin_token::common::erc2981::DefaultConfig;
    use starknet::ContractAddress;

    #[storage]
    pub struct Storage {}

    #[constructor]
    fn constructor(ref self: ContractState, default_royalty_receiver: ContractAddress) {
        self.erc2981.initializer(default_royalty_receiver, 0);
    }
}"###;
    let content = r###"#[starknet::contract]
pub mod MyContract {
    use openzeppelin_token::common::erc2981::DefaultConfig;
    use starknet::ContractAddress;

    #[storage]
    pub struct Storage {        #[substorage(v0)]
        erc2981: ERC2981Component::Storage,
}

    #[constructor]
    fn constructor(ref self: ContractState, default_royalty_receiver: ContractAddress) {
        self.erc2981.initializer(default_royalty_receiver, 0);
    }

    use openzeppelin_token::common::erc2981::ERC2981Component;

    component!(path: ERC2981Component, storage: erc2981, event: ERC2981Event);

    impl ERC2981InternalImpl = ERC2981Component::InternalImpl<ContractState>;

    #[event]
    #[derive(Drop, starknet::Event)]
    enum Event {
        #[flat]
        ERC2981Event: ERC2981Component::Event,
    }}"###;
    expect_success(attribute, &["ERC2981"], item, content, &[]);
}

#[test]
fn test_with_erc2981_no_initializer() {
    let attribute = "(ERC2981)";
    let item = r###"#[starknet::contract]
pub mod MyContract {
    use openzeppelin_token::common::erc2981::DefaultConfig;

    #[storage]
    pub struct Storage {}
}"###;
    let content = r###"#[starknet::contract]
pub mod MyContract {
    use openzeppelin_token::common::erc2981::DefaultConfig;

    #[storage]
    pub struct Storage {        #[substorage(v0)]
        erc2981: ERC2981Component::Storage,
}

    use openzeppelin_token::common::erc2981::ERC2981Component;

    component!(path: ERC2981Component, storage: erc2981, event: ERC2981Event);

    impl ERC2981InternalImpl = ERC2981Component::InternalImpl<ContractState>;

    #[event]
    #[derive(Drop, starknet::Event)]
    enum Event {
        #[flat]
        ERC2981Event: ERC2981Component::Event,
    }}"###;
    let warnings = [
        "It looks like the initializers for the following components are missing:\n\nERC2981\n\nThis may lead to unexpected behavior.\nWe recommend adding the corresponding initializer calls to the constructor.\n",
    ];
    expect_success(attribute, &["ERC2981"], item, content, &warnings);
}

#[test]
fn test_with_erc2981_no_config() {
    let attribute = "(ERC2981)";
    let item = r###"#[starknet::contract]
pub mod MyContract {
    use starknet::ContractAddress;

    #[storage]
    pub struct Storage {}

    #[constructor]
    fn constructor(ref self: ContractState, default_royalty_receiver: ContractAddress) {
        self.erc2981.initializer(default_royalty_receiver, 0);
    }
}"###;
    let content = r###"#[starknet::contract]
pub mod MyContract {
    use starknet::ContractAddress;

    #[storage]
    pub struct Storage {        #[substorage(v0)]
        erc2981: ERC2981Component::Storage,
}

    #[constructor]
    fn constructor(ref self: ContractState, default_royalty_receiver: ContractAddress) {
        self.erc2981.initializer(default_royalty_receiver, 0);
    }

    use openzeppelin_token::common::erc2981::ERC2981Component;

    component!(path: ERC2981Component, storage: erc2981, event: ERC2981Event);

    impl ERC2981InternalImpl = ERC2981Component::InternalImpl<ContractState>;

    #[event]
    #[derive(Drop, starknet::Event)]
    enum Event {
        #[flat]
        ERC2981Event: ERC2981Component::Event,
    }}"###;
    let warnings = [
        "The ERC2981 component requires an ImmutableConfig implementation in scope and\nit looks like it is missing.\n\nYou can use the default implementation by importing it:\n\n`use openzeppelin_token::common::erc2981::DefaultConfig;`\n",
    ];
    expect_success(attribute, &["ERC2981"], item, content, &warnings);
}

#[test]
fn test_with_erc2981_no_initializer_no_config() {
    let attribute = "(ERC2981)";
    let item = r###"#[starknet::contract]
pub mod MyContract {
    use starknet::ContractAddress;

    #[storage]
    pub struct Storage {}

    #[constructor]
    fn constructor(ref self: ContractState, default_royalty_receiver: ContractAddress) {
    }
}"###;
    let content = r###"#[starknet::contract]
pub mod MyContract {
    use starknet::ContractAddress;

    #[storage]
    pub struct Storage {        #[substorage(v0)]
        erc2981: ERC2981Component::Storage,
}

    #[constructor]
    fn constructor(ref self: ContractState, default_royalty_receiver: ContractAddress) {
    }

    use openzeppelin_token::common::erc2981::ERC2981Component;

    component!(path: ERC2981Component, storage: erc2981, event: ERC2981Event);

    impl ERC2981InternalImpl = ERC2981Component::InternalImpl<ContractState>;

    #[event]
    #[derive(Drop, starknet::Event)]
    enum Event {
        #[flat]
        ERC2981Event: ERC2981Component::Event,
    }}"###;
    let warnings = [
        "It looks like the initializers for the following components are missing:\n\nERC2981\n\nThis may lead to unexpected behavior.\nWe recommend adding the corresponding initializer calls to the constructor.\n",
        "The ERC2981 component requires an ImmutableConfig implementation in scope and\nit looks like it is missing.\n\nYou can use the default implementation by importing it:\n\n`use openzeppelin_token::common::erc2981::DefaultConfig;`\n",
    ];
    expect_success(attribute, &["ERC2981"], item, content, &warnings);
}

#[test]
fn test_with_upgradeable() {
    let attribute = "(Upgradeable)";
    let item = r###"#[starknet::contract]
pub mod MyContract {
    #[storage]
    pub struct Storage {}

    #[abi(embed_v0)]
    impl UpgradeableImpl of IUpgradeable<ContractState> {
        fn upgrade(ref self: ContractState, new_class_hash: ClassHash) {
            self.upgradeable.upgrade(new_class_hash);
        }
    }
}"###;
    let content = r###"#[starknet::contract]
pub mod MyContract {
    #[storage]
    pub struct Storage {        #[substorage(v0)]
        upgradeable: UpgradeableComponent::Storage,
}

    #[abi(embed_v0)]
    impl UpgradeableImpl of IUpgradeable<ContractState> {
        fn upgrade(ref self: ContractState, new_class_hash: ClassHash) {
            self.upgradeable.upgrade(new_class_hash);
        }
    }

    use openzeppelin_upgrades::UpgradeableComponent;

    component!(path: UpgradeableComponent, storage: upgradeable, event: UpgradeableEvent);

    impl UpgradeableInternalImpl = UpgradeableComponent::InternalImpl<ContractState>;

    #[event]
    #[derive(Drop, starknet::Event)]
    enum Event {
        #[flat]
        UpgradeableEvent: UpgradeableComponent::Event,
    }}"###;
    expect_success(attribute, &["Upgradeable"], item, content, &[]);
}

#[test]
fn test_with_upgradeable_no_upgrade_call() {
    let attribute = "(Upgradeable)";
    let item = r###"#[starknet::contract]
pub mod MyContract {
    #[storage]
    pub struct Storage {}

    #[abi(embed_v0)]
    impl UpgradeableImpl of IUpgradeable<ContractState> {
        fn upgrade(ref self: ContractState, new_class_hash: ClassHash) {
        }
    }
}"###;
    let content = r###"#[starknet::contract]
pub mod MyContract {
    #[storage]
    pub struct Storage {        #[substorage(v0)]
        upgradeable: UpgradeableComponent::Storage,
}

    #[abi(embed_v0)]
    impl UpgradeableImpl of IUpgradeable<ContractState> {
        fn upgrade(ref self: ContractState, new_class_hash: ClassHash) {
        }
    }

    use openzeppelin_upgrades::UpgradeableComponent;

    component!(path: UpgradeableComponent, storage: upgradeable, event: UpgradeableEvent);

    impl UpgradeableInternalImpl = UpgradeableComponent::InternalImpl<ContractState>;

    #[event]
    #[derive(Drop, starknet::Event)]
    enum Event {
        #[flat]
        UpgradeableEvent: UpgradeableComponent::Event,
    }}"###;
    let warnings = [
        "It looks like the `self.upgradeable.upgrade(new_class_hash)` function is not used in the contract. If\nthis is intentional, you may consider removing the Upgradeable component.\n",
    ];
    expect_success(attribute, &["Upgradeable"], item, content, &warnings);
}

#[test]
fn test_with_nonces() {
    let attribute = "(Nonces)";
    let item = r###"#[starknet::contract]
pub mod MyContract {
    #[storage]
    pub struct Storage {}
}"###;
    let content = r###"#[starknet::contract]
pub mod MyContract {
    #[storage]
    pub struct Storage {        #[substorage(v0)]
        nonces: NoncesComponent::Storage,
}

    use openzeppelin_utils::nonces::NoncesComponent;

    component!(path: NoncesComponent, storage: nonces, event: NoncesEvent);

    impl NoncesInternalImpl = NoncesComponent::InternalImpl<ContractState>;

    #[event]
    #[derive(Drop, starknet::Event)]
    enum Event {
        #[flat]
        NoncesEvent: NoncesComponent::Event,
    }}"###;
    expect_success(attribute, &["Nonces"], item, content, &[]);
}

#[test]
fn test_with_multisig() {
    let attribute = "(Multisig)";
    let item = r###"#[starknet::contract]
pub mod MyContract {
    use starknet::ContractAddress;

    #[storage]
    pub struct Storage {}

    #[constructor]
    fn constructor(ref self: ContractState, quorum: u32, signers: Span<ContractAddress>) {
        self.multisig.initializer(quorum, signers);
    }
}"###;
    let content = r###"#[starknet::contract]
pub mod MyContract {
    use starknet::ContractAddress;

    #[storage]
    pub struct Storage {        #[substorage(v0)]
        multisig: MultisigComponent::Storage,
}

    #[constructor]
    fn constructor(ref self: ContractState, quorum: u32, signers: Span<ContractAddress>) {
        self.multisig.initializer(quorum, signers);
    }

    use openzeppelin_governance::multisig::MultisigComponent;

    component!(path: MultisigComponent, storage: multisig, event: MultisigEvent);

    impl MultisigInternalImpl = MultisigComponent::InternalImpl<ContractState>;

    #[event]
    #[derive(Drop, starknet::Event)]
    enum Event {
        #[flat]
        MultisigEvent: MultisigComponent::Event,
    }}"###;
    expect_success(attribute, &["Multisig"], item, content, &[]);
}

#[test]
fn test_with_multisig_no_initializer() {
    let attribute = "(Multisig)";
    let item = r###"#[starknet::contract]
pub mod MyContract {
    #[storage]
    pub struct Storage {}
}"###;
    let content = r###"#[starknet::contract]
pub mod MyContract {
    #[storage]
    pub struct Storage {        #[substorage(v0)]
        multisig: MultisigComponent::Storage,
}

    use openzeppelin_governance::multisig::MultisigComponent;

    component!(path: MultisigComponent, storage: multisig, event: MultisigEvent);

    impl MultisigInternalImpl = MultisigComponent::InternalImpl<ContractState>;

    #[event]
    #[derive(Drop, starknet::Event)]
    enum Event {
        #[flat]
        MultisigEvent: MultisigComponent::Event,
    }}"###;
    let warnings = [
        "It looks like the initializers for the following components are missing:\n\nMultisig\n\nThis may lead to unexpected behavior.\nWe recommend adding the corresponding initializer calls to the constructor.\n",
    ];
    expect_success(attribute, &["Multisig"], item, content, &warnings);
}

#[test]
fn test_with_timelock_controller() {
    let attribute = "(TimelockController)";
    let item = r###"#[starknet::contract]
pub mod MyContract {
    use starknet::ContractAddress;

    #[storage]
    pub struct Storage {}

    #[constructor]
    fn constructor(
        ref self: ContractState,
        min_delay: u64,
        proposers: Span<ContractAddress>,
        executors: Span<ContractAddress>,
        admin: ContractAddress,
    ) {
        self.timelock_controller.initializer(min_delay, proposers, executors, admin);
    }
}"###;
    let content = r###"#[starknet::contract]
pub mod MyContract {
    use starknet::ContractAddress;

    #[storage]
    pub struct Storage {        #[substorage(v0)]
        timelock_controller: TimelockControllerComponent::Storage,
}

    #[constructor]
    fn constructor(
        ref self: ContractState,
        min_delay: u64,
        proposers: Span<ContractAddress>,
        executors: Span<ContractAddress>,
        admin: ContractAddress,
    ) {
        self.timelock_controller.initializer(min_delay, proposers, executors, admin);
    }

    use openzeppelin_governance::timelock::TimelockControllerComponent;

    component!(path: TimelockControllerComponent, storage: timelock_controller, event: TimelockControllerEvent);

    impl TimelockControllerInternalImpl = TimelockControllerComponent::InternalImpl<ContractState>;

    #[event]
    #[derive(Drop, starknet::Event)]
    enum Event {
        #[flat]
        TimelockControllerEvent: TimelockControllerComponent::Event,
    }}"###;
    expect_success(attribute, &["TimelockController"], item, content, &[]);
}

#[test]
fn test_with_timelock_controller_no_initializer() {
    let attribute = "(TimelockController)";
    let item = r###"#[starknet::contract]
pub mod MyContract {
    #[storage]
    pub struct Storage {}
}"###;
    let content = r###"#[starknet::contract]
pub mod MyContract {
    #[storage]
    pub struct Storage {        #[substorage(v0)]
        timelock_controller: TimelockControllerComponent::Storage,
}

    use openzeppelin_governance::timelock::TimelockControllerComponent;

    component!(path: TimelockControllerComponent, storage: timelock_controller, event: TimelockControllerEvent);

    impl TimelockControllerInternalImpl = TimelockControllerComponent::InternalImpl<ContractState>;

    #[event]
    #[derive(Drop, starknet::Event)]
    enum Event {
        #[flat]
        TimelockControllerEvent: TimelockControllerComponent::Event,
    }}"###;
    let warnings = [
        "It looks like the initializers for the following components are missing:\n\nTimelockController\n\nThis may lead to unexpected behavior.\nWe recommend adding the corresponding initializer calls to the constructor.\n",
    ];
    expect_success(attribute, &["TimelockController"], item, content, &warnings);
}

#[test]
fn test_with_votes() {
    let attribute = "(Votes)";
    let item = r###"#[starknet::contract]
pub mod MyContract {
    use openzeppelin_utils::cryptography::snip12::SNIP12Metadata;

    #[storage]
    pub struct Storage {}

    // Required for hash computation.
    pub impl SNIP12MetadataImpl of SNIP12Metadata {
        fn name() -> felt252 {
            "DAPP_NAME" // quote! fails to recognize short strings
        }
        fn version() -> felt252 {
            "DAPP_VERSION" // quote! fails to recognize short strings
        }
    }
}"###;
    let content = r###"#[starknet::contract]
pub mod MyContract {
    use openzeppelin_utils::cryptography::snip12::SNIP12Metadata;

    #[storage]
    pub struct Storage {        #[substorage(v0)]
        votes: VotesComponent::Storage,
}

    // Required for hash computation.
    pub impl SNIP12MetadataImpl of SNIP12Metadata {
        fn name() -> felt252 {
            "DAPP_NAME" // quote! fails to recognize short strings
        }
        fn version() -> felt252 {
            "DAPP_VERSION" // quote! fails to recognize short strings
        }
    }

    use openzeppelin_governance::votes::VotesComponent;

    component!(path: VotesComponent, storage: votes, event: VotesEvent);

    impl VotesInternalImpl = VotesComponent::InternalImpl<ContractState>;

    #[event]
    #[derive(Drop, starknet::Event)]
    enum Event {
        #[flat]
        VotesEvent: VotesComponent::Event,
    }}"###;
    expect_success(attribute, &["Votes"], item, content, &[]);
}

#[test]
fn test_with_votes_no_metadata() {
    let attribute = "(Votes)";
    let item = r###"#[starknet::contract]
pub mod MyContract {
    #[storage]
    pub struct Storage {}
}"###;
    let content = r###"#[starknet::contract]
pub mod MyContract {
    #[storage]
    pub struct Storage {        #[substorage(v0)]
        votes: VotesComponent::Storage,
}

    use openzeppelin_governance::votes::VotesComponent;

    component!(path: VotesComponent, storage: votes, event: VotesEvent);

    impl VotesInternalImpl = VotesComponent::InternalImpl<ContractState>;

    #[event]
    #[derive(Drop, starknet::Event)]
    enum Event {
        #[flat]
        VotesEvent: VotesComponent::Event,
    }}"###;
    let warnings = [
        "The Votes component requires an implementation of the SNIP12Metadata trait in scope and\nit looks like it is missing.\n",
    ];
    expect_success(attribute, &["Votes"], item, content, &warnings);
}

#[test]
fn test_with_event_struct() {
    let attribute = "(Ownable)";
    let item = r###"#[starknet::contract]
pub mod Owned {
    use starknet::ContractAddress;

    #[storage]
    pub struct Storage {}

    #[event]
    #[derive(Drop, starknet::Event)]
    enum Event {
        Transfer: Transfer,
    }

    // Emitted when tokens are moved from address `from` to address `to`.
    #[derive(Drop, starknet::Event)]
    pub struct Transfer {
        #[key]
        pub from: ContractAddress,
        #[key]
        pub to: ContractAddress,
        pub value: u256,
    }

    #[constructor]
    fn constructor(ref self: ContractState, owner: ContractAddress) {
        self.ownable.initializer(owner);
    }
}"###;
    let content = r###"#[starknet::contract]
pub mod Owned {
    use starknet::ContractAddress;

    #[storage]
    pub struct Storage {        #[substorage(v0)]
        ownable: OwnableComponent::Storage,
}

    #[event]
    #[derive(Drop, starknet::Event)]
    enum Event {
        #[flat]
        OwnableEvent: OwnableComponent::Event,
        Transfer: Transfer,
    }

    // Emitted when tokens are moved from address `from` to address `to`.
    #[derive(Drop, starknet::Event)]
    pub struct Transfer {
        #[key]
        pub from: ContractAddress,
        #[key]
        pub to: ContractAddress,
        pub value: u256,
    }

    #[constructor]
    fn constructor(ref self: ContractState, owner: ContractAddress) {
        self.ownable.initializer(owner);
    }

    use openzeppelin_access::ownable::OwnableComponent;

    component!(path: OwnableComponent, storage: ownable, event: OwnableEvent);

    impl OwnableInternalImpl = OwnableComponent::InternalImpl<ContractState>;
}"###;
    expect_success(attribute, &["Ownable"], item, content, &[]);
}

#[test]
fn test_with_erc4626() {
    let attribute = "(ERC20, ERC4626)";
    let item = r###"#[starknet::contract]
pub mod ERC4626Mock {
    use openzeppelin_token::erc20::extensions::erc4626::{
        DefaultConfig, ERC4626DefaultNoLimits, ERC4626DefaultNoFees,
        ERC4626EmptyHooks, ERC4626SelfAssetsManagement,
    };
    use openzeppelin_token::erc20::ERC20HooksEmptyImpl;
    use starknet::ContractAddress;

    // ERC4626
    #[abi(embed_v0)]
    impl ERC4626ComponentImpl = ERC4626Component::ERC4626Impl<ContractState>;
    // ERC4626MetadataImpl is a custom impl of IERC20Metadata
    #[abi(embed_v0)]
    impl ERC4626MetadataImpl = ERC4626Component::ERC4626MetadataImpl<ContractState>;

    // ERC20
    #[abi(embed_v0)]
    impl ERC20Impl = ERC20Component::ERC20Impl<ContractState>;
    #[abi(embed_v0)]
    impl ERC20CamelOnlyImpl = ERC20Component::ERC20CamelOnlyImpl<ContractState>;

    #[storage]
    pub struct Storage {}

    #[constructor]
    fn constructor(
        ref self: ContractState,
        name: ByteArray,
        symbol: ByteArray,
        underlying_asset: ContractAddress,
        initial_supply: u256,
        recipient: ContractAddress,
    ) {
        self.erc20.initializer(name, symbol);
        self.erc20.mint(recipient, initial_supply);
        self.erc4626.initializer(underlying_asset);
    }
}"###;
    expect_failure(attribute, item, "Invalid component: ERC4626\n\nAllowed components are:\nAccessControl, Ownable, Vesting, SRC5, Initializable, Pausable, ReentrancyGuard, ERC20, ERC721, ERC721Enumerable, ERC721Receiver, ERC1155, ERC1155Receiver, ERC2981, Upgradeable, Nonces, Multisig, TimelockController, Votes\n");
}

#[test]
fn test_with_governor() {
    let attribute = "(Governor)";
    let item = r###"#[starknet::contract]
pub mod MyContract {
    use openzeppelin_governance::governor::DefaultConfig;

    #[storage]
    pub struct Storage {}

    #[constructor]
    fn constructor(ref self: ContractState) {
        self.governor.initializer();
    }
}"###;
    expect_failure(attribute, item, "Invalid component: Governor\n\nAllowed components are:\nAccessControl, Ownable, Vesting, SRC5, Initializable, Pausable, ReentrancyGuard, ERC20, ERC721, ERC721Enumerable, ERC721Receiver, ERC1155, ERC1155Receiver, ERC2981, Upgradeable, Nonces, Multisig, TimelockController, Votes\n");
}

#[test]
fn test_with_governor_no_initializer() {
    let attribute = "(Governor)";
    let item = r###"#[starknet::contract]
pub mod MyContract {
    use openzeppelin_governance::governor::DefaultConfig;

    #[storage]
    pub struct Storage {}

    #[constructor]
    fn constructor(ref self: ContractState) {
    }
}"###;
    expect_failure(attribute, item, "Invalid component: Governor\n\nAllowed components are:\nAccessControl, Ownable, Vesting, SRC5, Initializable, Pausable, ReentrancyGuard, ERC20, ERC721, ERC721Enumerable, ERC721Receiver, ERC1155, ERC1155Receiver, ERC2981, Upgradeable, Nonces, Multisig, TimelockController, Votes\n");
}

#[test]
fn test_with_governor_no_config() {
    let attribute = "(Governor)";
    let item = r###"#[starknet::contract]
pub mod MyContract {
    #[storage]
    pub struct Storage {}

    #[constructor]
    fn constructor(ref self: ContractState) {
        self.governor.initializer();
    }
}"###;
    expect_failure(attribute, item, "Invalid component: Governor\n\nAllowed components are:\nAccessControl, Ownable, Vesting, SRC5, Initializable, Pausable, ReentrancyGuard, ERC20, ERC721, ERC721Enumerable, ERC721Receiver, ERC1155, ERC1155Receiver, ERC2981, Upgradeable, Nonces, Multisig, TimelockController, Votes\n");
}

#[test]
fn test_with_governor_core_execution() {
    let attribute = "(GovernorCoreExecution)";
    let item = r###"#[starknet::contract]
pub mod MyContract {
    #[storage]
    pub struct Storage {}
}"###;
    expect_failure(attribute, item, "Invalid component: GovernorCoreExecution\n\nAllowed components are:\nAccessControl, Ownable, Vesting, SRC5, Initializable, Pausable, ReentrancyGuard, ERC20, ERC721, ERC721Enumerable, ERC721Receiver, ERC1155, ERC1155Receiver, ERC2981, Upgradeable, Nonces, Multisig, TimelockController, Votes\n");
}

#[test]
fn test_with_governor_counting_simple() {
    let attribute = "(GovernorCountingSimple)";
    let item = r###"#[starknet::contract]
pub mod MyContract {
    #[storage]
    pub struct Storage {}
}"###;
    expect_failure(attribute, item, "Invalid component: GovernorCountingSimple\n\nAllowed components are:\nAccessControl, Ownable, Vesting, SRC5, Initializable, Pausable, ReentrancyGuard, ERC20, ERC721, ERC721Enumerable, ERC721Receiver, ERC1155, ERC1155Receiver, ERC2981, Upgradeable, Nonces, Multisig, TimelockController, Votes\n");
}

#[test]
fn test_with_governor_settings() {
    let attribute = "(GovernorSettings)";
    let item = r###"#[starknet::contract]
pub mod MyContract {
    pub const VOTING_DELAY: u64 = 86400; // 1 day
    pub const VOTING_PERIOD: u64 = 604800; // 1 week
    pub const PROPOSAL_THRESHOLD: u256 = 10;

    #[storage]
    pub struct Storage {}

    #[constructor]
    fn constructor(ref self: ContractState) {
        self.governor_settings.initializer(VOTING_DELAY, VOTING_PERIOD, PROPOSAL_THRESHOLD);
    }
}"###;
    expect_failure(attribute, item, "Invalid component: GovernorSettings\n\nAllowed components are:\nAccessControl, Ownable, Vesting, SRC5, Initializable, Pausable, ReentrancyGuard, ERC20, ERC721, ERC721Enumerable, ERC721Receiver, ERC1155, ERC1155Receiver, ERC2981, Upgradeable, Nonces, Multisig, TimelockController, Votes\n");
}

#[test]
fn test_with_governor_settings_no_initializer() {
    let attribute = "(GovernorSettings)";
    let item = r###"#[starknet::contract]
pub mod MyContract {
    #[storage]
    pub struct Storage {}

    #[constructor]
    fn constructor(ref self: ContractState) {
    }
}"###;
    expect_failure(attribute, item, "Invalid component: GovernorSettings\n\nAllowed components are:\nAccessControl, Ownable, Vesting, SRC5, Initializable, Pausable, ReentrancyGuard, ERC20, ERC721, ERC721Enumerable, ERC721Receiver, ERC1155, ERC1155Receiver, ERC2981, Upgradeable, Nonces, Multisig, TimelockController, Votes\n");
}

#[test]
fn test_with_governor_timelock_execution() {
    let attribute = "(GovernorTimelockExecution)";
    let item = r###"#[starknet::contract]
pub mod MyContract {
    use starknet::ContractAddress;

    #[storage]
    pub struct Storage {}

    #[constructor]
    fn constructor(ref self: ContractState, timelock_controller: ContractAddress) {
        self.governor_timelock_execution.initializer(timelock_controller);
    }
}"###;
    expect_failure(attribute, item, "Invalid component: GovernorTimelockExecution\n\nAllowed components are:\nAccessControl, Ownable, Vesting, SRC5, Initializable, Pausable, ReentrancyGuard, ERC20, ERC721, ERC721Enumerable, ERC721Receiver, ERC1155, ERC1155Receiver, ERC2981, Upgradeable, Nonces, Multisig, TimelockController, Votes\n");
}

#[test]
fn test_with_governor_timelock_execution_no_initializer() {
    let attribute = "(GovernorTimelockExecution)";
    let item = r###"#[starknet::contract]
pub mod MyContract {
    #[storage]
    pub struct Storage {}

    #[constructor]
    fn constructor(ref self: ContractState) {
    }
}"###;
    expect_failure(attribute, item, "Invalid component: GovernorTimelockExecution\n\nAllowed components are:\nAccessControl, Ownable, Vesting, SRC5, Initializable, Pausable, ReentrancyGuard, ERC20, ERC721, ERC721Enumerable, ERC721Receiver, ERC1155, ERC1155Receiver, ERC2981, Upgradeable, Nonces, Multisig, TimelockController, Votes\n");
}

#[test]
fn test_with_governor_votes_quorum_fraction() {
    let attribute = "(GovernorVotesQuorumFraction)";
    let item = r###"#[starknet::contract]
pub mod MyContract {
    use starknet::ContractAddress;

    pub const QUORUM_NUMERATOR: u256 = 600; // 60%

    #[storage]
    pub struct Storage {}

    #[constructor]
    fn constructor(ref self: ContractState, votes_token: ContractAddress) {
        self.governor_votes_quorum_fraction.initializer(votes_token, QUORUM_NUMERATOR);
    }
}"###;
    expect_failure(attribute, item, "Invalid component: GovernorVotesQuorumFraction\n\nAllowed components are:\nAccessControl, Ownable, Vesting, SRC5, Initializable, Pausable, ReentrancyGuard, ERC20, ERC721, ERC721Enumerable, ERC721Receiver, ERC1155, ERC1155Receiver, ERC2981, Upgradeable, Nonces, Multisig, TimelockController, Votes\n");
}

#[test]
fn test_with_governor_votes_quorum_fraction_no_initializer() {
    let attribute = "(GovernorVotesQuorumFraction)";
    let item = r###"#[starknet::contract]
pub mod MyContract {
    #[storage]
    pub struct Storage {}
}"###;
    expect_failure(attribute, item, "Invalid component: GovernorVotesQuorumFraction\n\nAllowed components are:\nAccessControl, Ownable, Vesting, SRC5, Initializable, Pausable, ReentrancyGuard, ERC20, ERC721, ERC721Enumerable, ERC721Receiver, ERC1155, ERC1155Receiver, ERC2981, Upgradeable, Nonces, Multisig, TimelockController, Votes\n");
}

#[test]
fn test_with_governor_votes() {
    let attribute = "(GovernorVotes)";
    let item = r###"#[starknet::contract]
pub mod MyContract {
    use starknet::ContractAddress;

    #[storage]
    pub struct Storage {}

    #[constructor]
    fn constructor(ref self: ContractState, votes_token: ContractAddress) {
        self.governor_votes.initializer(votes_token);
    }
}"###;
    expect_failure(attribute, item, "Invalid component: GovernorVotes\n\nAllowed components are:\nAccessControl, Ownable, Vesting, SRC5, Initializable, Pausable, ReentrancyGuard, ERC20, ERC721, ERC721Enumerable, ERC721Receiver, ERC1155, ERC1155Receiver, ERC2981, Upgradeable, Nonces, Multisig, TimelockController, Votes\n");
}

#[test]
fn test_with_governor_votes_no_initializer() {
    let attribute = "(GovernorVotes)";
    let item = r###"#[starknet::contract]
pub mod MyContract {
    #[storage]
    pub struct Storage {}
}"###;
    expect_failure(attribute, item, "Invalid component: GovernorVotes\n\nAllowed components are:\nAccessControl, Ownable, Vesting, SRC5, Initializable, Pausable, ReentrancyGuard, ERC20, ERC721, ERC721Enumerable, ERC721Receiver, ERC1155, ERC1155Receiver, ERC2981, Upgradeable, Nonces, Multisig, TimelockController, Votes\n");
}

#[test]
fn test_with_governor_integration() {
    let attribute = "(Governor, GovernorVotes, GovernorSettings, GovernorCountingSimple, GovernorTimelockExecution, SRC5)";
    let item = r###"#[starknet::contract]
pub mod GovernorTimelockedMock {
    use openzeppelin_governance::governor::DefaultConfig;
    use openzeppelin_utils::cryptography::snip12::SNIP12Metadata;
    use starknet::ContractAddress;

    pub const VOTING_DELAY: u64 = 86400; // 1 day
    pub const VOTING_PERIOD: u64 = 604800; // 1 week
    pub const PROPOSAL_THRESHOLD: u256 = 10;
    pub const QUORUM: u256 = 100_000_000;

    // Governor
    #[abi(embed_v0)]
    impl GovernorImpl = GovernorComponent::GovernorImpl<ContractState>;

    // Extensions external
    #[abi(embed_v0)]
    impl VotesTokenImpl = GovernorVotesComponent::VotesTokenImpl<ContractState>;
    #[abi(embed_v0)]
    impl GovernorSettingsAdminImpl =
        GovernorSettingsComponent::GovernorSettingsAdminImpl<ContractState>;
    #[abi(embed_v0)]
    impl TimelockedImpl =
        GovernorTimelockExecutionComponent::TimelockedImpl<ContractState>;

    // SRC5
    #[abi(embed_v0)]
    impl SRC5Impl = SRC5Component::SRC5Impl<ContractState>;

    #[storage]
    struct Storage {
    }

    #[constructor]
    fn constructor(
        ref self: ContractState, votes_token: ContractAddress, timelock_controller: ContractAddress,
    ) {
        self.governor.initializer();
        self.governor_votes.initializer(votes_token);
        self.governor_settings.initializer(VOTING_DELAY, VOTING_PERIOD, PROPOSAL_THRESHOLD);
        self.governor_timelock_execution.initializer(timelock_controller);
    }

    //
    // SNIP12 Metadata
    //

    // This should be 'DAPP_NAME' and 'DAPP_VERSION' but quote! fails to recognize short strings
    pub impl SNIP12MetadataImpl of SNIP12Metadata {
        fn name() -> felt252 {
            "DAPP_NAME" // quote! fails to recognize short strings
        }

        fn version() -> felt252 {
            "DAPP_VERSION" // quote! fails to recognize short strings
        }
    }

    //
    // Locally implemented extensions
    //

    impl GovernorQuorum of GovernorComponent::GovernorQuorumTrait<ContractState> {
        fn quorum(self: @GovernorComponent::ComponentState<ContractState>, timepoint: u64) -> u256 {
            QUORUM
        }
    }
}"###;
    expect_failure(attribute, item, "Invalid component: Governor\n\nAllowed components are:\nAccessControl, Ownable, Vesting, SRC5, Initializable, Pausable, ReentrancyGuard, ERC20, ERC721, ERC721Enumerable, ERC721Receiver, ERC1155, ERC1155Receiver, ERC2981, Upgradeable, Nonces, Multisig, TimelockController, Votes\n");
}
