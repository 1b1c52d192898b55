//! Messages of the warnings that accompany an installation of components.

use vstd::prelude::*;

verus! {

/// The message for components whose initializers are not called.
pub open spec fn initializers_missing(components: Seq<char>) -> Seq<char> {
    "It looks like the initializers for the following components are missing:\n\n"@ + components
        + "\n\nThis may lead to unexpected behavior.\nWe recommend adding the corresponding initializer calls to the constructor.\n"@
}

/// The message for a component that lacks its immutable config.
pub open spec fn immutable_config_missing(
    short_name: Seq<char>,
    default_config_path: Seq<char>,
) -> Seq<char> {
    "The "@ + short_name
        + " component requires an ImmutableConfig implementation in scope and\nit looks like it is missing.\n\nYou can use the default implementation by importing it:\n\n`use "@
        + default_config_path + ";`\n"@
}

/// The constructor does not call the initializers of the listed components.
#[allow(non_snake_case)]
pub fn INITIALIZERS_MISSING(components: &str) -> (r: String)
    ensures
        r@ == initializers_missing(components@),
{
    let mut out = String::from_str(
        "It looks like the initializers for the following components are missing:\n\n",
    );
    out.append(components);
    out.append(
        "\n\nThis may lead to unexpected behavior.\nWe recommend adding the corresponding initializer calls to the constructor.\n",
    );
    out
}

/// The component needs an `ImmutableConfig` and none is in scope.
#[allow(non_snake_case)]
pub fn IMMUTABLE_CONFIG_MISSING(short_name: &str, default_config_path: &str) -> (r: String)
    ensures
        r@ == immutable_config_missing(short_name@, default_config_path@),
{
    let mut out = String::from_str("The ");
    out.append(short_name);
    out.append(
        " component requires an ImmutableConfig implementation in scope and\nit looks like it is missing.\n\nYou can use the default implementation by importing it:\n\n`use ",
    );
    out.append(default_config_path);
    out.append(";`\n");
    out
}

/// The Vesting component has no vesting schedule in scope.
pub const VESTING_SCHEDULE_IMPL_MISSING: &'static str =
    "The Vesting component requires an implementation of the VestingScheduleTrait in scope and\nit looks like it is missing.\n\nYou can use the LinearVestingSchedule implementation by importing it:\n\n`use openzeppelin_finance::vesting::LinearVestingSchedule;`\n";

/// The Initializable component is never initialized.
pub const INITIALIZABLE_NOT_USED: &'static str =
    "It looks like the `self.initializable.initialize()` function is not used in the contract. If\nthis is intentional, you may consider removing the Initializable component.\n";

/// The Pausable component is never paused or never unpaused.
pub const PAUSABLE_NOT_USED: &'static str =
    "It looks like the `self.pausable.pause()` and `self.pausable.unpause()` functions are not used in the contract. If\nthis is intentional, you may consider removing the Pausable component.\n";

/// The ERC20 component has no hooks in scope.
pub const ERC20_HOOKS_IMPL_MISSING: &'static str =
    "The ERC20 component requires an implementation of the ERC20HooksTrait in scope and\nit looks like it is missing.\n\nYou can use the ERC20HooksEmptyImpl implementation by importing it:\n\n`use openzeppelin_token::erc20::ERC20HooksEmptyImpl;`\n";

/// The ERC721 component has no hooks in scope.
pub const ERC721_HOOKS_IMPL_MISSING: &'static str =
    "The ERC721 component requires an implementation of the ERC721HooksTrait in scope and\nit looks like it is missing.\n\nYou can use the ERC721HooksEmptyImpl implementation by importing it:\n\n`use openzeppelin_token::erc721::ERC721HooksEmptyImpl;`\n";

/// The ERC1155 component has no hooks in scope.
pub const ERC1155_HOOKS_IMPL_MISSING: &'static str =
    "The ERC1155 component requires an implementation of the ERC1155HooksTrait in scope and\nit looks like it is missing.\n\nYou can use the ERC1155HooksEmptyImpl implementation by importing it:\n\n`use openzeppelin_token::erc1155::ERC1155HooksEmptyImpl;`\n";

/// The Upgradeable component is never used to upgrade.
pub const UPGRADEABLE_NOT_USED: &'static str =
    "It looks like the `self.upgradeable.upgrade(new_class_hash)` function is not used in the contract. If\nthis is intentional, you may consider removing the Upgradeable component.\n";

/// The Votes component has no SNIP-12 metadata in scope.
pub const SNIP12_METADATA_IMPL_MISSING: &'static str =
    "The Votes component requires an implementation of the SNIP12Metadata trait in scope and\nit looks like it is missing.\n";

/// The ERC4626 component has no hooks in scope.
pub const ERC4626_HOOKS_IMPL_MISSING: &'static str =
    "The ERC4626 component requires an implementation of the ERC4626HooksTrait in scope and\nit looks like it is missing.\n\nYou can use the ERC4626EmptyHooks implementation by importing it:\n\n`use openzeppelin_token::erc20::extensions::erc4626::ERC4626EmptyHooks;`\n";

/// The ERC4626 component has no fee configuration in scope.
pub const ERC4626_FEE_CONFIG_IMPL_MISSING: &'static str =
    "The ERC4626 component requires an implementation of the FeeConfigTrait in scope and\nit looks like it is missing.\n\nYou can use the ERC4626DefaultNoFees implementation by importing it:\n\n`use openzeppelin_token::erc20::extensions::erc4626::ERC4626DefaultNoFees;`\n";

/// The ERC4626 component has no limit configuration in scope.
pub const ERC4626_LIMIT_CONFIG_IMPL_MISSING: &'static str =
    "The ERC4626 component requires an implementation of the LimitConfigTrait in scope and\nit looks like it is missing.\n\nYou can use the ERC4626DefaultNoLimits implementation by importing it:\n\n`use openzeppelin_token::erc20::extensions::erc4626::ERC4626DefaultNoLimits;`\n";

/// The ERC4626 component has no assets management in scope.
pub const ERC4626_ASSETS_MANAGEMENT_IMPL_MISSING: &'static str =
    "The ERC4626 component requires an implementation of the AssetsManagementTrait in scope and\nit looks like it is missing.\n\nYou can use the ERC4626SelfAssetsManagement implementation by importing it:\n\n`use openzeppelin_token::erc20::extensions::erc4626::ERC4626SelfAssetsManagement;`\n";

} // verus!
