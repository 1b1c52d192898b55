//! The types of SNIP-12.
//!
//! There are three kinds of them:
//!
//! 1. Basic types, such as `felt`, `ClassHash`, `timestamp` or `u128`.
//! 2. Preset types, which are structs that SNIP-12 defines: `TokenAmount`,
//!    `NftId` and `u256`.
//! 3. User defined types: the domain separator `StarknetDomain`, and any
//!    other type by its name.

use vstd::prelude::*;
use crate::diagnostic::{error_of, Diagnostic, DiagnosticView};
use crate::text::str_equal;
use crate::type_hash::diagnostics::errors::CUSTOM_TYPE_NOT_SUPPORTED;

verus! {

/// A type of SNIP-12.
#[derive(Debug)]
pub enum S12Type {
    Basic(BasicType),
    Preset(PresetType),
    UserDefined(UserDefinedType),
}

/// The basic types of SNIP-12.
#[derive(Clone, Copy, Debug, PartialEq, Eq, Structural)]
pub enum BasicType {
    Felt,
    ShortString,
    ClassHash,
    ContractAddress,
    Timestamp,
    Selector,
    U128,
    I128,
}

/// The preset types of SNIP-12.
#[derive(Clone, Copy, Debug, PartialEq, Eq, Structural)]
pub enum PresetType {
    TokenAmount,
    NftId,
    U256,
}

/// The user defined types of SNIP-12, among them the domain separator.
#[derive(Debug)]
pub enum UserDefinedType {
    StarknetDomain,
    Custom(String),
}

/// The model of a [`UserDefinedType`].
pub enum UserDefinedTypeView {
    StarknetDomain,
    Custom(Seq<char>),
}

/// The model of an [`S12Type`].
pub enum S12TypeView {
    Basic(BasicType),
    Preset(PresetType),
    UserDefined(UserDefinedTypeView),
}

impl DeepView for UserDefinedType {
    type V = UserDefinedTypeView;

    open spec fn deep_view(&self) -> UserDefinedTypeView {
        match self {
            UserDefinedType::StarknetDomain => UserDefinedTypeView::StarknetDomain,
            UserDefinedType::Custom(name) => UserDefinedTypeView::Custom(name@),
        }
    }
}

impl DeepView for S12Type {
    type V = S12TypeView;

    open spec fn deep_view(&self) -> S12TypeView {
        match self {
            S12Type::Basic(basic_type) => S12TypeView::Basic(*basic_type),
            S12Type::Preset(preset_type) => S12TypeView::Preset(*preset_type),
            S12Type::UserDefined(user_defined_type) => S12TypeView::UserDefined(
                user_defined_type.deep_view(),
            ),
        }
    }
}

/// The type that a name stands for. The empty name stands for none; a name
/// that is not one of the fixed ones stands for a custom type of that name.
pub open spec fn type_of_name(s: Seq<char>) -> Option<S12TypeView> {
    if s.len() == 0 {
        None
    } else if s == "felt252"@ {
        Some(S12TypeView::Basic(BasicType::Felt))
    } else if s == "shortstring"@ {
        Some(S12TypeView::Basic(BasicType::ShortString))
    } else if s == "ClassHash"@ {
        Some(S12TypeView::Basic(BasicType::ClassHash))
    } else if s == "ContractAddress"@ {
        Some(S12TypeView::Basic(BasicType::ContractAddress))
    } else if s == "timestamp"@ {
        Some(S12TypeView::Basic(BasicType::Timestamp))
    } else if s == "selector"@ {
        Some(S12TypeView::Basic(BasicType::Selector))
    } else if s == "u128"@ {
        Some(S12TypeView::Basic(BasicType::U128))
    } else if s == "i128"@ {
        Some(S12TypeView::Basic(BasicType::I128))
    } else if s == "TokenAmount"@ {
        Some(S12TypeView::Preset(PresetType::TokenAmount))
    } else if s == "NftId"@ {
        Some(S12TypeView::Preset(PresetType::NftId))
    } else if s == "u256"@ {
        Some(S12TypeView::Preset(PresetType::U256))
    } else if s == "StarknetDomain"@ {
        Some(S12TypeView::UserDefined(UserDefinedTypeView::StarknetDomain))
    } else {
        Some(S12TypeView::UserDefined(UserDefinedTypeView::Custom(s)))
    }
}

/// The name that SNIP-12 gives a basic type.
pub open spec fn basic_type_name(t: BasicType) -> Seq<char> {
    match t {
        BasicType::Felt => "felt"@,
        BasicType::ShortString => "shortstring"@,
        BasicType::ClassHash => "ClassHash"@,
        BasicType::ContractAddress => "ContractAddress"@,
        BasicType::Timestamp => "timestamp"@,
        BasicType::Selector => "selector"@,
        BasicType::U128 => "u128"@,
        BasicType::I128 => "i128"@,
    }
}

/// The name that SNIP-12 gives a preset type.
pub open spec fn preset_type_name(t: PresetType) -> Seq<char> {
    match t {
        PresetType::TokenAmount => "TokenAmount"@,
        PresetType::NftId => "NftId"@,
        PresetType::U256 => "u256"@,
    }
}

/// The name of a user defined type: its own.
pub open spec fn user_defined_type_name(t: UserDefinedTypeView) -> Seq<char> {
    match t {
        UserDefinedTypeView::StarknetDomain => "StarknetDomain"@,
        UserDefinedTypeView::Custom(name) => name,
    }
}

/// The name that SNIP-12 gives a type.
pub open spec fn snip12_type_name(t: S12TypeView) -> Seq<char> {
    match t {
        S12TypeView::Basic(t) => basic_type_name(t),
        S12TypeView::Preset(t) => preset_type_name(t),
        S12TypeView::UserDefined(t) => user_defined_type_name(t),
    }
}

/// The encoding of a preset type: its name and its members with their types.
pub open spec fn preset_encoded_type(t: PresetType) -> Seq<char> {
    match t {
        PresetType::TokenAmount =>
            "\"TokenAmount\"(\"token_address\":\"ContractAddress\",\"amount\":\"u256\")"@,
        PresetType::NftId =>
            "\"NftId\"(\"collection_address\":\"ContractAddress\",\"token_id\":\"u256\")"@,
        PresetType::U256 => "\"u256\"(\"low\":\"u128\",\"high\":\"u128\")"@,
    }
}

/// The encoding of the domain separator: its four members, each a short
/// string.
pub open spec fn domain_encoded_type() -> Seq<char> {
    "\"StarknetDomain\"(\"name\":\"shortstring\",\"version\":\"shortstring\",\"chainId\":\"shortstring\",\"revision\":\"shortstring\")"@
}

/// The encoding of a type where it is referenced by another: nothing for a
/// basic type, which has no members; the fixed encoding of a preset type and
/// of the domain separator; and an error for a custom type.
pub open spec fn encoded_ref_type(t: S12TypeView) -> Result<Seq<char>, DiagnosticView> {
    match t {
        S12TypeView::Basic(_) => Ok(Seq::empty()),
        S12TypeView::Preset(t) => Ok(preset_encoded_type(t)),
        S12TypeView::UserDefined(UserDefinedTypeView::StarknetDomain) => Ok(domain_encoded_type()),
        S12TypeView::UserDefined(UserDefinedTypeView::Custom(_)) => Err(
            error_of(CUSTOM_TYPE_NOT_SUPPORTED@),
        ),
    }
}

/// The preset types that the members of a type are of, and those of their
/// members in turn.
pub open spec fn inner_types(t: S12TypeView) -> Seq<PresetType> {
    match t {
        S12TypeView::Preset(PresetType::TokenAmount) => seq![PresetType::U256],
        S12TypeView::Preset(PresetType::NftId) => seq![PresetType::U256],
        _ => Seq::empty(),
    }
}

/// The model of a name or an encoding that may be an error instead.
pub open spec fn text_result(r: Result<String, Diagnostic>) -> Result<Seq<char>, DiagnosticView> {
    match r {
        Ok(text) => Ok(text@),
        Err(diagnostic) => Err(diagnostic.deep_view()),
    }
}

impl S12Type {
    /// The type that a name stands for.
    pub fn from_str(s: &str) -> (r: Option<S12Type>)
        ensures
            r.deep_view() == type_of_name(s@),
    {
        if str_equal(s, "") {
            proof {
                reveal_strlit("");
            }
            None
        } else if str_equal(s, "felt252") {
            assert(s@.len() != 0) by {
                reveal_strlit("felt252");
            }
            Some(S12Type::Basic(BasicType::Felt))
        } else if str_equal(s, "shortstring") {
            assert(s@.len() != 0) by {
                reveal_strlit("shortstring");
            }
            Some(S12Type::Basic(BasicType::ShortString))
        } else if str_equal(s, "ClassHash") {
            assert(s@.len() != 0) by {
                reveal_strlit("ClassHash");
            }
            Some(S12Type::Basic(BasicType::ClassHash))
        } else if str_equal(s, "ContractAddress") {
            assert(s@.len() != 0) by {
                reveal_strlit("ContractAddress");
            }
            Some(S12Type::Basic(BasicType::ContractAddress))
        } else if str_equal(s, "timestamp") {
            assert(s@.len() != 0) by {
                reveal_strlit("timestamp");
            }
            Some(S12Type::Basic(BasicType::Timestamp))
        } else if str_equal(s, "selector") {
            assert(s@.len() != 0) by {
                reveal_strlit("selector");
            }
            Some(S12Type::Basic(BasicType::Selector))
        } else if str_equal(s, "u128") {
            assert(s@.len() != 0) by {
                reveal_strlit("u128");
            }
            Some(S12Type::Basic(BasicType::U128))
        } else if str_equal(s, "i128") {
            assert(s@.len() != 0) by {
                reveal_strlit("i128");
            }
            Some(S12Type::Basic(BasicType::I128))
        } else if str_equal(s, "TokenAmount") {
            assert(s@.len() != 0) by {
                reveal_strlit("TokenAmount");
            }
            Some(S12Type::Preset(PresetType::TokenAmount))
        } else if str_equal(s, "NftId") {
            assert(s@.len() != 0) by {
                reveal_strlit("NftId");
            }
            Some(S12Type::Preset(PresetType::NftId))
        } else if str_equal(s, "u256") {
            assert(s@.len() != 0) by {
                reveal_strlit("u256");
            }
            Some(S12Type::Preset(PresetType::U256))
        } else if str_equal(s, "StarknetDomain") {
            assert(s@.len() != 0) by {
                reveal_strlit("StarknetDomain");
            }
            Some(S12Type::UserDefined(UserDefinedType::StarknetDomain))
        } else {
            assert(s@.len() != 0) by {
                reveal_strlit("");
                assert(s@ != ""@);
                if s@.len() == 0 {
                    assert(s@ =~= ""@);
                }
            }
            Some(S12Type::UserDefined(UserDefinedType::Custom(String::from_str(s))))
        }
    }

    /// The name that SNIP-12 gives the type.
    pub fn get_snip12_type_name(&self) -> (r: Result<String, Diagnostic>)
        ensures
            text_result(r) == Ok::<Seq<char>, DiagnosticView>(
                snip12_type_name(self.deep_view()),
            ),
    {
        match self {
            S12Type::Basic(basic_type) => basic_type.get_snip12_type_name(),
            S12Type::Preset(preset_type) => preset_type.get_snip12_type_name(),
            S12Type::UserDefined(user_defined_type) => user_defined_type.get_snip12_type_name(),
        }
    }

    /// The encoding of the type where it is referenced by another.
    ///
    /// A basic type has no members, so its encoding is empty.
    pub fn get_encoded_ref_type(&self) -> (r: Result<String, Diagnostic>)
        ensures
            text_result(r) == encoded_ref_type(self.deep_view()),
    {
        match self {
            S12Type::Basic(basic_type) => basic_type.get_encoded_ref_type(),
            S12Type::Preset(preset_type) => preset_type.get_encoded_ref_type(),
            S12Type::UserDefined(user_defined_type) => user_defined_type.get_encoded_ref_type(),
        }
    }

    /// The preset types that the members of the type are of, and those of
    /// their members in turn.
    pub fn get_inner_types(&self) -> (r: Vec<PresetType>)
        ensures
            r@ == inner_types(self.deep_view()),
    {
        let mut inner: Vec<PresetType> = Vec::new();
        match self {
            S12Type::Preset(PresetType::TokenAmount) => {
                inner.push(PresetType::U256);
            },
            S12Type::Preset(PresetType::NftId) => {
                inner.push(PresetType::U256);
            },
            _ => {},
        }
        inner
    }
}

impl BasicType {
    /// The name that SNIP-12 gives the basic type.
    pub fn get_snip12_type_name(&self) -> (r: Result<String, Diagnostic>)
        ensures
            text_result(r) == Ok::<Seq<char>, DiagnosticView>(basic_type_name(*self)),
    {
        match self {
            BasicType::Felt => Ok(String::from_str("felt")),
            BasicType::ShortString => Ok(String::from_str("shortstring")),
            BasicType::ClassHash => Ok(String::from_str("ClassHash")),
            BasicType::ContractAddress => Ok(String::from_str("ContractAddress")),
            BasicType::Timestamp => Ok(String::from_str("timestamp")),
            BasicType::Selector => Ok(String::from_str("selector")),
            BasicType::U128 => Ok(String::from_str("u128")),
            BasicType::I128 => Ok(String::from_str("i128")),
        }
    }

    /// The encoding of the basic type where it is referenced: empty, since a
    /// basic type has no members.
    pub fn get_encoded_ref_type(&self) -> (r: Result<String, Diagnostic>)
        ensures
            text_result(r) == Ok::<Seq<char>, DiagnosticView>(Seq::empty()),
    {
        match self {
            BasicType::Felt => Ok(String::new()),
            BasicType::ShortString => Ok(String::new()),
            BasicType::ClassHash => Ok(String::new()),
            BasicType::ContractAddress => Ok(String::new()),
            BasicType::Timestamp => Ok(String::new()),
            BasicType::Selector => Ok(String::new()),
            BasicType::U128 => Ok(String::new()),
            BasicType::I128 => Ok(String::new()),
        }
    }
}

impl PresetType {
    /// The name that SNIP-12 gives the preset type.
    pub fn get_snip12_type_name(&self) -> (r: Result<String, Diagnostic>)
        ensures
            text_result(r) == Ok::<Seq<char>, DiagnosticView>(preset_type_name(*self)),
    {
        match self {
            PresetType::TokenAmount => Ok(String::from_str("TokenAmount")),
            PresetType::NftId => Ok(String::from_str("NftId")),
            PresetType::U256 => Ok(String::from_str("u256")),
        }
    }

    /// The encoding of the preset type where it is referenced.
    pub fn get_encoded_ref_type(&self) -> (r: Result<String, Diagnostic>)
        ensures
            text_result(r) == Ok::<Seq<char>, DiagnosticView>(preset_encoded_type(*self)),
    {
        match self {
            PresetType::TokenAmount => Ok(
                String::from_str(
                    "\"TokenAmount\"(\"token_address\":\"ContractAddress\",\"amount\":\"u256\")",
                ),
            ),
            PresetType::NftId => Ok(
                String::from_str(
                    "\"NftId\"(\"collection_address\":\"ContractAddress\",\"token_id\":\"u256\")",
                ),
            ),
            PresetType::U256 => Ok(
                String::from_str("\"u256\"(\"low\":\"u128\",\"high\":\"u128\")"),
            ),
        }
    }
}

impl UserDefinedType {
    /// The name of the user defined type.
    pub fn get_snip12_type_name(&self) -> (r: Result<String, Diagnostic>)
        ensures
            text_result(r) == Ok::<Seq<char>, DiagnosticView>(
                user_defined_type_name(self.deep_view()),
            ),
    {
        match self {
            UserDefinedType::StarknetDomain => Ok(String::from_str("StarknetDomain")),
            UserDefinedType::Custom(name) => Ok(name.clone()),
        }
    }

    /// The encoding of the user defined type where it is referenced: the
    /// fixed encoding of the domain separator, and an error for a custom
    /// type.
    pub fn get_encoded_ref_type(&self) -> (r: Result<String, Diagnostic>)
        ensures
            text_result(r) == encoded_ref_type(S12TypeView::UserDefined(self.deep_view())),
    {
        match self {
            UserDefinedType::StarknetDomain => Ok(
                String::from_str(
                    "\"StarknetDomain\"(\"name\":\"shortstring\",\"version\":\"shortstring\",\"chainId\":\"shortstring\",\"revision\":\"shortstring\")",
                ),
            ),
            UserDefinedType::Custom(_) => Err(
                Diagnostic::error(String::from_str(CUSTOM_TYPE_NOT_SUPPORTED)),
            ),
        }
    }
}

} // verus!
