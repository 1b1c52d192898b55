//! Reading a struct or an enum off a syntax tree.

use vstd::prelude::*;
use crate::syntax::{
    child,
    child_count,
    child_of,
    child_of_kind,
    children_of,
    find_child_of_kind,
    has_kind,
    terminal_text,
    text_of_terminal,
    text_without_trivia,
    trimmed_text_of_node,
    SyntaxEntry,
    Tree,
};
use crate::text::{push_line, string_of};
use crate::type_hash::parser::{
    MemberInfo,
    MemberInfoView,
    PluginTypeInfo,
    PluginTypeInfoView,
    TypeVariant,
};

verus! {

/// The texts of the first `n` attributes of the list at `list`, each without
/// the trivia around it.
pub open spec fn attribute_texts(t: Tree, list: int, n: nat) -> Seq<Seq<char>>
    decreases n,
{
    if n == 0 {
        Seq::empty()
    } else {
        attribute_texts(t, list, (n - 1) as nat) + match child(t, list, (n - 1) as nat) {
            Some(a) => seq![text_without_trivia(t, a)],
            None => Seq::empty(),
        }
    }
}

/// The texts of the attributes of the node at `c`, which are its first
/// child.
pub open spec fn attributes_of(t: Tree, c: int) -> Seq<Seq<char>> {
    match child_of_kind(t, c, 0, "AttributeList"@) {
        Some(list) => attribute_texts(t, list, child_count(t, list)),
        None => Seq::empty(),
    }
}

/// The name that stands as child `k` of the node at `c`.
pub open spec fn name_at(t: Tree, c: int, k: nat) -> Seq<char> {
    match child(t, c, k) {
        Some(n) => terminal_text(t, n),
        None => Seq::empty(),
    }
}

/// The type that the type clause at `clause` declares, as it is written;
/// without a type clause the type is the empty tuple.
pub open spec fn declared_type(t: Tree, clause: Option<int>) -> Seq<char> {
    match clause {
        Some(tc) => if 0 <= tc < t.len() && t[tc].kind == "TypeClause"@ {
            match child(t, tc, 1) {
                Some(ty) => text_without_trivia(t, ty),
                None => "()"@,
            }
        } else {
            "()"@
        },
        None => "()"@,
    }
}

/// The member of a struct, or with `is_variant` the variant of an enum, at
/// `c`. The name of a member is its third child and its type clause the
/// fourth; those of a variant are its second and third.
pub open spec fn member_at(t: Tree, c: int, is_variant: bool) -> MemberInfoView {
    MemberInfoView {
        name: name_at(
            t,
            c,
            if is_variant {
                1
            } else {
                2
            },
        ),
        ty: declared_type(
            t,
            child(
                t,
                c,
                if is_variant {
                    2
                } else {
                    3
                },
            ),
        ),
        attributes: attributes_of(t, c),
    }
}

/// The members among the first `n` children of the list at `list`: those of
/// the given kind, which leaves out the commas between them.
pub open spec fn members_among(
    t: Tree,
    list: int,
    n: nat,
    kind: Seq<char>,
    is_variant: bool,
) -> Seq<MemberInfoView>
    decreases n,
{
    if n == 0 {
        Seq::empty()
    } else {
        members_among(t, list, (n - 1) as nat, kind, is_variant) + match child(
            t,
            list,
            (n - 1) as nat,
        ) {
            Some(c) => if 0 <= c < t.len() && t[c].kind == kind {
                seq![member_at(t, c, is_variant)]
            } else {
                Seq::empty()
            },
            None => Seq::empty(),
        }
    }
}

/// The members of the struct or enum at `item`, which are its seventh child.
pub open spec fn members_of(t: Tree, item: int, kind: Seq<char>, is_variant: bool) -> Seq<
    MemberInfoView,
> {
    match child(t, item, 6) {
        Some(list) => members_among(t, list, child_count(t, list), kind, is_variant),
        None => Seq::empty(),
    }
}

/// The struct or the enum at `item`; none where the node is neither.
pub open spec fn type_info_at(t: Tree, item: int) -> Option<PluginTypeInfoView> {
    if t[item].kind == "ItemStruct"@ {
        Some(
            PluginTypeInfoView {
                name: name_at(t, item, 3),
                members_info: members_of(t, item, "Member"@, false),
                type_variant: TypeVariant::Struct,
            },
        )
    } else if t[item].kind == "ItemEnum"@ {
        Some(
            PluginTypeInfoView {
                name: name_at(t, item, 3),
                members_info: members_of(t, item, "Variant"@, true),
                type_variant: TypeVariant::Enum,
            },
        )
    } else {
        None
    }
}

/// The texts of the attributes of the node at `c`.
fn read_attributes(tree: &Vec<SyntaxEntry>, c: usize) -> (r: Vec<String>)
    requires
        c < tree.len(),
    ensures
        r.deep_view() == attributes_of(tree.deep_view(), c as int),
{
    let mut out: Vec<String> = Vec::new();
    assert(out.deep_view() =~= Seq::<Seq<char>>::empty());
    match find_child_of_kind(tree, c, 0, "AttributeList") {
        Some(list) => {
            let attributes = children_of(tree, list);
            let mut i: usize = 0;
            while i < attributes.len()
                invariant
                    i <= attributes.len(),
                    list < tree.len(),
                    attributes.len() == child_count(tree.deep_view(), list as int),
                    forall|k: int|
                        0 <= k < attributes.len() ==> child(
                            tree.deep_view(),
                            list as int,
                            k as nat,
                        ) == Some(#[trigger] attributes[k] as int) && list < attributes[k]
                            < tree.len(),
                    out.deep_view() == attribute_texts(tree.deep_view(), list as int, i as nat),
                decreases attributes.len() - i,
            {
                assert(child(tree.deep_view(), list as int, i as nat) == Some(
                    attributes[i as int] as int,
                ));
                let text = trimmed_text_of_node(tree, attributes[i]);
                let ghost before = out.deep_view();
                push_line(&mut out, string_of(&text));
                assert(out.deep_view() =~= before + seq![text@]);
                i += 1;
            }
        },
        None => {},
    }
    out
}

/// The name that stands as child `k` of the node at `c`.
fn read_name(tree: &Vec<SyntaxEntry>, c: usize, k: usize) -> (r: String)
    requires
        c < tree.len(),
    ensures
        r@ == name_at(tree.deep_view(), c as int, k as nat),
{
    match child_of(tree, c, k) {
        Some(n) => {
            let text = text_of_terminal(tree, n);
            string_of(&text)
        },
        None => String::new(),
    }
}

/// The type that child `k` of the node at `c` declares.
fn read_declared_type(tree: &Vec<SyntaxEntry>, c: usize, k: usize) -> (r: String)
    requires
        c < tree.len(),
    ensures
        r@ == declared_type(tree.deep_view(), child(tree.deep_view(), c as int, k as nat)),
{
    match child_of(tree, c, k) {
        Some(tc) => {
            if has_kind(tree, tc, "TypeClause") {
                match child_of(tree, tc, 1) {
                    Some(ty) => {
                        let text = trimmed_text_of_node(tree, ty);
                        string_of(&text)
                    },
                    None => String::from_str("()"),
                }
            } else {
                String::from_str("()")
            }
        },
        None => String::from_str("()"),
    }
}

/// The member or variant at `c`.
fn read_member(tree: &Vec<SyntaxEntry>, c: usize, is_variant: bool) -> (r: MemberInfo)
    requires
        c < tree.len(),
    ensures
        r.deep_view() == member_at(tree.deep_view(), c as int, is_variant),
{
    let name_index: usize = if is_variant {
        1
    } else {
        2
    };
    let clause_index: usize = if is_variant {
        2
    } else {
        3
    };
    MemberInfo {
        name: read_name(tree, c, name_index),
        ty: read_declared_type(tree, c, clause_index),
        attributes: read_attributes(tree, c),
    }
}

/// The members of the struct or enum at `item`.
fn read_members(tree: &Vec<SyntaxEntry>, item: usize, kind: &str, is_variant: bool) -> (r: Vec<
    MemberInfo,
>)
    requires
        item < tree.len(),
    ensures
        r.deep_view() == members_of(tree.deep_view(), item as int, kind@, is_variant),
{
    let mut out: Vec<MemberInfo> = Vec::new();
    assert(out.deep_view() =~= Seq::<MemberInfoView>::empty());
    match child_of(tree, item, 6) {
        Some(list) => {
            let members = children_of(tree, list);
            let mut i: usize = 0;
            while i < members.len()
                invariant
                    i <= members.len(),
                    list < tree.len(),
                    members.len() == child_count(tree.deep_view(), list as int),
                    forall|k: int|
                        0 <= k < members.len() ==> child(tree.deep_view(), list as int, k as nat)
                            == Some(#[trigger] members[k] as int) && list < members[k]
                            < tree.len(),
                    out.deep_view() == members_among(
                        tree.deep_view(),
                        list as int,
                        i as nat,
                        kind@,
                        is_variant,
                    ),
                decreases members.len() - i,
            {
                assert(child(tree.deep_view(), list as int, i as nat) == Some(
                    members[i as int] as int,
                ));
                let ghost before = out.deep_view();
                if has_kind(tree, members[i], kind) {
                    let member = read_member(tree, members[i], is_variant);
                    out.push(member);
                    assert(out.deep_view() =~= before + seq![member.deep_view()]);
                } else {
                    assert(out.deep_view() =~= before + Seq::<MemberInfoView>::empty());
                }
                i += 1;
            }
        },
        None => {},
    }
    out
}

/// Reads the struct or the enum at `item`; gives none where the node is
/// neither.
pub fn read_type_info(tree: &Vec<SyntaxEntry>, item: usize) -> (r: Option<PluginTypeInfo>)
    requires
        item < tree.len(),
    ensures
        r.deep_view() == type_info_at(tree.deep_view(), item as int),
{
    if has_kind(tree, item, "ItemStruct") {
        Some(
            PluginTypeInfo {
                name: read_name(tree, item, 3),
                members_info: read_members(tree, item, "Member", false),
                type_variant: TypeVariant::Struct,
            },
        )
    } else if has_kind(tree, item, "ItemEnum") {
        Some(
            PluginTypeInfo {
                name: read_name(tree, item, 3),
                members_info: read_members(tree, item, "Variant", true),
                type_variant: TypeVariant::Enum,
            },
        )
    } else {
        None
    }
}

} // verus!
