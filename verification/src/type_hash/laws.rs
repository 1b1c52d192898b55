//! What holds of the encoding of types.

use vstd::prelude::*;
use crate::text::lex_less;
use crate::type_hash::definition::fresh;
use crate::type_hash::parser::{
    lemma_lex_less_total,
    lemma_progress_keeps_order,
    lemma_sorted_insert_keeps_order,
    member_encoding,
    member_step,
    member_type,
    parsed_type,
    progress,
    sorted_insert,
    strictly_sorted,
    type_encoding,
    with_inner_types,
    without_last_comma,
    MemberInfoView,
    ParserView,
    PluginTypeInfoView,
    Progress,
    TypeVariant,
};
use crate::type_hash::diagnostics::errors::CUSTOM_TYPE_NOT_SUPPORTED;
use crate::type_hash::types::{
    basic_type_name,
    domain_encoded_type,
    encoded_ref_type,
    inner_types,
    preset_encoded_type,
    preset_type_name,
    snip12_type_name,
    BasicType,
    PresetType,
    S12TypeView,
    UserDefinedTypeView,
};

verus! {

/// The members of the domain separator, encoded one after another: its
/// name, its version, the id of its chain and its revision, each a short
/// string.
pub open spec fn domain_members() -> Seq<char> {
    member_encoding(TypeVariant::Struct, "name"@, "shortstring"@) + member_encoding(
        TypeVariant::Struct,
        "version"@,
        "shortstring"@,
    ) + member_encoding(TypeVariant::Struct, "chainId"@, "shortstring"@) + member_encoding(
        TypeVariant::Struct,
        "revision"@,
        "shortstring"@,
    )
}

/// The encoding of the domain separator is that of a struct named
/// `StarknetDomain` with the four members of the domain, and it is the same
/// whenever it is asked for.
pub proof fn lemma_domain_encoding()
    ensures
        encoded_ref_type(S12TypeView::UserDefined(UserDefinedTypeView::StarknetDomain)) == Ok::<
            Seq<char>,
            crate::diagnostic::DiagnosticView,
        >(domain_encoded_type()),
        domain_encoded_type() == "\"StarknetDomain\"("@ + without_last_comma(domain_members())
            + ")"@,
{
    reveal_strlit("\"StarknetDomain\"(");
    reveal_strlit("\"");
    reveal_strlit("\":\"");
    reveal_strlit("\",");
    reveal_strlit(")");
    reveal_strlit("name");
    reveal_strlit("version");
    reveal_strlit("chainId");
    reveal_strlit("revision");
    reveal_strlit("shortstring");
    reveal_strlit(
        "\"StarknetDomain\"(\"name\":\"shortstring\",\"version\":\"shortstring\",\"chainId\":\"shortstring\",\"revision\":\"shortstring\")",
    );
    let name = member_encoding(TypeVariant::Struct, "name"@, "shortstring"@);
    let version = member_encoding(TypeVariant::Struct, "version"@, "shortstring"@);
    let chain = member_encoding(TypeVariant::Struct, "chainId"@, "shortstring"@);
    let revision = member_encoding(TypeVariant::Struct, "revision"@, "shortstring"@);
    assert(name.len() == 21);
    assert(version.len() == 24);
    assert(chain.len() == 24);
    assert(revision.len() == 25);
    let members = domain_members();
    assert(members.len() == 94);
    assert(members.last() == revision.last());
    assert(revision.last() == ',');
    let trimmed = without_last_comma(members);
    assert(trimmed == members.drop_last());
    assert(domain_encoded_type() =~= "\"StarknetDomain\"("@ + trimmed + ")"@);
}

/// A list that is in the order of strings and holds no text twice is
/// determined by the texts it holds: two such lists with the same texts are
/// the same list, in whatever order the texts came in.
pub proof fn lemma_sorted_list_is_unique(a: Seq<Seq<char>>, b: Seq<Seq<char>>)
    requires
        strictly_sorted(a),
        strictly_sorted(b),
        forall|x: Seq<char>| a.contains(x) <==> b.contains(x),
    ensures
        a == b,
    decreases a.len(),
{
    if a.len() == 0 {
        if b.len() > 0 {
            assert(b.contains(b[0]));
        }
        assert(a =~= b);
    } else {
        assert(a.contains(a[0]));
        assert(b.contains(a[0]));
        let j = choose|j: int| 0 <= j < b.len() && b[j] == a[0];
        assert(b.contains(b[0]));
        let i = choose|i: int| 0 <= i < a.len() && a[i] == b[0];
        if j > 0 {
            assert(lex_less(b[0], b[j]));
            lemma_lex_less_total(a[0], b[0]);
            if i > 0 {
                assert(lex_less(a[0], a[i]));
            }
        }
        assert(a[0] == b[0]);
        let at = a.drop_first();
        let bt = b.drop_first();
        assert forall|x: Seq<char>| at.contains(x) <==> bt.contains(x) by {
            if at.contains(x) {
                let k = choose|k: int| 0 <= k < at.len() && at[k] == x;
                assert(a[k + 1] == x);
                assert(lex_less(a[0], a[k + 1]));
                lemma_lex_less_total(a[0], x);
                assert(a.contains(x));
                let l = choose|l: int| 0 <= l < b.len() && b[l] == x;
                assert(l > 0);
                assert(bt[l - 1] == x);
            }
            if bt.contains(x) {
                let k = choose|k: int| 0 <= k < bt.len() && bt[k] == x;
                assert(b[k + 1] == x);
                assert(lex_less(b[0], b[k + 1]));
                lemma_lex_less_total(b[0], x);
                assert(b.contains(x));
                let l = choose|l: int| 0 <= l < a.len() && a[l] == x;
                assert(l > 0);
                assert(at[l - 1] == x);
            }
        }
        assert forall|p: int, q: int| 0 <= p < q < at.len() implies lex_less(
            #[trigger] at[p],
            #[trigger] at[q],
        ) by {
            assert(at[p] == a[p + 1] && at[q] == a[q + 1]);
        }
        assert forall|p: int, q: int| 0 <= p < q < bt.len() implies lex_less(
            #[trigger] bt[p],
            #[trigger] bt[q],
        ) by {
            assert(bt[p] == b[p + 1] && bt[q] == b[q + 1]);
        }
        lemma_sorted_list_is_unique(at, bt);
        assert(a =~= seq![a[0]] + at);
        assert(b =~= seq![b[0]] + bt);
    }
}

/// Whether a type is one of the types of SNIP-12 that have an encoding: any
/// but a custom type.
pub open spec fn is_known(ty: S12TypeView) -> bool {
    !(ty matches S12TypeView::UserDefined(UserDefinedTypeView::Custom(_)))
}

/// The encoding of a type where it is referenced; empty for a custom type,
/// which has none.
pub open spec fn encoding_of(ty: S12TypeView) -> Seq<char> {
    match encoded_ref_type(ty) {
        Ok(encoding) => encoding,
        Err(_) => Seq::empty(),
    }
}

/// No two basic types have the same name.
proof fn lemma_basic_names_distinct(a: BasicType, b: BasicType)
    requires
        basic_type_name(a) == basic_type_name(b),
    ensures
        a == b,
{
    reveal_strlit("felt");
    reveal_strlit("shortstring");
    reveal_strlit("ClassHash");
    reveal_strlit("ContractAddress");
    reveal_strlit("timestamp");
    reveal_strlit("selector");
    reveal_strlit("u128");
    reveal_strlit("i128");
    if a != b {
        let x = basic_type_name(a);
        let y = basic_type_name(b);
        assert(x.len() == y.len());
        assert(x[0] == y[0]);
    }
}

/// No two preset types have the same name.
proof fn lemma_preset_names_distinct(a: PresetType, b: PresetType)
    requires
        preset_type_name(a) == preset_type_name(b),
    ensures
        a == b,
{
    reveal_strlit("TokenAmount");
    reveal_strlit("NftId");
    reveal_strlit("u256");
    assert("TokenAmount"@.len() == 11);
    assert("NftId"@.len() == 5);
    assert("u256"@.len() == 4);
    match (a, b) {
        (PresetType::TokenAmount, PresetType::TokenAmount) => {},
        (PresetType::NftId, PresetType::NftId) => {},
        (PresetType::U256, PresetType::U256) => {},
        _ => {
            assert(preset_type_name(a).len() != preset_type_name(b).len());
        },
    }
}

/// No basic type has the name of a preset type or of the domain separator.
proof fn lemma_basic_name_is_its_own(a: BasicType)
    ensures
        basic_type_name(a) != "TokenAmount"@,
        basic_type_name(a) != "NftId"@,
        basic_type_name(a) != "u256"@,
        basic_type_name(a) != "StarknetDomain"@,
{
    reveal_strlit("felt");
    reveal_strlit("shortstring");
    reveal_strlit("ClassHash");
    reveal_strlit("ContractAddress");
    reveal_strlit("timestamp");
    reveal_strlit("selector");
    reveal_strlit("u128");
    reveal_strlit("i128");
    reveal_strlit("TokenAmount");
    reveal_strlit("NftId");
    reveal_strlit("u256");
    reveal_strlit("StarknetDomain");
    let x = basic_type_name(a);
    assert(x.len() != 5 && x.len() != 14);
    if x == "TokenAmount"@ {
        assert(x[0] == 'T');
    }
    if x == "u256"@ {
        assert(x[0] == 'u');
        assert(x[1] == '2');
    }
}

/// No preset type has the name of the domain separator.
proof fn lemma_preset_name_is_its_own(a: PresetType)
    ensures
        preset_type_name(a) != "StarknetDomain"@,
{
    reveal_strlit("TokenAmount");
    reveal_strlit("NftId");
    reveal_strlit("u256");
    reveal_strlit("StarknetDomain");
    assert(preset_type_name(a).len() != 14);
}

/// No two types that have an encoding have the same name.
pub proof fn lemma_known_names_distinct(a: S12TypeView, b: S12TypeView)
    requires
        is_known(a),
        is_known(b),
        snip12_type_name(a) == snip12_type_name(b),
    ensures
        a == b,
{
    match (a, b) {
        (S12TypeView::Basic(p), S12TypeView::Basic(q)) => {
            lemma_basic_names_distinct(p, q);
        },
        (S12TypeView::Preset(p), S12TypeView::Preset(q)) => {
            lemma_preset_names_distinct(p, q);
        },
        (S12TypeView::Basic(p), _) => {
            lemma_basic_name_is_its_own(p);
            match b {
                S12TypeView::Preset(q) => {
                    assert(preset_type_name(q) == "TokenAmount"@ || preset_type_name(q)
                        == "NftId"@ || preset_type_name(q) == "u256"@);
                },
                _ => {},
            }
        },
        (_, S12TypeView::Basic(q)) => {
            lemma_basic_name_is_its_own(q);
            match a {
                S12TypeView::Preset(p) => {
                    assert(preset_type_name(p) == "TokenAmount"@ || preset_type_name(p)
                        == "NftId"@ || preset_type_name(p) == "u256"@);
                },
                _ => {},
            }
        },
        (S12TypeView::Preset(p), _) => {
            lemma_preset_name_is_its_own(p);
        },
        (_, S12TypeView::Preset(q)) => {
            lemma_preset_name_is_its_own(q);
        },
        _ => {},
    }
}

/// Whether a member of the type `from` references the type `ty`: `ty` is
/// that type, or one of its inner types.
pub open spec fn references(from: S12TypeView, ty: S12TypeView) -> bool {
    ty == from || exists|j: int|
        0 <= j < inner_types(from).len() && ty == S12TypeView::Preset(
            #[trigger] inner_types(from)[j],
        )
}

/// Whether the type of a member is one that has an encoding.
pub open spec fn resolved(m: MemberInfoView) -> bool {
    match member_type(m) {
        Some(ty) => is_known(ty),
        None => false,
    }
}

/// Whether each of the first `n` members is of a type that has an encoding.
pub open spec fn all_resolved(members: Seq<MemberInfoView>, n: nat) -> bool {
    forall|m: int| 0 <= m < n ==> resolved(#[trigger] members[m])
}

/// Whether one of the first `n` members references the type `ty`.
pub open spec fn referenced(members: Seq<MemberInfoView>, n: nat, ty: S12TypeView) -> bool
    decreases n,
{
    n > 0 && (referenced(members, (n - 1) as nat, ty) || match member_type(members[n - 1]) {
        Some(from) => references(from, ty),
        None => false,
    })
}

/// Whether a parser has gathered exactly what the first `n` members
/// reference: the names it has seen are those of the referenced types, and
/// the encodings it keeps are theirs, in the order of strings and each once.
pub open spec fn gathers(st: ParserView, members: Seq<MemberInfoView>, n: nat) -> bool {
    &&& strictly_sorted(st.encoded_types)
    &&& forall|x: Seq<char>|
        st.processed.contains(x) <==> exists|ty: S12TypeView|
            #![trigger referenced(members, n, ty)]
            referenced(members, n, ty) && snip12_type_name(ty) == x
    &&& forall|e: Seq<char>|
        st.encoded_types.contains(e) <==> exists|ty: S12TypeView|
            #![trigger referenced(members, n, ty)]
            referenced(members, n, ty) && encoding_of(ty) == e
}

/// What a type with an encoding references has an encoding, and the inner
/// types of what it references are referenced by it.
proof fn lemma_references_known(from: S12TypeView, ty: S12TypeView)
    requires
        is_known(from),
        references(from, ty),
    ensures
        is_known(ty),
        forall|j: int|
            0 <= j < inner_types(ty).len() ==> references(
                from,
                S12TypeView::Preset(#[trigger] inner_types(ty)[j]),
            ),
{
    if ty != from {
        let j = choose|j: int|
            0 <= j < inner_types(from).len() && ty == S12TypeView::Preset(
                #[trigger] inner_types(from)[j],
            );
        assert(ty == S12TypeView::Preset(PresetType::U256));
        assert(inner_types(ty).len() == 0);
    }
}

/// What is referenced by members of types that have an encoding has an
/// encoding, and its inner types are referenced with it.
proof fn lemma_referenced_known(members: Seq<MemberInfoView>, n: nat, ty: S12TypeView)
    requires
        n <= members.len(),
        all_resolved(members, n),
        referenced(members, n, ty),
    ensures
        is_known(ty),
        forall|j: int|
            0 <= j < inner_types(ty).len() ==> referenced(
                members,
                n,
                S12TypeView::Preset(#[trigger] inner_types(ty)[j]),
            ),
    decreases n,
{
    if n > 0 {
        if referenced(members, (n - 1) as nat, ty) {
            lemma_referenced_known(members, (n - 1) as nat, ty);
        } else {
            assert(resolved(members[n - 1]));
            let from = member_type(members[n - 1])->0;
            lemma_references_known(from, ty);
        }
    }
}

/// A list with one text more holds that text and what it held.
proof fn lemma_push_contains(s: Seq<Seq<char>>, x: Seq<char>)
    ensures
        forall|y: Seq<char>| s.push(x).contains(y) <==> s.contains(y) || y == x,
{
    assert forall|y: Seq<char>| s.push(x).contains(y) <==> s.contains(y) || y == x by {
        if s.contains(y) {
            let i = choose|i: int| 0 <= i < s.len() && s[i] == y;
            assert(s.push(x)[i] == y);
        }
        if y == x {
            assert(s.push(x)[s.len() as int] == x);
        }
        if s.push(x).contains(y) {
            let i = choose|i: int| 0 <= i < s.push(x).len() && s.push(x)[i] == y;
            if i < s.len() {
                assert(s[i] == y);
            }
        }
    }
}

/// A parser that has gathered what the members before reference, and takes
/// one member more of a type that has an encoding, goes on without an error
/// and has gathered what the members reference with that one.
proof fn lemma_step_gathers(
    variant: crate::type_hash::parser::TypeVariant,
    before: Progress,
    members: Seq<MemberInfoView>,
    n: nat,
)
    requires
        0 < n <= members.len(),
        all_resolved(members, n),
        before.error is None,
        gathers(before.state, members, (n - 1) as nat),
    ensures
        member_step(variant, before, members[n - 1]).error is None,
        gathers(member_step(variant, before, members[n - 1]).state, members, n),
{
    let m = members[n - 1];
    assert(resolved(m));
    let from = member_type(m)->0;
    let name = snip12_type_name(from);
    let after = member_step(variant, before, m);
    let old_names = before.state.processed;
    let old_types = before.state.encoded_types;
    let u = S12TypeView::Preset(PresetType::U256);
    assert(referenced(members, n, from));
    assert forall|ty: S12TypeView| referenced(members, n, ty) <==> referenced(
        members,
        (n - 1) as nat,
        ty,
    ) || references(from, ty) by {}
    if old_names.contains(name) {
        let seen = choose|ty: S12TypeView|
            #![trigger referenced(members, (n - 1) as nat, ty)]
            referenced(members, (n - 1) as nat, ty) && snip12_type_name(ty) == name;
        lemma_referenced_known(members, (n - 1) as nat, seen);
        lemma_known_names_distinct(seen, from);
        assert forall|ty: S12TypeView| references(from, ty) implies referenced(
            members,
            (n - 1) as nat,
            ty,
        ) by {
            if ty != from {
                let j = choose|j: int|
                    0 <= j < inner_types(from).len() && ty == S12TypeView::Preset(
                        #[trigger] inner_types(from)[j],
                    );
                assert(referenced(
                    members,
                    (n - 1) as nat,
                    S12TypeView::Preset(inner_types(from)[j]),
                ));
            }
        }
        assert(after.state == before.state);
    } else {
        let encoding = encoding_of(from);
        assert(encoded_ref_type(from) == Ok::<Seq<char>, crate::diagnostic::DiagnosticView>(
            encoding,
        ));
        let names = old_names.push(name);
        let types = sorted_insert(old_types, encoding);
        lemma_push_contains(old_names, name);
        lemma_sorted_insert_keeps_order(old_types, encoding);
        let first = ParserView { processed: names, encoded_types: types };
        if inner_types(from).len() == 0 {
            assert(after.state == first);
            assert forall|ty: S12TypeView| references(from, ty) <==> ty == from by {}
        } else {
            assert(inner_types(from) =~= seq![PresetType::U256]);
            assert(inner_types(from)[0] == PresetType::U256);
            assert forall|ty: S12TypeView| references(from, ty) <==> ty == from || ty == u by {
                if ty == u {
                    assert(ty == S12TypeView::Preset(inner_types(from)[0]));
                }
            }
            let inner_name = preset_type_name(PresetType::U256);
            let inner_encoding = preset_encoded_type(PresetType::U256);
            assert(snip12_type_name(u) == inner_name);
            assert(encoding_of(u) == inner_encoding);
            assert(with_inner_types(first, inner_types(from), 0) == first);
            if names.contains(inner_name) {
                assert(after.state == first);
                if name == inner_name {
                    lemma_known_names_distinct(from, u);
                    assert(false);
                }
                assert(old_names.contains(inner_name));
                let seen = choose|ty: S12TypeView|
                    #![trigger referenced(members, (n - 1) as nat, ty)]
                    referenced(members, (n - 1) as nat, ty) && snip12_type_name(ty)
                        == inner_name;
                lemma_referenced_known(members, (n - 1) as nat, seen);
                lemma_known_names_distinct(seen, u);
                assert(referenced(members, (n - 1) as nat, u));
            } else {
                lemma_push_contains(names, inner_name);
                lemma_sorted_insert_keeps_order(types, inner_encoding);
                assert(after.state == (ParserView {
                    processed: names.push(inner_name),
                    encoded_types: sorted_insert(types, inner_encoding),
                }));
            }
        }
    }
    let st = after.state;
    assert forall|x: Seq<char>| st.processed.contains(x) <==> exists|ty: S12TypeView|
        #![trigger referenced(members, n, ty)]
        referenced(members, n, ty) && snip12_type_name(ty) == x by {
        if st.processed.contains(x) {
            if old_names.contains(x) {
                let ty = choose|ty: S12TypeView|
                    #![trigger referenced(members, (n - 1) as nat, ty)]
                    referenced(members, (n - 1) as nat, ty) && snip12_type_name(ty) == x;
                assert(referenced(members, n, ty));
            } else if x == name {
                assert(referenced(members, n, from));
            } else {
                assert(referenced(members, n, u));
            }
        }
        if exists|ty: S12TypeView|
            #![trigger referenced(members, n, ty)]
            referenced(members, n, ty) && snip12_type_name(ty) == x {
            let ty = choose|ty: S12TypeView|
                #![trigger referenced(members, n, ty)]
                referenced(members, n, ty) && snip12_type_name(ty) == x;
            if referenced(members, (n - 1) as nat, ty) {
                assert(old_names.contains(x));
            }
        }
    }
    assert forall|e: Seq<char>| st.encoded_types.contains(e) <==> exists|ty: S12TypeView|
        #![trigger referenced(members, n, ty)]
        referenced(members, n, ty) && encoding_of(ty) == e by {
        if st.encoded_types.contains(e) {
            if old_types.contains(e) {
                let ty = choose|ty: S12TypeView|
                    #![trigger referenced(members, (n - 1) as nat, ty)]
                    referenced(members, (n - 1) as nat, ty) && encoding_of(ty) == e;
                assert(referenced(members, n, ty));
            } else if e == encoding_of(from) {
                assert(referenced(members, n, from));
            } else {
                assert(referenced(members, n, u));
            }
        }
        if exists|ty: S12TypeView|
            #![trigger referenced(members, n, ty)]
            referenced(members, n, ty) && encoding_of(ty) == e {
            let ty = choose|ty: S12TypeView|
                #![trigger referenced(members, n, ty)]
                referenced(members, n, ty) && encoding_of(ty) == e;
            if referenced(members, (n - 1) as nat, ty) {
                assert(old_types.contains(e));
            }
        }
    }
}

/// A parser that starts with nothing and takes members of types that have
/// an encoding goes on without an error, and gathers exactly what the
/// members reference.
pub proof fn lemma_progress_gathers(
    variant: crate::type_hash::parser::TypeVariant,
    start: Progress,
    members: Seq<MemberInfoView>,
    n: nat,
)
    requires
        n <= members.len(),
        all_resolved(members, n),
        start.error is None,
        start.state == fresh(),
    ensures
        progress(variant, start, members, n).error is None,
        gathers(progress(variant, start, members, n).state, members, n),
    decreases n,
{
    if n > 0 {
        lemma_progress_gathers(variant, start, members, (n - 1) as nat);
        lemma_step_gathers(variant, progress(variant, start, members, (n - 1) as nat), members, n);
    }
}

/// A type is referenced by the first members where one of them is of a type
/// that references it.
pub proof fn lemma_referenced_by_member(members: Seq<MemberInfoView>, n: nat, ty: S12TypeView)
    ensures
        referenced(members, n, ty) <==> exists|m: int|
            0 <= m < n && match member_type(#[trigger] members[m]) {
                Some(from) => references(from, ty),
                None => false,
            },
    decreases n,
{
    if n > 0 {
        lemma_referenced_by_member(members, (n - 1) as nat, ty);
        if referenced(members, (n - 1) as nat, ty) {
            let m = choose|m: int|
                0 <= m < n - 1 && match member_type(#[trigger] members[m]) {
                    Some(from) => references(from, ty),
                    None => false,
                };
            assert(0 <= m < n);
        }
    }
}

/// Whether each member of `a` has its type in common with a member of `b`.
pub open spec fn types_among(a: Seq<MemberInfoView>, b: Seq<MemberInfoView>) -> bool {
    forall|i: int|
        0 <= i < a.len() ==> exists|j: int|
            0 <= j < b.len() && member_type(#[trigger] b[j]) == member_type(#[trigger] a[i])
}

/// Two lists of members whose types are the same reference the same types.
proof fn lemma_same_references(ma: Seq<MemberInfoView>, mb: Seq<MemberInfoView>)
    requires
        types_among(ma, mb),
        types_among(mb, ma),
    ensures
        forall|ty: S12TypeView|
            referenced(ma, ma.len(), ty) <==> referenced(mb, mb.len(), ty),
{
    assert forall|ty: S12TypeView| referenced(ma, ma.len(), ty) <==> referenced(
        mb,
        mb.len(),
        ty,
    ) by {
        lemma_referenced_among(ma, mb, ty);
        lemma_referenced_among(mb, ma, ty);
    }
}

/// What the members of one list reference, the members of a list with
/// their types reference too.
proof fn lemma_referenced_among(ma: Seq<MemberInfoView>, mb: Seq<MemberInfoView>, ty: S12TypeView)
    requires
        types_among(ma, mb),
    ensures
        referenced(ma, ma.len(), ty) ==> referenced(mb, mb.len(), ty),
{
    lemma_referenced_by_member(ma, ma.len(), ty);
    lemma_referenced_by_member(mb, mb.len(), ty);
    if referenced(ma, ma.len(), ty) {
        let i = choose|i: int|
            0 <= i < ma.len() && match member_type(#[trigger] ma[i]) {
                Some(from) => references(from, ty),
                None => false,
            };
        let j = choose|j: int|
            0 <= j < mb.len() && member_type(#[trigger] mb[j]) == member_type(ma[i]);
        assert(match member_type(mb[j]) {
            Some(from) => references(from, ty),
            None => false,
        });
    }
}

/// Two parsers that have gathered what the same types reference keep the
/// same encodings.
proof fn lemma_gathered_lists_equal(
    sa: ParserView,
    sb: ParserView,
    ma: Seq<MemberInfoView>,
    mb: Seq<MemberInfoView>,
)
    requires
        gathers(sa, ma, ma.len()),
        gathers(sb, mb, mb.len()),
        forall|ty: S12TypeView|
            referenced(ma, ma.len(), ty) <==> referenced(mb, mb.len(), ty),
    ensures
        sa.encoded_types == sb.encoded_types,
{
    let da = sa.encoded_types;
    let db = sb.encoded_types;
    assert forall|e: Seq<char>| da.contains(e) <==> db.contains(e) by {
        if da.contains(e) {
            let ty = choose|ty: S12TypeView|
                #![trigger referenced(ma, ma.len(), ty)]
                referenced(ma, ma.len(), ty) && encoding_of(ty) == e;
            assert(referenced(mb, mb.len(), ty));
        }
        if db.contains(e) {
            let ty = choose|ty: S12TypeView|
                #![trigger referenced(mb, mb.len(), ty)]
                referenced(mb, mb.len(), ty) && encoding_of(ty) == e;
            assert(referenced(ma, ma.len(), ty));
        }
    }
    lemma_sorted_list_is_unique(da, db);
}

/// A parser that an error has stopped stays stopped.
proof fn lemma_progress_stops(
    variant: TypeVariant,
    start: Progress,
    members: Seq<MemberInfoView>,
    n: nat,
    m: nat,
)
    requires
        n <= m,
        progress(variant, start, members, n).error is Some,
    ensures
        progress(variant, start, members, m) == progress(variant, start, members, n),
    decreases m,
{
    if n < m {
        lemma_progress_stops(variant, start, members, n, (m - 1) as nat);
    }
}

/// Members of types that have an encoding do not stop a parser, whatever it
/// has seen before.
proof fn lemma_progress_goes_on(
    variant: TypeVariant,
    start: Progress,
    members: Seq<MemberInfoView>,
    n: nat,
)
    requires
        n <= members.len(),
        all_resolved(members, n),
        start.error is None,
    ensures
        progress(variant, start, members, n).error is None,
    decreases n,
{
    if n > 0 {
        lemma_progress_goes_on(variant, start, members, (n - 1) as nat);
        assert(resolved(members[n - 1]));
    }
}

/// A member of a custom type is refused wherever it stands and whatever the
/// parser has seen before, a type of the same name too: a type with such a
/// member has no encoding. Where each member before it is of a type that has
/// an encoding, the error is that custom types are not supported.
pub proof fn lemma_custom_member_is_refused(info: PluginTypeInfoView, st: ParserView, k: int)
    requires
        0 <= k < info.members_info.len(),
        member_type(info.members_info[k]) matches Some(ty) && !is_known(ty),
    ensures
        type_encoding(info, st) is Err,
        all_resolved(info.members_info, k as nat) ==> type_encoding(info, st) == Err::<
            Seq<char>,
            crate::diagnostic::DiagnosticView,
        >(crate::diagnostic::error_of(CUSTOM_TYPE_NOT_SUPPORTED@)),
{
    let start = Progress { state: st, encoded: "\""@ + info.name + "\"("@, error: None };
    let members = info.members_info;
    let before = progress(info.type_variant, start, members, k as nat);
    let after = progress(info.type_variant, start, members, (k + 1) as nat);
    assert(after == if before.error is Some {
        before
    } else {
        member_step(info.type_variant, before, members[k])
    });
    assert(after.error is Some);
    lemma_progress_stops(info.type_variant, start, members, (k + 1) as nat, members.len());
    if all_resolved(members, k as nat) {
        lemma_progress_goes_on(info.type_variant, start, members, k as nat);
    }
}


/// The encodings of the referenced types do not depend on the order of the
/// members: two types whose members are of the same types, all of which have
/// an encoding, are both encoded without an error, and the encodings of the
/// types that they reference are the same list, in the order of strings.
pub proof fn lemma_dependencies_ignore_order(a: PluginTypeInfoView, b: PluginTypeInfoView)
    requires
        all_resolved(a.members_info, a.members_info.len()),
        all_resolved(b.members_info, b.members_info.len()),
        types_among(a.members_info, b.members_info),
        types_among(b.members_info, a.members_info),
    ensures
        parsed_type(a, fresh()).error is None,
        parsed_type(b, fresh()).error is None,
        parsed_type(a, fresh()).state.encoded_types == parsed_type(
            b,
            fresh(),
        ).state.encoded_types,
        strictly_sorted(parsed_type(a, fresh()).state.encoded_types),
{
    let start_a = Progress { state: fresh(), encoded: "\""@ + a.name + "\"("@, error: None };
    let start_b = Progress { state: fresh(), encoded: "\""@ + b.name + "\"("@, error: None };
    lemma_progress_gathers(a.type_variant, start_a, a.members_info, a.members_info.len());
    lemma_progress_gathers(b.type_variant, start_b, b.members_info, b.members_info.len());
    lemma_progress_keeps_order(a.type_variant, start_a, a.members_info, a.members_info.len());
    lemma_same_references(a.members_info, b.members_info);
    lemma_gathered_lists_equal(
        parsed_type(a, fresh()).state,
        parsed_type(b, fresh()).state,
        a.members_info,
        b.members_info,
    );
}

} // verus!
