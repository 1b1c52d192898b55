//! The encoding of a struct or an enum as a SNIP-12 type.

use vstd::prelude::*;
use crate::diagnostic::{error_of, Diagnostic, DiagnosticView};
use crate::pattern::{
    captures,
    group,
    group_of,
    group_view,
    groups_view,
    regex_captures,
};
use crate::type_hash::diagnostics::errors::EMPTY_TYPE_FOUND;
use crate::type_hash::types::{
    encoded_ref_type,
    inner_types,
    preset_encoded_type,
    preset_type_name,
    snip12_type_name,
    text_result,
    type_of_name,
    PresetType,
    S12Type,
    S12TypeView,
};
use crate::text::{
    chars_equal,
    chars_less,
    chars_of,
    join,
    join_strings,
    lex_less,
    push_line,
    push_str,
    str_equal,
    string_of,
    trim,
    trimmed,
};

verus! {

/// Whether a type is a struct or an enum.
#[derive(Clone, Copy, Debug, PartialEq, Eq, Structural)]
pub enum TypeVariant {
    Enum,
    Struct,
}

/// A member of a struct or a variant of an enum: its name, its type as
/// written, and the text of each of its attributes.
#[derive(Clone, Debug, PartialEq, Eq)]
pub struct MemberInfo {
    pub name: String,
    pub ty: String,
    pub attributes: Vec<String>,
}

/// The model of a [`MemberInfo`].
pub struct MemberInfoView {
    pub name: Seq<char>,
    pub ty: Seq<char>,
    pub attributes: Seq<Seq<char>>,
}

impl DeepView for MemberInfo {
    type V = MemberInfoView;

    open spec fn deep_view(&self) -> MemberInfoView {
        MemberInfoView {
            name: self.name@,
            ty: self.ty@,
            attributes: self.attributes.deep_view(),
        }
    }
}

/// A struct or an enum as the derive reads it: its name, its members or
/// variants in the order of their declaration, and which of the two it is.
#[derive(Clone, Debug, PartialEq, Eq)]
pub struct PluginTypeInfo {
    pub name: String,
    pub members_info: Vec<MemberInfo>,
    pub type_variant: TypeVariant,
}

/// The model of a [`PluginTypeInfo`].
pub struct PluginTypeInfoView {
    pub name: Seq<char>,
    pub members_info: Seq<MemberInfoView>,
    pub type_variant: TypeVariant,
}

impl DeepView for PluginTypeInfo {
    type V = PluginTypeInfoView;

    open spec fn deep_view(&self) -> PluginTypeInfoView {
        PluginTypeInfoView {
            name: self.name@,
            members_info: self.members_info.deep_view(),
            type_variant: self.type_variant,
        }
    }
}

/// The pattern of an attribute that overrides the name or the kind of a
/// member: `#[snip12(..)]`, with its arguments as group 1.
pub const SNIP12_ATTRIBUTE_PATTERN: &'static str = "^\\#\\[snip12\\((.*)\\)\\]$";

/// The pattern of the arguments `name: ".."`, `kind: ".."`, in this order.
pub const NAME_AND_KIND_PATTERN: &'static str = "^name: \"(.*)\", kind: \"(.*)\"$";

/// The pattern of the arguments `kind: ".."`, `name: ".."`, in this order.
pub const KIND_AND_NAME_PATTERN: &'static str = "^kind: \"(.*)\", name: \"(.*)\"$";

/// The pattern of the single argument `name: ".."`.
pub const NAME_PATTERN: &'static str = "^name: \"(.*)\"$";

/// The pattern of the single argument `kind: ".."`.
pub const KIND_PATTERN: &'static str = "^kind: \"(.*)\"$";

/// The name and the kind that the arguments of an attribute give, from what
/// the four patterns capture in them: the first pattern that matches
/// decides, in the order name and kind, kind and name, name alone, kind
/// alone. Where none matches, the arguments give neither.
pub open spec fn selected_arguments(
    name_and_kind: Option<Seq<Option<Seq<char>>>>,
    kind_and_name: Option<Seq<Option<Seq<char>>>>,
    name: Option<Seq<Option<Seq<char>>>>,
    kind: Option<Seq<Option<Seq<char>>>>,
) -> (Option<Seq<char>>, Option<Seq<char>>) {
    match name_and_kind {
        Some(groups) => (group(groups, 1), group(groups, 2)),
        None => match kind_and_name {
            Some(groups) => (group(groups, 2), group(groups, 1)),
            None => match name {
                Some(groups) => (group(groups, 1), None),
                None => match kind {
                    Some(groups) => (None, group(groups, 1)),
                    None => (None, None),
                },
            },
        },
    }
}

/// The model of the groups of a match that may be missing.
pub open spec fn match_view(m: Option<Vec<Option<String>>>) -> Option<Seq<Option<Seq<char>>>> {
    match m {
        Some(groups) => Some(groups_view(groups)),
        None => None,
    }
}

/// The model of a name and a kind.
pub open spec fn pair_view(p: (Option<String>, Option<String>)) -> (
    Option<Seq<char>>,
    Option<Seq<char>>,
) {
    (group_view(p.0), group_view(p.1))
}

/// Picks the name and the kind from what the four patterns capture in the
/// arguments of an attribute.
pub fn select_arguments(
    name_and_kind: &Option<Vec<Option<String>>>,
    kind_and_name: &Option<Vec<Option<String>>>,
    name: &Option<Vec<Option<String>>>,
    kind: &Option<Vec<Option<String>>>,
) -> (r: (Option<String>, Option<String>))
    ensures
        pair_view(r) == selected_arguments(
            match_view(*name_and_kind),
            match_view(*kind_and_name),
            match_view(*name),
            match_view(*kind),
        ),
{
    if let Some(groups) = name_and_kind {
        (group_of(groups, 1), group_of(groups, 2))
    } else if let Some(groups) = kind_and_name {
        (group_of(groups, 2), group_of(groups, 1))
    } else if let Some(groups) = name {
        (group_of(groups, 1), None)
    } else if let Some(groups) = kind {
        (None, group_of(groups, 1))
    } else {
        (None, None)
    }
}

/// What a pattern captures in a text: nothing where it does not match, and
/// nothing where it is no valid pattern.
pub open spec fn captured(pattern: Seq<char>, text: Seq<char>) -> Option<Seq<Option<Seq<char>>>> {
    match regex_captures(pattern, text) {
        Some(Some(groups)) => Some(groups),
        _ => None,
    }
}

/// What a pattern captures in a text.
fn capture(pattern: &str, text: &str) -> (r: Option<Vec<Option<String>>>)
    ensures
        match_view(r) == captured(pattern@, text@),
{
    match captures(pattern, text) {
        Some(Some(groups)) => Some(groups),
        _ => None,
    }
}

/// The name and the kind that the arguments of a `snip12` attribute give.
pub open spec fn snip12_arguments(arguments: Seq<char>) -> (Option<Seq<char>>, Option<Seq<char>>) {
    selected_arguments(
        captured(NAME_AND_KIND_PATTERN@, arguments),
        captured(KIND_AND_NAME_PATTERN@, arguments),
        captured(NAME_PATTERN@, arguments),
        captured(KIND_PATTERN@, arguments),
    )
}

/// Reads the name and the kind from the arguments of a `snip12` attribute,
/// which are of one of the forms
///
/// ```text
/// name: "<name>", kind: "<kind>"
/// kind: "<kind>", name: "<name>"
/// name: "<name>"
/// kind: "<kind>"
/// ```
pub fn parse_snip12_attribute_arguments(arguments: &str) -> (r: (Option<String>, Option<String>))
    ensures
        pair_view(r) == snip12_arguments(arguments@),
{
    let name_and_kind = capture(NAME_AND_KIND_PATTERN, arguments);
    let kind_and_name = capture(KIND_AND_NAME_PATTERN, arguments);
    let name = capture(NAME_PATTERN, arguments);
    let kind = capture(KIND_PATTERN, arguments);
    select_arguments(&name_and_kind, &kind_and_name, &name, &kind)
}

/// The name and the kind that one attribute gives, where it is a `snip12`
/// attribute.
pub open spec fn attribute_override(attribute: Seq<char>) -> Option<
    (Option<Seq<char>>, Option<Seq<char>>),
> {
    match captured(SNIP12_ATTRIBUTE_PATTERN@, attribute) {
        Some(groups) => match group(groups, 1) {
            Some(arguments) => Some(snip12_arguments(arguments)),
            None => Some((None, None)),
        },
        None => None,
    }
}

/// The name and the kind that the first `snip12` attribute among the first
/// `n` attributes gives; neither where there is no such attribute.
pub open spec fn override_among(attributes: Seq<Seq<char>>, n: nat) -> Option<
    (Option<Seq<char>>, Option<Seq<char>>),
>
    decreases n,
{
    if n == 0 {
        None
    } else {
        match override_among(attributes, (n - 1) as nat) {
            Some(found) => Some(found),
            None => attribute_override(attributes[n - 1]),
        }
    }
}

/// The name and the kind that the attributes of a member give.
pub open spec fn name_and_type_of(attributes: Seq<Seq<char>>) -> (
    Option<Seq<char>>,
    Option<Seq<char>>,
) {
    match override_among(attributes, attributes.len()) {
        Some(found) => found,
        None => (None, None),
    }
}

/// Once a `snip12` attribute is found among the first attributes, it is the
/// one found among any more of them.
proof fn lemma_override_found(attributes: Seq<Seq<char>>, n: nat, m: nat)
    requires
        n <= m,
        override_among(attributes, n) is Some,
    ensures
        override_among(attributes, m) == override_among(attributes, n),
    decreases m,
{
    if n < m {
        lemma_override_found(attributes, n, (m - 1) as nat);
    }
}

/// Reads the name and the kind that the attributes of a member give: those
/// of its first attribute of the form `#[snip12(..)]`.
pub fn get_name_and_type_from_attributes(attributes: &Vec<String>) -> (r: (
    Option<String>,
    Option<String>,
))
    ensures
        pair_view(r) == name_and_type_of(attributes.deep_view()),
{
    let mut i: usize = 0;
    while i < attributes.len()
        invariant
            i <= attributes.len(),
            override_among(attributes.deep_view(), i as nat) is None,
        decreases attributes.len() - i,
    {
        match capture(SNIP12_ATTRIBUTE_PATTERN, attributes[i].as_str()) {
            Some(groups) => {
                let found = match group_of(&groups, 1) {
                    Some(arguments) => parse_snip12_attribute_arguments(arguments.as_str()),
                    None => (None, None),
                };
                proof {
                    assert(attributes.deep_view()[i as int] == attributes[i as int]@);
                    assert(override_among(attributes.deep_view(), (i + 1) as nat) == Some(
                        pair_view(found),
                    ));
                    lemma_override_found(
                        attributes.deep_view(),
                        (i + 1) as nat,
                        attributes.len() as nat,
                    );
                }
                return found;
            },
            None => {
                assert(attributes.deep_view()[i as int] == attributes[i as int]@);
            },
        }
        i += 1;
    }
    (None, None)
}

/// Whether `c` opens a nesting: a parenthesis, an angle or a bracket.
pub open spec fn is_opener(c: char) -> bool {
    c == '(' || c == '<' || c == '['
}

/// Whether `c` closes a nesting.
pub open spec fn is_closer(c: char) -> bool {
    c == ')' || c == '>' || c == ']'
}

/// How deep the nesting is behind the first `n` characters of `s`: the
/// number of openers among them less the number of closers.
pub open spec fn depth_at(s: Seq<char>, n: int) -> int
    decreases n,
{
    if n <= 0 || n > s.len() {
        0
    } else {
        depth_at(s, n - 1) + if is_opener(s[n - 1]) {
            1int
        } else if is_closer(s[n - 1]) {
            -1int
        } else {
            0int
        }
    }
}

/// Whether a comma that parts two types stands at `i`: one outside of any
/// nesting.
pub open spec fn is_top_comma(s: Seq<char>, i: int) -> bool {
    0 <= i < s.len() && s[i] == ',' && depth_at(s, i) == 0
}

/// Where the type begins that is not yet ended behind the first `n`
/// characters: behind the last parting comma among them.
pub open spec fn segment_start(s: Seq<char>, n: int) -> int
    decreases n,
{
    if n <= 0 || n > s.len() {
        0
    } else if is_top_comma(s, n - 1) {
        n
    } else {
        segment_start(s, n - 1)
    }
}

/// The types that are ended by a parting comma among the first `n`
/// characters, each without the white space around it.
pub open spec fn segments(s: Seq<char>, n: int) -> Seq<Seq<char>>
    decreases n,
{
    if n <= 0 || n > s.len() {
        Seq::empty()
    } else if is_top_comma(s, n - 1) {
        segments(s, n - 1).push(trim(s.subrange(segment_start(s, n - 1), n - 1)))
    } else {
        segments(s, n - 1)
    }
}

/// The types of a list: the parts of `s` between the commas that stand
/// outside of any nesting, each without the white space around it. Nothing
/// follows a comma at the very end.
pub open spec fn split_types_of(s: Seq<char>) -> Seq<Seq<char>> {
    let n = s.len() as int;
    let start = segment_start(s, n);
    if start < n {
        segments(s, n).push(trim(s.subrange(start, n)))
    } else {
        segments(s, n)
    }
}

/// The depth of the nesting is bounded by the number of characters read, and
/// the type that is not yet ended begins among them.
proof fn lemma_depth_bounds(s: Seq<char>, n: int)
    requires
        0 <= n <= s.len(),
    ensures
        -n <= depth_at(s, n) <= n,
        0 <= segment_start(s, n) <= n,
    decreases n,
{
    if n > 0 {
        lemma_depth_bounds(s, n - 1);
    }
}

/// Splits a list of types at the commas that stand outside of any nesting,
/// so that a tuple or a generic type among them stays whole.
pub fn split_types(s: &Vec<char>) -> (r: Vec<String>)
    ensures
        r.deep_view() == split_types_of(s@),
{
    let mut result: Vec<String> = Vec::new();
    assert(result.deep_view() =~= Seq::<Seq<char>>::empty());
    let mut depth: i128 = 0;
    let mut start: usize = 0;
    let mut i: usize = 0;
    while i < s.len()
        invariant
            i <= s.len(),
            depth == depth_at(s@, i as int),
            start == segment_start(s@, i as int),
            start <= i,
            result.deep_view() == segments(s@, i as int),
        decreases s.len() - i,
    {
        proof {
            lemma_depth_bounds(s@, i as int);
        }
        let c = s[i];
        if c == '(' || c == '<' || c == '[' {
            depth = depth + 1;
        } else if c == ')' || c == '>' || c == ']' {
            depth = depth - 1;
        } else if c == ',' && depth == 0 {
            let part = trimmed(s, start, i);
            push_line(&mut result, string_of(&part));
            start = i + 1;
        }
        i += 1;
    }
    if start < s.len() {
        let part = trimmed(s, start, s.len());
        push_line(&mut result, string_of(&part));
    }
    result
}

/// The given texts, each in double quotes.
pub open spec fn quoted_all(parts: Seq<Seq<char>>) -> Seq<Seq<char>> {
    Seq::new(parts.len(), |i: int| "\""@ + parts[i] + "\""@)
}

/// How the type of a variant is written in the encoding of an enum: a tuple
/// gives the list of its types, each without white space around it and in
/// quotes, with commas between them; any other type gives itself in quotes.
pub open spec fn tuple_encoding(s: Seq<char>) -> Seq<char> {
    if s.len() >= 2 && s[0] == '(' && s.last() == ')' {
        join(quoted_all(split_types_of(s.subrange(1, s.len() - 1))), ","@)
    } else {
        "\""@ + s + "\""@
    }
}

/// Writes the type of a variant for the encoding of an enum.
///
/// `(felt252, felt252, ClassHash, NftId)` gives
/// `"felt252","felt252","ClassHash","NftId"`.
pub fn maybe_tuple(s: &str) -> (r: String)
    ensures
        r@ == tuple_encoding(s@),
{
    let chars = chars_of(s);
    if chars.len() >= 2 && chars[0] == '(' && chars[chars.len() - 1] == ')' {
        let mut inner: Vec<char> = Vec::new();
        crate::text::push_range(&mut inner, &chars, 1, chars.len() - 1);
        let parts = split_types(&inner);
        let mut quoted: Vec<String> = Vec::new();
        assert(quoted.deep_view() =~= Seq::<Seq<char>>::empty());
        let mut i: usize = 0;
        while i < parts.len()
            invariant
                i <= parts.len(),
                quoted.deep_view() == quoted_all(parts.deep_view()).take(i as int),
            decreases parts.len() - i,
        {
            let mut part = String::from_str("\"");
            part.append(parts[i].as_str());
            part.append("\"");
            let ghost before = quoted.deep_view();
            push_line(&mut quoted, part);
            assert(quoted.deep_view() =~= quoted_all(parts.deep_view()).take(i + 1));
            i += 1;
        }
        assert(quoted.deep_view() =~= quoted_all(parts.deep_view()));
        join_strings(&quoted, ",")
    } else {
        let mut out = String::from_str("\"");
        out.append(s);
        out.append("\"");
        out
    }
}

/// The first position from `k` on whose text does not come before `x`.
pub open spec fn insert_position(d: Seq<Seq<char>>, x: Seq<char>, k: int) -> int
    decreases d.len() - k,
{
    if 0 <= k < d.len() && lex_less(d[k], x) {
        insert_position(d, x, k + 1)
    } else {
        k
    }
}

/// The list `d` with `x` put where the order of strings has it, unless `x`
/// stands there already.
pub open spec fn sorted_insert(d: Seq<Seq<char>>, x: Seq<char>) -> Seq<Seq<char>> {
    let k = insert_position(d, x, 0);
    if 0 <= k < d.len() && d[k] == x {
        d
    } else if 0 <= k <= d.len() {
        d.insert(k, x)
    } else {
        d
    }
}

/// Puts `x` in the list where the order of strings has it, unless it stands
/// there already.
pub fn insert_sorted(d: &mut Vec<String>, x: String)
    ensures
        final(d).deep_view() == sorted_insert(old(d).deep_view(), x@),
{
    let wanted = chars_of(x.as_str());
    let mut k: usize = 0;
    while k < d.len()
        invariant
            k <= d.len(),
            wanted@ == x@,
            *d == *old(d),
            insert_position(d.deep_view(), x@, 0) == insert_position(d.deep_view(), x@, k as int),
        decreases d.len() - k,
    {
        let here = chars_of(d[k].as_str());
        assert(d.deep_view()[k as int] == here@);
        if !chars_less(&here, &wanted) {
            if !chars_equal(&here, &wanted) {
                let ghost before = d.deep_view();
                d.insert(k, x);
                assert(d.deep_view() =~= before.insert(k as int, x@));
            }
            return ;
        }
        k += 1;
    }
    let ghost before = d.deep_view();
    d.insert(k, x);
    assert(d.deep_view() =~= before.insert(k as int, x@));
}

/// Whether `name` stands in the list.
pub fn contains_name(names: &Vec<String>, name: &str) -> (r: bool)
    ensures
        r == names.deep_view().contains(name@),
{
    let mut i: usize = 0;
    while i < names.len()
        invariant
            i <= names.len(),
            forall|j: int| 0 <= j < i ==> names.deep_view()[j] != name@,
        decreases names.len() - i,
    {
        if str_equal(names[i].as_str(), name) {
            assert(names.deep_view()[i as int] == name@);
            return true;
        }
        i += 1;
    }
    false
}

/// The type of a member: the kind that its attributes give, or else the
/// type it is declared with. The empty name stands for no type.
pub open spec fn member_type(m: MemberInfoView) -> Option<S12TypeView> {
    match name_and_type_of(m.attributes).1 {
        Some(kind) => type_of_name(kind),
        None => type_of_name(m.ty),
    }
}

/// The name of a member in the encoding: the name that its attributes give,
/// or else the name it is declared with.
pub open spec fn member_name(m: MemberInfoView) -> Seq<char> {
    match name_and_type_of(m.attributes).0 {
        Some(name) => name,
        None => m.name,
    }
}

/// The encoding of one member: `"name":"type",` in a struct, and
/// `"name"(types),` in an enum.
pub open spec fn member_encoding(
    variant: TypeVariant,
    name: Seq<char>,
    canonical_name: Seq<char>,
) -> Seq<char> {
    match variant {
        TypeVariant::Struct => "\""@ + name + "\":\""@ + canonical_name + "\","@,
        TypeVariant::Enum => "\""@ + name + "\"("@ + tuple_encoding(canonical_name) + "),"@,
    }
}

/// What a parser has gathered: the names of the types it has seen, and the
/// encodings of the types that are referenced, in the order of strings and
/// each once.
pub struct ParserView {
    pub processed: Seq<Seq<char>>,
    pub encoded_types: Seq<Seq<char>>,
}

/// What a parser has gathered once it has also seen the first `n` of the
/// given inner types: each that it had not seen is noted, and its encoding
/// is put among the referenced ones.
pub open spec fn with_inner_types(st: ParserView, inner: Seq<PresetType>, n: nat) -> ParserView
    decreases n,
{
    if n == 0 {
        st
    } else {
        let before = with_inner_types(st, inner, (n - 1) as nat);
        let name = preset_type_name(inner[n - 1]);
        if before.processed.contains(name) {
            before
        } else {
            ParserView {
                processed: before.processed.push(name),
                encoded_types: sorted_insert(
                    before.encoded_types,
                    preset_encoded_type(inner[n - 1]),
                ),
            }
        }
    }
}

/// How far a parser has come: what it has gathered, the encoding of the
/// members so far, and the error that stopped it, if one did.
pub struct Progress {
    pub state: ParserView,
    pub encoded: Seq<char>,
    pub error: Option<DiagnosticView>,
}

/// What one member adds. A member without a type stops the parser with an
/// error, and so does a member of a type that has no encoding, whether or
/// not a type of that name was seen before. Otherwise the member is encoded;
/// and where its type was not seen before, the encoding of the type is put
/// among the referenced ones, with those of its inner types.
pub open spec fn member_step(variant: TypeVariant, p: Progress, m: MemberInfoView) -> Progress {
    match member_type(m) {
        None => Progress { error: Some(error_of(EMPTY_TYPE_FOUND@)), ..p },
        Some(ty) => {
            let canonical_name = snip12_type_name(ty);
            let encoded = p.encoded + member_encoding(variant, member_name(m), canonical_name);
            match encoded_ref_type(ty) {
                Err(error) => Progress { encoded, error: Some(error), ..p },
                Ok(encoding) => if p.state.processed.contains(canonical_name) {
                    Progress { encoded, ..p }
                } else {
                    Progress {
                        state: with_inner_types(
                            ParserView {
                                processed: p.state.processed.push(canonical_name),
                                encoded_types: sorted_insert(p.state.encoded_types, encoding),
                            },
                            inner_types(ty),
                            inner_types(ty).len(),
                        ),
                        encoded,
                        error: None,
                    }
                },
            }
        },
    }
}

/// How far a parser comes with the first `n` members: it takes them in
/// order and stops at the first error.
pub open spec fn progress(
    variant: TypeVariant,
    start: Progress,
    members: Seq<MemberInfoView>,
    n: nat,
) -> Progress
    decreases n,
{
    if n == 0 {
        start
    } else {
        let before = progress(variant, start, members, (n - 1) as nat);
        if before.error is Some {
            before
        } else {
            member_step(variant, before, members[n - 1])
        }
    }
}

/// `s` without a comma at its end.
pub open spec fn without_last_comma(s: Seq<char>) -> Seq<char> {
    if s.len() > 0 && s.last() == ',' {
        s.drop_last()
    } else {
        s
    }
}

/// How far a parser that has gathered `st` comes with the given type.
pub open spec fn parsed_type(info: PluginTypeInfoView, st: ParserView) -> Progress {
    progress(
        info.type_variant,
        Progress { state: st, encoded: "\""@ + info.name + "\"("@, error: None },
        info.members_info,
        info.members_info.len(),
    )
}

/// The encoding of a type: its name in quotes, then in parentheses its
/// members, with commas between them, then the encodings of the types that
/// are referenced, in the order of strings. Or the error that stopped the
/// parser.
pub open spec fn type_encoding(info: PluginTypeInfoView, st: ParserView) -> Result<
    Seq<char>,
    DiagnosticView,
> {
    let done = parsed_type(info, st);
    match done.error {
        Some(error) => Err(error),
        None => Ok(
            without_last_comma(done.encoded) + ")"@ + crate::text::concat(
                done.state.encoded_types,
            ),
        ),
    }
}

/// Reads the members of a struct or an enum and keeps the types that they
/// reference.
pub struct TypeHashParser<'a> {
    /// The struct or the enum.
    pub plugin_type_info: &'a PluginTypeInfo,
    /// The names of the types that were seen.
    pub is_type_processed: Vec<String>,
    /// The encodings of the types that are referenced, in the order of
    /// strings and each once.
    pub processed_ref_encoded_types: Vec<String>,
}

impl<'a> TypeHashParser<'a> {
    /// What the parser has gathered.
    pub open spec fn gathered(&self) -> ParserView {
        ParserView {
            processed: self.is_type_processed.deep_view(),
            encoded_types: self.processed_ref_encoded_types.deep_view(),
        }
    }

    /// Whether the parser is in order: the encodings of the referenced
    /// types stand in the order of strings, each once.
    pub open spec fn wf(&self) -> bool {
        strictly_sorted(self.processed_ref_encoded_types.deep_view())
    }

    /// A parser for the given struct or enum that has gathered nothing yet.
    pub fn new(plugin_type_info: &'a PluginTypeInfo) -> (r: Self)
        ensures
            r.wf(),
            r.plugin_type_info == plugin_type_info,
            r.gathered() == (ParserView { processed: Seq::empty(), encoded_types: Seq::empty() }),
    {
        let is_type_processed: Vec<String> = Vec::new();
        let processed_ref_encoded_types: Vec<String> = Vec::new();
        assert(is_type_processed.deep_view() =~= Seq::<Seq<char>>::empty());
        assert(processed_ref_encoded_types.deep_view() =~= Seq::<Seq<char>>::empty());
        Self { plugin_type_info, is_type_processed, processed_ref_encoded_types }
    }

    /// Notes the given inner types and puts their encodings among the
    /// referenced ones, each unless it was seen before.
    fn process_inner_types(&mut self, inner: &Vec<PresetType>)
        ensures
            final(self).plugin_type_info == old(self).plugin_type_info,
            final(self).gathered() == with_inner_types(old(self).gathered(), inner@, inner@.len()),
    {
        let mut i: usize = 0;
        while i < inner.len()
            invariant
                i <= inner.len(),
                self.plugin_type_info == old(self).plugin_type_info,
                self.gathered() == with_inner_types(old(self).gathered(), inner@, i as nat),
            decreases inner.len() - i,
        {
            let name = match inner[i].get_snip12_type_name() {
                Ok(name) => name,
                Err(_) => String::new(),
            };
            if !contains_name(&self.is_type_processed, name.as_str()) {
                let encoding = match inner[i].get_encoded_ref_type() {
                    Ok(encoding) => encoding,
                    Err(_) => String::new(),
                };
                insert_sorted(&mut self.processed_ref_encoded_types, encoding);
                push_line(&mut self.is_type_processed, name);
            }
            i += 1;
        }
    }

    /// Takes one member: encodes it behind `encoded_type`, and gathers its
    /// type where that was not seen before. Gives the error that stops the
    /// parser, if the member has one.
    fn process_member(&mut self, member: &MemberInfo, encoded_type: &mut Vec<char>) -> (r: Option<
        Diagnostic,
    >)
        ensures
            final(self).plugin_type_info == old(self).plugin_type_info,
            (Progress {
                state: final(self).gathered(),
                encoded: final(encoded_type)@,
                error: r.deep_view(),
            }) == member_step(
                old(self).plugin_type_info.type_variant,
                Progress { state: old(self).gathered(), encoded: old(encoded_type)@, error: None },
                member.deep_view(),
            ),
    {
        let ghost m = member.deep_view();
        let (attr_name, attr_type) = get_name_and_type_from_attributes(&member.attributes);
        let s12_type = match &attr_type {
            Some(kind) => S12Type::from_str(kind.as_str()),
            None => S12Type::from_str(member.ty.as_str()),
        };
        let s12_type = match s12_type {
            Some(s12_type) => s12_type,
            None => {
                return Some(Diagnostic::error(String::from_str(EMPTY_TYPE_FOUND)));
            },
        };
        let ghost ty = s12_type.deep_view();
        assert(member_type(m) == Some(ty));
        let canonical_name = match s12_type.get_snip12_type_name() {
            Ok(canonical_name) => canonical_name,
            Err(_) => String::new(),
        };
        let name = match attr_name {
            Some(name) => name,
            None => member.name.clone(),
        };
        assert(name@ == member_name(m));
        append_member(
            encoded_type,
            self.plugin_type_info.type_variant,
            name.as_str(),
            canonical_name.as_str(),
        );
        let encoding = match s12_type.get_encoded_ref_type() {
            Ok(encoding) => encoding,
            Err(error) => {
                return Some(error);
            },
        };
        if !contains_name(&self.is_type_processed, canonical_name.as_str()) {
            insert_sorted(&mut self.processed_ref_encoded_types, encoding);
            push_line(&mut self.is_type_processed, canonical_name);
            let inner = s12_type.get_inner_types();
            self.process_inner_types(&inner);
        }
        None
    }

    /// Encodes the struct or the enum.
    ///
    /// Gives the encoding of the type, followed by the encodings of the
    /// types that it references, or the error of the first member that has
    /// no type or is of a type without an encoding.
    pub fn parse(&mut self) -> (r: Result<String, Diagnostic>)
        ensures
            old(self).wf() ==> final(self).wf(),
            final(self).plugin_type_info == old(self).plugin_type_info,
            final(self).gathered() == parsed_type(
                old(self).plugin_type_info.deep_view(),
                old(self).gathered(),
            ).state,
            text_result(r) == type_encoding(
                old(self).plugin_type_info.deep_view(),
                old(self).gathered(),
            ),
    {
        let info = self.plugin_type_info;
        let ghost variant = info.type_variant;
        let ghost members = info.members_info.deep_view();
        let ghost start = Progress {
            state: self.gathered(),
            encoded: "\""@ + info.name@ + "\"("@,
            error: None,
        };
        proof {
            if self.wf() {
                lemma_progress_keeps_order(variant, start, members, members.len());
            }
        }
        let mut encoded_type: Vec<char> = Vec::new();
        push_str(&mut encoded_type, "\"");
        push_str(&mut encoded_type, info.name.as_str());
        push_str(&mut encoded_type, "\"(");
        let mut i: usize = 0;
        while i < info.members_info.len()
            invariant
                i <= info.members_info.len(),
                info == self.plugin_type_info,
                self.plugin_type_info == old(self).plugin_type_info,
                variant == info.type_variant,
                members == info.members_info.deep_view(),
                members == old(self).plugin_type_info.deep_view().members_info,
                old(self).wf() ==> strictly_sorted(
                    progress(variant, start, members, members.len()).state.encoded_types,
                ),
                start == (Progress {
                    state: old(self).gathered(),
                    encoded: "\""@ + info.name@ + "\"("@,
                    error: None,
                }),
                progress(variant, start, members, i as nat) == (Progress {
                    state: self.gathered(),
                    encoded: encoded_type@,
                    error: None,
                }),
            decreases info.members_info.len() - i,
        {
            let member = &info.members_info[i];
            assert(members[i as int] == member.deep_view());
            let ghost before = progress(variant, start, members, i as nat);
            match self.process_member(member, &mut encoded_type) {
                Some(error) => {
                    proof {
                        let stopped = progress(variant, start, members, (i + 1) as nat);
                        assert(stopped == member_step(variant, before, members[i as int]));
                        assert(stopped.error == Some(error.deep_view()));
                        lemma_progress_stops(
                            variant,
                            start,
                            members,
                            (i + 1) as nat,
                            members.len(),
                        );
                    }
                    return Err(error);
                },
                None => {},
            }
            i += 1;
        }
        finish_encoding(encoded_type, &self.processed_ref_encoded_types)
    }
}

/// Appends the encoding of one member.
fn append_member(
    encoded_type: &mut Vec<char>,
    variant: TypeVariant,
    name: &str,
    canonical_name: &str,
)
    ensures
        final(encoded_type)@ == old(encoded_type)@ + member_encoding(
            variant,
            name@,
            canonical_name@,
        ),
{
    push_str(encoded_type, "\"");
    push_str(encoded_type, name);
    match variant {
        TypeVariant::Struct => {
            push_str(encoded_type, "\":\"");
            push_str(encoded_type, canonical_name);
            push_str(encoded_type, "\",");
        },
        TypeVariant::Enum => {
            push_str(encoded_type, "\"(");
            push_str(encoded_type, maybe_tuple(canonical_name).as_str());
            push_str(encoded_type, "),");
        },
    }
}

/// Closes the encoding of the members and appends the encodings of the
/// referenced types.
fn finish_encoding(encoded_type: Vec<char>, encoded_types: &Vec<String>) -> (r: Result<
    String,
    Diagnostic,
>)
    ensures
        text_result(r) == Ok::<Seq<char>, DiagnosticView>(
            without_last_comma(encoded_type@) + ")"@ + crate::text::concat(
                encoded_types.deep_view(),
            ),
        ),
{
    let mut encoded_type = encoded_type;
    if encoded_type.len() > 0 && encoded_type[encoded_type.len() - 1] == ',' {
        encoded_type.pop();
    }
    push_str(&mut encoded_type, ")");
    let ghost head = encoded_type@;
    let mut k: usize = 0;
    while k < encoded_types.len()
        invariant
            k <= encoded_types.len(),
            encoded_type@ == head + crate::text::concat(encoded_types.deep_view().take(k as int)),
        decreases encoded_types.len() - k,
    {
        proof {
            let all = encoded_types.deep_view();
            assert(all.take(k + 1).drop_last() == all.take(k as int));
            assert(all.take(k + 1).last() == encoded_types[k as int]@);
        }
        push_str(&mut encoded_type, encoded_types[k].as_str());
        k += 1;
    }
    assert(encoded_types.deep_view().take(encoded_types.len() as int)
        == encoded_types.deep_view());
    Ok(string_of(&encoded_type))
}

/// A parser that was stopped by an error stays where it is.
proof fn lemma_progress_stops(
    variant: TypeVariant,
    start: Progress,
    members: Seq<MemberInfoView>,
    n: nat,
    m: nat,
)
    requires
        n <= m,
        progress(variant, start, members, n).error is Some,
    ensures
        progress(variant, start, members, m) == progress(variant, start, members, n),
    decreases m,
{
    if n < m {
        lemma_progress_stops(variant, start, members, n, (m - 1) as nat);
    }
}

/// The order of strings has no text before itself.
pub proof fn lemma_lex_less_irreflexive(a: Seq<char>)
    ensures
        !lex_less(a, a),
    decreases a.len(),
{
    if a.len() > 0 {
        lemma_lex_less_irreflexive(a.drop_first());
    }
}

/// Of two different texts one comes before the other in the order of
/// strings, and not both do.
pub proof fn lemma_lex_less_total(a: Seq<char>, b: Seq<char>)
    ensures
        a != b ==> (lex_less(a, b) != lex_less(b, a)),
        a == b ==> !lex_less(a, b),
    decreases a.len(),
{
    if a == b {
        lemma_lex_less_irreflexive(a);
    } else if a.len() > 0 && b.len() > 0 && a[0] == b[0] {
        lemma_lex_less_total(a.drop_first(), b.drop_first());
        if a.drop_first() == b.drop_first() {
            assert(a =~= seq![a[0]] + a.drop_first());
            assert(b =~= seq![b[0]] + b.drop_first());
        }
    } else if a.len() == 0 {
        assert(b.len() > 0) by {
            if b.len() == 0 {
                assert(a =~= b);
            }
        }
    }
}

/// The order of strings is transitive.
pub proof fn lemma_lex_less_transitive(a: Seq<char>, b: Seq<char>, c: Seq<char>)
    requires
        lex_less(a, b),
        lex_less(b, c),
    ensures
        lex_less(a, c),
    decreases a.len(),
{
    if a.len() > 0 && b.len() > 0 && c.len() > 0 && a[0] == b[0] && b[0] == c[0] {
        lemma_lex_less_transitive(a.drop_first(), b.drop_first(), c.drop_first());
    }
}

/// Whether each text of the list comes before the next in the order of
/// strings, so that the list is in order and holds no text twice.
pub open spec fn strictly_sorted(d: Seq<Seq<char>>) -> bool {
    forall|i: int, j: int| 0 <= i < j < d.len() ==> lex_less(#[trigger] d[i], #[trigger] d[j])
}

/// Where a text is put: behind the texts that come before it, and in front of
/// one that does not.
proof fn lemma_insert_position(d: Seq<Seq<char>>, x: Seq<char>, k: int)
    requires
        0 <= k <= d.len(),
    ensures
        k <= insert_position(d, x, k) <= d.len(),
        forall|j: int| k <= j < insert_position(d, x, k) ==> lex_less(#[trigger] d[j], x),
        insert_position(d, x, k) < d.len() ==> !lex_less(d[insert_position(d, x, k)], x),
    decreases d.len() - k,
{
    if k < d.len() && lex_less(d[k], x) {
        lemma_insert_position(d, x, k + 1);
    }
}

/// A list that is in order and holds no text twice stays so when a text is
/// put in it, and then holds that text beside those it held.
pub proof fn lemma_sorted_insert_keeps_order(d: Seq<Seq<char>>, x: Seq<char>)
    requires
        strictly_sorted(d),
    ensures
        strictly_sorted(sorted_insert(d, x)),
        sorted_insert(d, x).contains(x),
        forall|y: Seq<char>| d.contains(y) ==> sorted_insert(d, x).contains(y),
        forall|y: Seq<char>| sorted_insert(d, x).contains(y) ==> y == x || d.contains(y),
{
    lemma_insert_position(d, x, 0);
    let k = insert_position(d, x, 0);
    let r = sorted_insert(d, x);
    if k < d.len() && d[k] == x {
        assert(r[k] == x);
    } else {
        assert(r == d.insert(k, x));
        assert(r[k] == x);
        assert forall|i: int, j: int| 0 <= i < j < r.len() implies lex_less(
            #[trigger] r[i],
            #[trigger] r[j],
        ) by {
            if j < k {
                assert(r[i] == d[i] && r[j] == d[j]);
            } else if j == k {
                assert(r[i] == d[i]);
            } else if i == k {
                assert(r[j] == d[j - 1]);
                lemma_lex_less_total(d[k], x);
                if j - 1 > k {
                    assert(lex_less(d[k], d[j - 1]));
                    lemma_lex_less_transitive(x, d[k], d[j - 1]);
                }
            } else if i < k {
                assert(r[i] == d[i] && r[j] == d[j - 1]);
            } else {
                assert(r[i] == d[i - 1] && r[j] == d[j - 1]);
            }
        }
        assert forall|y: Seq<char>| d.contains(y) implies r.contains(y) by {
            let i = choose|i: int| 0 <= i < d.len() && d[i] == y;
            if i < k {
                assert(r[i] == y);
            } else {
                assert(r[i + 1] == y);
            }
        }
        assert forall|y: Seq<char>| r.contains(y) implies y == x || d.contains(y) by {
            let i = choose|i: int| 0 <= i < r.len() && r[i] == y;
            if i < k {
                assert(d[i] == y);
            } else if i > k {
                assert(d[i - 1] == y);
            }
        }
    }
}

/// Two different encodings come out in the order of strings, whichever
/// is referenced first.
pub proof fn lemma_two_encodings_order(a: Seq<char>, b: Seq<char>)
    requires
        a != b,
    ensures
        sorted_insert(sorted_insert(Seq::empty(), a), b) == sorted_insert(
            sorted_insert(Seq::empty(), b),
            a,
        ),
        sorted_insert(sorted_insert(Seq::empty(), a), b) == if lex_less(a, b) {
            seq![a, b]
        } else {
            seq![b, a]
        },
{
    lemma_lex_less_total(a, b);
    let e = Seq::<Seq<char>>::empty();
    let first = sorted_insert(e, a);
    assert(insert_position(e, a, 0) == 0);
    assert(first =~= seq![a]);
    let second = sorted_insert(e, b);
    assert(insert_position(e, b, 0) == 0);
    assert(second =~= seq![b]);
    if lex_less(a, b) {
        assert(insert_position(first, b, 1) == 1);
        assert(insert_position(first, b, 0) == 1);
        assert(sorted_insert(first, b) =~= seq![a, b]);
        assert(insert_position(second, a, 0) == 0);
        assert(sorted_insert(second, a) =~= seq![a, b]);
    } else {
        assert(insert_position(first, b, 0) == 0);
        assert(sorted_insert(first, b) =~= seq![b, a]);
        assert(insert_position(second, a, 1) == 1);
        assert(insert_position(second, a, 0) == 1);
        assert(sorted_insert(second, a) =~= seq![b, a]);
    }
}

/// What a parser gathers stays in order: where the encodings of the
/// referenced types were in the order of strings, each once, they are so
/// after any number of members.
pub proof fn lemma_progress_keeps_order(
    variant: TypeVariant,
    start: Progress,
    members: Seq<MemberInfoView>,
    n: nat,
)
    requires
        strictly_sorted(start.state.encoded_types),
    ensures
        strictly_sorted(progress(variant, start, members, n).state.encoded_types),
    decreases n,
{
    if n > 0 {
        lemma_progress_keeps_order(variant, start, members, (n - 1) as nat);
        let before = progress(variant, start, members, (n - 1) as nat);
        if before.error is None {
            let m = members[n - 1];
            match member_type(m) {
                None => {},
                Some(ty) => {
                    if !before.state.processed.contains(snip12_type_name(ty)) {
                        match encoded_ref_type(ty) {
                            Err(_) => {},
                            Ok(encoding) => {
                                lemma_sorted_insert_keeps_order(
                                    before.state.encoded_types,
                                    encoding,
                                );
                                let st = ParserView {
                                    processed: before.state.processed.push(snip12_type_name(ty)),
                                    encoded_types: sorted_insert(
                                        before.state.encoded_types,
                                        encoding,
                                    ),
                                };
                                lemma_inner_types_keep_order(
                                    st,
                                    inner_types(ty),
                                    inner_types(ty).len(),
                                );
                            },
                        }
                    }
                },
            }
        }
    }
}

/// The encodings stay in order when inner types are noted.
proof fn lemma_inner_types_keep_order(st: ParserView, inner: Seq<PresetType>, n: nat)
    requires
        strictly_sorted(st.encoded_types),
    ensures
        strictly_sorted(with_inner_types(st, inner, n).encoded_types),
    decreases n,
{
    if n > 0 {
        lemma_inner_types_keep_order(st, inner, (n - 1) as nat);
        let before = with_inner_types(st, inner, (n - 1) as nat);
        lemma_sorted_insert_keeps_order(
            before.encoded_types,
            preset_encoded_type(inner[n - 1]),
        );
    }
}

} // verus!
