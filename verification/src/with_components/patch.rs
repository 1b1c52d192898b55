//! The structural edit that installs components in a contract module.
//!
//! The edit is a list of insertions, each a text put before one node of the
//! syntax tree. The result is the text of the tree with the insertions in
//! their places; the text of the tree itself is not changed.

use vstd::prelude::*;
use crate::constants::{EVENT_ENUM_NAME, STORAGE_STRUCT_NAME};
use crate::diagnostic::{error_of, Diagnostic, DiagnosticView};
use crate::syntax::{
    child,
    subtree_end,
    child_count,
    child_of,
    child_of_kind,
    children_of,
    find_child_of_kind,
    find_first_item,
    first_item,
    has_kind,
    push_text_range,
    terminal_text,
    text_of_terminal,
    text_range,
    tree_text,
    SyntaxEntry,
    Tree,
};
use crate::text::{chars_equal, chars_of, contains, occurs_at, push_str, string_of};
use crate::with_components::components::{ComponentInfo, ComponentInfoView};
use crate::with_components::diagnostics::errors::NO_BODY;
use crate::with_components::generation::{
    event_enum_text,
    module_text,
    new_event_enum_text,
    new_storage_struct_text,
    storage_struct_text,
    ComponentsGenerationData,
};
use crate::with_components::validation::{
    find_module_body,
    have_config_paths,
    is_contract_module,
    module_body,
    validate_contract_module,
    validation,
};

verus! {

/// A text to put in front of the node at `at`.
#[derive(Clone, Debug, PartialEq, Eq)]
pub struct Insertion {
    pub at: usize,
    pub text: String,
}

/// The model of an [`Insertion`].
pub struct InsertionView {
    pub at: int,
    pub text: Seq<char>,
}

impl DeepView for Insertion {
    type V = InsertionView;

    open spec fn deep_view(&self) -> InsertionView {
        InsertionView { at: self.at as int, text: self.text@ }
    }
}

/// How far the text of the tree is written once the first `m` insertions
/// are: up to the node of the last insertion that lies ahead.
pub open spec fn cursor(t: Tree, patch: Seq<InsertionView>, m: nat) -> int
    decreases m,
{
    if m == 0 {
        0
    } else {
        let before = cursor(t, patch, (m - 1) as nat);
        let at = patch[m - 1].at;
        if before <= at <= t.len() {
            at
        } else {
            before
        }
    }
}

/// The text written up to and with the first `m` insertions: before each
/// insertion comes the text of the tree up to its node.
pub open spec fn rendered_prefix(t: Tree, patch: Seq<InsertionView>, m: nat) -> Seq<char>
    decreases m,
{
    if m == 0 {
        Seq::empty()
    } else {
        rendered_prefix(t, patch, (m - 1) as nat) + text_range(
            t,
            cursor(t, patch, (m - 1) as nat),
            patch[m - 1].at,
        ) + patch[m - 1].text
    }
}

/// The text of the tree with the insertions in their places.
pub open spec fn rendered(t: Tree, patch: Seq<InsertionView>) -> Seq<char> {
    rendered_prefix(t, patch, patch.len()) + text_range(
        t,
        cursor(t, patch, patch.len()),
        t.len() as int,
    )
}

/// Writes the text of the tree with the insertions in their places.
pub fn render(tree: &Vec<SyntaxEntry>, patch: &Vec<Insertion>) -> (r: Vec<char>)
    ensures
        r@ == rendered(tree.deep_view(), patch.deep_view()),
{
    let mut out: Vec<char> = Vec::new();
    let mut from: usize = 0;
    let mut m: usize = 0;
    while m < patch.len()
        invariant
            m <= patch.len(),
            from <= tree.len(),
            from == cursor(tree.deep_view(), patch.deep_view(), m as nat),
            out@ == rendered_prefix(tree.deep_view(), patch.deep_view(), m as nat),
        decreases patch.len() - m,
    {
        let at = patch[m].at;
        assert(patch.deep_view()[m as int].at == at);
        assert(patch.deep_view()[m as int].text == patch[m as int].text@);
        if from <= at && at <= tree.len() {
            push_text_range(&mut out, tree, from, at);
            from = at;
        } else {
            assert(text_range(tree.deep_view(), from as int, at as int) == Seq::<char>::empty());
            assert(out@ + Seq::<char>::empty() == out@);
        }
        push_str(&mut out, patch[m].text.as_str());
        m += 1;
    }
    push_text_range(&mut out, tree, from, tree.len());
    out
}

/// The text between two nodes is the text up to a node between them and the
/// text from there on.
pub proof fn lemma_text_range_split(t: Tree, a: int, b: int, c: int)
    requires
        0 <= a <= b <= c <= t.len(),
    ensures
        text_range(t, a, c) == text_range(t, a, b) + text_range(t, b, c),
    decreases c - b,
{
    if b < c {
        lemma_text_range_split(t, a, b, c - 1);
        assert(text_range(t, a, c) == text_range(t, a, c - 1) + t[c - 1].text);
        assert(text_range(t, b, c) == text_range(t, b, c - 1) + t[c - 1].text);
    } else {
        assert(text_range(t, b, c) == Seq::<char>::empty());
    }
}

/// The insertions of `patch` with nothing to insert.
pub open spec fn blank(patch: Seq<InsertionView>) -> Seq<InsertionView> {
    Seq::new(patch.len(), |i: int| InsertionView { at: patch[i].at, text: Seq::empty() })
}

/// An edit changes nothing of the text that was there: with every inserted
/// text taken out again, what is left is the text of the tree.
pub proof fn lemma_render_keeps_text(t: Tree, patch: Seq<InsertionView>)
    ensures
        rendered(t, blank(patch)) == tree_text(t),
{
    lemma_blank_prefix(t, patch, patch.len());
    let c = cursor(t, blank(patch), patch.len());
    lemma_text_range_split(t, 0, c, t.len() as int);
}

/// With nothing to insert, what is written up to an insertion is the text of
/// the tree up to there.
proof fn lemma_blank_prefix(t: Tree, patch: Seq<InsertionView>, m: nat)
    requires
        m <= patch.len(),
    ensures
        0 <= cursor(t, blank(patch), m) <= t.len(),
        rendered_prefix(t, blank(patch), m) == text_range(t, 0, cursor(t, blank(patch), m)),
    decreases m,
{
    if m > 0 {
        lemma_blank_prefix(t, patch, (m - 1) as nat);
        let before = cursor(t, blank(patch), (m - 1) as nat);
        let at = blank(patch)[m - 1].at;
        if before <= at <= t.len() {
            lemma_text_range_split(t, 0, before, at);
        } else {
            assert(text_range(t, before, at) == Seq::<char>::empty());
        }
        assert(blank(patch)[m - 1].text == Seq::<char>::empty());
    } else {
        assert(text_range(t, 0, 0) == Seq::<char>::empty());
    }
}

/// An edit without insertions gives the text of the tree.
pub proof fn lemma_render_nothing(t: Tree)
    ensures
        rendered(t, Seq::empty()) == tree_text(t),
{
}

/// A text that stands in another stands there when more is written behind.
proof fn lemma_occurs_in_longer(hay: Seq<char>, more: Seq<char>, at: int, needle: Seq<char>)
    requires
        occurs_at(hay, at, needle),
    ensures
        occurs_at(hay + more, at, needle),
{
    assert((hay + more).subrange(at, at + needle.len()) =~= hay.subrange(
        at,
        at + needle.len(),
    ));
}

/// Where the text of insertion `k` begins in what is written.
pub open spec fn insertion_start(t: Tree, patch: Seq<InsertionView>, k: int) -> int {
    (rendered_prefix(t, patch, k as nat).len() + text_range(
        t,
        cursor(t, patch, k as nat),
        patch[k].at,
    ).len()) as int
}

/// The text of an insertion stands in what is written with it and with
/// later insertions.
proof fn lemma_prefix_holds_insertion(t: Tree, patch: Seq<InsertionView>, k: int, m: nat)
    requires
        0 <= k < m <= patch.len(),
    ensures
        occurs_at(rendered_prefix(t, patch, m), insertion_start(t, patch, k), patch[k].text),
    decreases m,
{
    let at = insertion_start(t, patch, k);
    if m == k + 1 {
        let before = rendered_prefix(t, patch, k as nat) + text_range(
            t,
            cursor(t, patch, k as nat),
            patch[k].at,
        );
        assert(rendered_prefix(t, patch, m) == before + patch[k].text);
        assert((before + patch[k].text).subrange(at, at + patch[k].text.len()) =~= patch[k].text);
    } else {
        lemma_prefix_holds_insertion(t, patch, k, (m - 1) as nat);
        let between = text_range(t, cursor(t, patch, (m - 1) as nat), patch[m - 1].at);
        lemma_occurs_in_longer(
            rendered_prefix(t, patch, (m - 1) as nat),
            between,
            at,
            patch[k].text,
        );
        lemma_occurs_in_longer(
            rendered_prefix(t, patch, (m - 1) as nat) + between,
            patch[m - 1].text,
            at,
            patch[k].text,
        );
    }
}

/// Every inserted text stands in the text that is written.
pub proof fn lemma_render_holds_insertions(t: Tree, patch: Seq<InsertionView>, k: int)
    requires
        0 <= k < patch.len(),
    ensures
        occurs_at(rendered(t, patch), insertion_start(t, patch, k), patch[k].text),
        contains(rendered(t, patch), patch[k].text),
{
    lemma_prefix_holds_insertion(t, patch, k, patch.len());
    lemma_occurs_in_longer(
        rendered_prefix(t, patch, patch.len()),
        text_range(t, cursor(t, patch, patch.len()), t.len() as int),
        insertion_start(t, patch, k),
        patch[k].text,
    );
}

/// Whether the node at `c` is of the given kind and carries the given name.
pub open spec fn is_named(t: Tree, c: int, kind: Seq<char>, name: Seq<char>) -> bool {
    t[c].kind == kind && match child(t, c, 3) {
        Some(n) => terminal_text(t, n) == name,
        None => false,
    }
}

/// Whether the node at `c` is of the given kind and carries the given name.
pub fn node_is_named(tree: &Vec<SyntaxEntry>, c: usize, kind: &str, name: &str) -> (r: bool)
    requires
        c < tree.len(),
    ensures
        r == is_named(tree.deep_view(), c as int, kind@, name@),
{
    if !has_kind(tree, c, kind) {
        return false;
    }
    match child_of(tree, c, 3) {
        Some(n) => {
            let text = text_of_terminal(tree, n);
            let wanted = chars_of(name);
            chars_equal(&text, &wanted)
        },
        None => false,
    }
}

/// The insertion of `text` behind the opening brace of the struct or enum at
/// `c`, in front of its members; none where the node has no such place.
pub open spec fn insertion_in_braces(t: Tree, c: int, text: Seq<char>) -> Seq<InsertionView> {
    match child(t, c, 6) {
        Some(at) => seq![InsertionView { at, text }],
        None => Seq::empty(),
    }
}

/// What is inserted in the item at `c`: the storage entries in a storage
/// struct, the event variants in an event enum, nothing anywhere else.
pub open spec fn item_insertions(t: Tree, c: int, cs: Seq<ComponentInfoView>) -> Seq<
    InsertionView,
> {
    if is_named(t, c, "ItemStruct"@, STORAGE_STRUCT_NAME@) {
        insertion_in_braces(t, c, storage_struct_text(cs))
    } else if is_named(t, c, "ItemEnum"@, EVENT_ENUM_NAME@) {
        insertion_in_braces(t, c, event_enum_text(cs))
    } else {
        Seq::empty()
    }
}

/// What is inserted in the first `n` items of the list at `list`.
pub open spec fn items_insertions(t: Tree, list: int, n: nat, cs: Seq<ComponentInfoView>) -> Seq<
    InsertionView,
>
    decreases n,
{
    if n == 0 {
        Seq::empty()
    } else {
        items_insertions(t, list, (n - 1) as nat, cs) + match child(t, list, (n - 1) as nat) {
            Some(c) => item_insertions(t, c, cs),
            None => Seq::empty(),
        }
    }
}

/// Whether one of the first `n` items of the list at `list` is a storage
/// struct.
pub open spec fn storage_struct_among(t: Tree, list: int, n: nat) -> bool
    decreases n,
{
    if n == 0 {
        false
    } else {
        storage_struct_among(t, list, (n - 1) as nat) || match child(t, list, (n - 1) as nat) {
            Some(c) => is_named(t, c, "ItemStruct"@, STORAGE_STRUCT_NAME@),
            None => false,
        }
    }
}

/// Whether one of the first `n` items of the list at `list` is an event enum.
pub open spec fn event_enum_among(t: Tree, list: int, n: nat) -> bool
    decreases n,
{
    if n == 0 {
        false
    } else {
        event_enum_among(t, list, (n - 1) as nat) || match child(t, list, (n - 1) as nat) {
            Some(c) => is_named(t, c, "ItemEnum"@, EVENT_ENUM_NAME@),
            None => false,
        }
    }
}

/// What is put in front of the node at `rbrace` for what the module lacks:
/// a new storage struct where it has none, then a new event enum where it
/// has none.
pub open spec fn new_items(
    rbrace: int,
    storage_struct_found: bool,
    event_enum_found: bool,
    cs: Seq<ComponentInfoView>,
) -> Seq<InsertionView> {
    (if storage_struct_found {
        Seq::empty()
    } else {
        seq![InsertionView { at: rbrace, text: new_storage_struct_text(cs) }]
    }) + if event_enum_found {
        Seq::empty()
    } else {
        seq![InsertionView { at: rbrace, text: new_event_enum_text(cs) }]
    }
}

/// The edit that installs the components in the module whose body is at
/// `body`: the insertions in its items; then, in front of the closing brace
/// of the body, the imports, registrations and internal implementations;
/// and last, in the same place, a new storage struct where the body has
/// none, and a new event enum where it has none.
pub open spec fn module_insertions(t: Tree, body: int, cs: Seq<ComponentInfoView>) -> Seq<
    InsertionView,
> {
    match (child_of_kind(t, body, 1, "ModuleItemList"@), child(t, body, 2)) {
        (Some(list), Some(rbrace)) => {
            let n = child_count(t, list);
            items_insertions(t, list, n, cs).push(
                InsertionView { at: rbrace, text: module_text(cs) },
            ) + new_items(
                rbrace,
                storage_struct_among(t, list, n),
                event_enum_among(t, list, n),
                cs,
            )
        },
        _ => Seq::empty(),
    }
}

/// Whether the insertions stand in the order of their nodes, each in front
/// of a node of the tree or behind its last.
pub open spec fn in_order(t: Tree, patch: Seq<InsertionView>) -> bool {
    &&& forall|i: int| 0 <= i < patch.len() ==> 0 <= (#[trigger] patch[i]).at <= t.len()
    &&& forall|i: int, j: int| 0 <= i < j < patch.len() ==> patch[i].at <= patch[j].at
}

/// With insertions in order each stands in front of its node: the text of
/// the tree is written up to that node when the insertion is.
pub proof fn lemma_cursor_in_order(t: Tree, patch: Seq<InsertionView>, m: nat)
    requires
        in_order(t, patch),
        0 < m <= patch.len(),
    ensures
        cursor(t, patch, m) == patch[m - 1].at,
    decreases m,
{
    assert(0 <= patch[m - 1].at <= t.len());
    if m > 1 {
        lemma_cursor_in_order(t, patch, (m - 1) as nat);
        assert(patch[m - 2].at <= patch[m - 1].at);
    } else {
        assert(cursor(t, patch, 0) == 0);
    }
}

/// The insertions in the first `n` items of a list stand in order, inside
/// the list, and in front of what follows the last of these items.
proof fn lemma_items_insertions_in_order(
    t: Tree,
    list: int,
    n: nat,
    cs: Seq<ComponentInfoView>,
)
    requires
        0 <= list < t.len(),
        n <= child_count(t, list),
    ensures
        in_order(t, items_insertions(t, list, n, cs)),
        forall|i: int|
            0 <= i < items_insertions(t, list, n, cs).len() ==> list < (
            #[trigger] items_insertions(t, list, n, cs)[i]).at < subtree_end(t, list),
        n > 0 ==> forall|i: int|
            0 <= i < items_insertions(t, list, n, cs).len() ==> (#[trigger] items_insertions(
                t,
                list,
                n,
                cs,
            )[i]).at < subtree_end(t, child(t, list, (n - 1) as nat)->0),
    decreases n,
{
    crate::syntax::lemma_subtree(t, list);
    if n > 0 {
        let before = items_insertions(t, list, (n - 1) as nat, cs);
        let now = items_insertions(t, list, n, cs);
        lemma_items_insertions_in_order(t, list, (n - 1) as nat, cs);
        crate::syntax::lemma_child_exists(t, list, (n - 1) as nat);
        let c = child(t, list, (n - 1) as nat)->0;
        crate::syntax::lemma_child_in_subtree(t, list, (n - 1) as nat);
        crate::syntax::lemma_subtree(t, c);
        crate::syntax::lemma_nested_end(t, list, c);
        let added = item_insertions(t, c, cs);
        assert(now == before + added);
        if n > 1 {
            crate::syntax::lemma_children_in_order(t, list, (n - 2) as nat, (n - 1) as nat);
        }
        assert forall|i: int| 0 <= i < before.len() implies (#[trigger] before[i]).at < c by {
            if n > 1 {
            }
        }
        if added.len() > 0 {
            assert(child(t, c, 6) is Some);
            crate::syntax::lemma_child_in_subtree(t, c, 6);
            assert(added.len() == 1);
            assert(added[0].at == child(t, c, 6)->0);
        }
        assert forall|i: int| 0 <= i < now.len() implies list < (#[trigger] now[i]).at
            < subtree_end(t, c) && now[i].at < subtree_end(t, list) && 0 <= now[i].at
            <= t.len() by {
            if i < before.len() {
                assert(now[i] == before[i]);
            } else {
                assert(now[i] == added[i - before.len()]);
            }
        }
        assert forall|i: int, j: int| 0 <= i < j < now.len() implies now[i].at <= now[j].at by {
            if j < before.len() {
                assert(now[i] == before[i] && now[j] == before[j]);
            } else {
                assert(now[j] == added[j - before.len()]);
                assert(now[i] == before[i]);
            }
        }
    }
}

/// The edit that installs components stands in order: each of its
/// insertions stands in front of the node it is meant for, so that the text
/// of the module is written in full and unchanged around the insertions.
pub proof fn lemma_module_insertions_in_order(t: Tree, body: int, cs: Seq<ComponentInfoView>)
    requires
        0 <= body < t.len(),
    ensures
        in_order(t, module_insertions(t, body, cs)),
{
    match (child_of_kind(t, body, 1, "ModuleItemList"@), child(t, body, 2)) {
        (Some(list), Some(rbrace)) => {
            crate::syntax::lemma_child_in_subtree(t, body, 1);
            crate::syntax::lemma_child_in_subtree(t, body, 2);
            crate::syntax::lemma_subtree(t, list);
            assert(rbrace == subtree_end(t, list));
            let n = child_count(t, list);
            lemma_items_insertions_in_order(t, list, n, cs);
            let items = items_insertions(t, list, n, cs);
            let patch = module_insertions(t, body, cs);
            assert forall|i: int| items.len() <= i < patch.len() implies (#[trigger] patch[i]).at
                == rbrace by {}
            assert forall|i: int| 0 <= i < patch.len() implies 0 <= (#[trigger] patch[i]).at
                <= t.len() by {
                if i < items.len() {
                    assert(patch[i] == items[i]);
                }
            }
            assert forall|i: int, j: int| 0 <= i < j < patch.len() implies patch[i].at
                <= patch[j].at by {
                if j < items.len() {
                    assert(patch[i] == items[i] && patch[j] == items[j]);
                } else if i < items.len() {
                    assert(patch[i] == items[i]);
                    assert(patch[j].at == rbrace);
                } else {
                    assert(patch[i].at == rbrace && patch[j].at == rbrace);
                }
            }
        },
        _ => {},
    }
}

/// A storage struct among the first items is one among more of them.
proof fn lemma_storage_struct_stays(t: Tree, list: int, n: nat, m: nat)
    requires
        n <= m,
        storage_struct_among(t, list, n),
    ensures
        storage_struct_among(t, list, m),
    decreases m,
{
    if n < m {
        lemma_storage_struct_stays(t, list, n, (m - 1) as nat);
    }
}

/// Whether the patch puts `text` at the top of the struct or enum at `c`,
/// where the node has such a place.
pub open spec fn entered_at_top(
    t: Tree,
    patch: Seq<InsertionView>,
    c: int,
    text: Seq<char>,
) -> bool {
    match child(t, c, 6) {
        Some(at) => patch.contains(InsertionView { at, text }),
        None => true,
    }
}

/// What is inserted in one of the first `n` items of a list is among what
/// is inserted in these items.
proof fn lemma_items_insertions_hold(
    t: Tree,
    list: int,
    n: nat,
    cs: Seq<ComponentInfoView>,
    k: nat,
    j: int,
)
    requires
        k < n,
        child(t, list, k) is Some,
        0 <= j < item_insertions(t, child(t, list, k)->0, cs).len(),
    ensures
        items_insertions(t, list, n, cs).contains(item_insertions(t, child(t, list, k)->0, cs)[j]),
    decreases n,
{
    let wanted = item_insertions(t, child(t, list, k)->0, cs)[j];
    let before = items_insertions(t, list, (n - 1) as nat, cs);
    let now = items_insertions(t, list, n, cs);
    if k == n - 1 {
        assert(now[before.len() as int + j] == wanted);
    } else {
        lemma_items_insertions_hold(t, list, (n - 1) as nat, cs, k, j);
        let i = choose|i: int| 0 <= i < before.len() && before[i] == wanted;
        assert(now[i] == wanted);
    }
}

/// What an installation enters for the components, in a module body with
/// the list of its items at `list` and its closing brace at `rbrace`.
///
/// The imports, registrations and internal implementations are put in front
/// of the closing brace. The storage entries are put at the top of each
/// storage struct of the body, and where there is none, a new storage struct
/// with these entries is put in front of the closing brace. The event
/// variants are entered likewise: in each event enum, or with a new one.
pub proof fn lemma_components_are_entered(
    t: Tree,
    body: int,
    list: int,
    rbrace: int,
    cs: Seq<ComponentInfoView>,
)
    requires
        child_of_kind(t, body, 1, "ModuleItemList"@) == Some(list),
        child(t, body, 2) == Some(rbrace),
    ensures
        module_insertions(t, body, cs).contains(
            InsertionView { at: rbrace, text: module_text(cs) },
        ),
        !storage_struct_among(t, list, child_count(t, list)) ==> module_insertions(
            t,
            body,
            cs,
        ).contains(InsertionView { at: rbrace, text: new_storage_struct_text(cs) }),
        !event_enum_among(t, list, child_count(t, list)) ==> module_insertions(
            t,
            body,
            cs,
        ).contains(InsertionView { at: rbrace, text: new_event_enum_text(cs) }),
        forall|k: nat|
            k < child_count(t, list) ==> match #[trigger] child(t, list, k) {
                Some(c) => {
                    &&& is_named(t, c, "ItemStruct"@, STORAGE_STRUCT_NAME@) ==> entered_at_top(
                        t,
                        module_insertions(t, body, cs),
                        c,
                        storage_struct_text(cs),
                    )
                    &&& is_named(t, c, "ItemEnum"@, EVENT_ENUM_NAME@) ==> entered_at_top(
                        t,
                        module_insertions(t, body, cs),
                        c,
                        event_enum_text(cs),
                    )
                },
                None => true,
            },
{
    let n = child_count(t, list);
    let items = items_insertions(t, list, n, cs);
    let patch = module_insertions(t, body, cs);
    let storage_found = storage_struct_among(t, list, n);
    let event_found = event_enum_among(t, list, n);
    let added = new_items(rbrace, storage_found, event_found, cs);
    assert(patch == items.push(InsertionView { at: rbrace, text: module_text(cs) }) + added);
    assert(patch[items.len() as int] == InsertionView { at: rbrace, text: module_text(cs) });
    if !storage_found {
        assert(added[0] == InsertionView { at: rbrace, text: new_storage_struct_text(cs) });
        assert(patch[items.len() as int + 1] == added[0]);
    }
    if !event_found {
        let last = added.len() - 1;
        assert(added[last] == InsertionView { at: rbrace, text: new_event_enum_text(cs) });
        assert(patch[items.len() as int + 1 + last] == added[last]);
    }
    reveal_strlit("ItemStruct");
    reveal_strlit("ItemEnum");
    assert("ItemStruct"@.len() != "ItemEnum"@.len());
    assert forall|k: nat| k < n implies match #[trigger] child(t, list, k) {
        Some(c) => {
            &&& is_named(t, c, "ItemStruct"@, STORAGE_STRUCT_NAME@) ==> entered_at_top(
                t,
                patch,
                c,
                storage_struct_text(cs),
            )
            &&& is_named(t, c, "ItemEnum"@, EVENT_ENUM_NAME@) ==> entered_at_top(
                t,
                patch,
                c,
                event_enum_text(cs),
            )
        },
        None => true,
    } by {
        match child(t, list, k) {
            Some(c) => {
                if child(t, c, 6) is Some && (is_named(t, c, "ItemStruct"@, STORAGE_STRUCT_NAME@)
                    || is_named(t, c, "ItemEnum"@, EVENT_ENUM_NAME@)) {
                    lemma_items_insertions_hold(t, list, n, cs, k, 0);
                    let wanted = item_insertions(t, c, cs)[0];
                    let i = choose|i: int| 0 <= i < items.len() && items[i] == wanted;
                    assert(patch[i] == items[i]);
                }
            },
            None => {},
        }
    }
}

/// Appends an insertion to a patch.
fn push_insertion(patch: &mut Vec<Insertion>, at: usize, text: String)
    ensures
        final(patch).deep_view() == old(patch).deep_view().push(
            InsertionView { at: at as int, text: text@ },
        ),
{
    let ghost before = patch.deep_view();
    patch.push(Insertion { at, text });
    assert(patch.deep_view() =~= before.push(InsertionView { at: at as int, text: text@ }));
}

/// Enters the components at the top of the storage struct at `item`.
pub fn process_storage_struct(
    tree: &Vec<SyntaxEntry>,
    item: usize,
    components_info: &Vec<ComponentInfo>,
    patch: &mut Vec<Insertion>,
)
    requires
        item < tree.len(),
    ensures
        final(patch).deep_view() == old(patch).deep_view() + insertion_in_braces(
            tree.deep_view(),
            item as int,
            storage_struct_text(components_info.deep_view()),
        ),
{
    match child_of(tree, item, 6) {
        Some(at) => {
            let text = ComponentsGenerationData(components_info).generate_for_storage_struct();
            let ghost before = patch.deep_view();
            push_insertion(patch, at, text);
            assert(patch.deep_view() =~= before + seq![
                InsertionView { at: at as int, text: text@ },
            ]);
        },
        None => {
            assert(patch.deep_view() =~= patch.deep_view() + Seq::<InsertionView>::empty());
        },
    }
}

/// Enters the components at the top of the event enum at `item`.
pub fn process_event_enum(
    tree: &Vec<SyntaxEntry>,
    item: usize,
    components_info: &Vec<ComponentInfo>,
    patch: &mut Vec<Insertion>,
)
    requires
        item < tree.len(),
    ensures
        final(patch).deep_view() == old(patch).deep_view() + insertion_in_braces(
            tree.deep_view(),
            item as int,
            event_enum_text(components_info.deep_view()),
        ),
{
    match child_of(tree, item, 6) {
        Some(at) => {
            let text = ComponentsGenerationData(components_info).generate_for_event_enum();
            let ghost before = patch.deep_view();
            push_insertion(patch, at, text);
            assert(patch.deep_view() =~= before + seq![
                InsertionView { at: at as int, text: text@ },
            ]);
        },
        None => {
            assert(patch.deep_view() =~= patch.deep_view() + Seq::<InsertionView>::empty());
        },
    }
}

/// Goes through the items of the list at `list` and enters the components
/// in the storage struct and in the event enum. Says whether there was an
/// event enum.
pub fn process_module_items(
    tree: &Vec<SyntaxEntry>,
    list: usize,
    components_info: &Vec<ComponentInfo>,
    patch: &mut Vec<Insertion>,
) -> (event_enum_found: bool)
    requires
        list < tree.len(),
    ensures
        final(patch).deep_view() == old(patch).deep_view() + items_insertions(
            tree.deep_view(),
            list as int,
            child_count(tree.deep_view(), list as int),
            components_info.deep_view(),
        ),
        event_enum_found == event_enum_among(
            tree.deep_view(),
            list as int,
            child_count(tree.deep_view(), list as int),
        ),
{
    let items = children_of(tree, list);
    let mut event_enum_found = false;
    let mut i: usize = 0;
    assert(patch.deep_view() =~= old(patch).deep_view() + Seq::<InsertionView>::empty());
    while i < items.len()
        invariant
            i <= items.len(),
            list < tree.len(),
            items.len() == child_count(tree.deep_view(), list as int),
            forall|k: int|
                0 <= k < items.len() ==> child(tree.deep_view(), list as int, k as nat) == Some(
                    #[trigger] items[k] as int,
                ) && list < items[k] < tree.len(),
            patch.deep_view() == old(patch).deep_view() + items_insertions(
                tree.deep_view(),
                list as int,
                i as nat,
                components_info.deep_view(),
            ),
            event_enum_found == event_enum_among(tree.deep_view(), list as int, i as nat),
        decreases items.len() - i,
    {
        let c = items[i];
        let ghost before = patch.deep_view();
        assert(child(tree.deep_view(), list as int, i as nat) == Some(items[i as int] as int));
        if node_is_named(tree, c, "ItemStruct", STORAGE_STRUCT_NAME) {
            proof {
                reveal_strlit("ItemStruct");
                reveal_strlit("ItemEnum");
                assert("ItemStruct"@.len() != "ItemEnum"@.len());
            }
            process_storage_struct(tree, c, components_info, patch);
        } else if node_is_named(tree, c, "ItemEnum", EVENT_ENUM_NAME) {
            process_event_enum(tree, c, components_info, patch);
            event_enum_found = true;
        } else {
            assert(patch.deep_view() =~= before + Seq::<InsertionView>::empty());
        }
        assert(patch.deep_view() =~= old(patch).deep_view() + items_insertions(
            tree.deep_view(),
            list as int,
            (i + 1) as nat,
            components_info.deep_view(),
        ));
        i += 1;
    }
    event_enum_found
}

/// Whether one of the items of the list at `list` is a storage struct.
pub fn has_storage_struct(tree: &Vec<SyntaxEntry>, list: usize) -> (r: bool)
    requires
        list < tree.len(),
    ensures
        r == storage_struct_among(
            tree.deep_view(),
            list as int,
            child_count(tree.deep_view(), list as int),
        ),
{
    let items = children_of(tree, list);
    let mut i: usize = 0;
    while i < items.len()
        invariant
            i <= items.len(),
            items.len() == child_count(tree.deep_view(), list as int),
            forall|k: int|
                0 <= k < items.len() ==> child(tree.deep_view(), list as int, k as nat) == Some(
                    #[trigger] items[k] as int,
                ) && list < items[k] < tree.len(),
            !storage_struct_among(tree.deep_view(), list as int, i as nat),
        decreases items.len() - i,
    {
        assert(child(tree.deep_view(), list as int, i as nat) == Some(items[i as int] as int));
        if node_is_named(tree, items[i], "ItemStruct", STORAGE_STRUCT_NAME) {
            proof {
                lemma_storage_struct_stays(
                    tree.deep_view(),
                    list as int,
                    (i + 1) as nat,
                    items.len() as nat,
                );
            }
            return true;
        }
        i += 1;
    }
    false
}

/// Adds a new storage struct in front of the node at `rbrace`, the closing
/// brace of the module body.
pub fn add_storage_struct(
    rbrace: usize,
    components_info: &Vec<ComponentInfo>,
    patch: &mut Vec<Insertion>,
)
    ensures
        final(patch).deep_view() == old(patch).deep_view().push(
            InsertionView {
                at: rbrace as int,
                text: new_storage_struct_text(components_info.deep_view()),
            },
        ),
{
    let text = ComponentsGenerationData(components_info).generate_storage_struct();
    push_insertion(patch, rbrace, text);
}

/// Adds a new event enum in front of the node at `rbrace`, the closing brace
/// of the module body.
pub fn add_event_enum(
    rbrace: usize,
    components_info: &Vec<ComponentInfo>,
    patch: &mut Vec<Insertion>,
)
    ensures
        final(patch).deep_view() == old(patch).deep_view().push(
            InsertionView {
                at: rbrace as int,
                text: new_event_enum_text(components_info.deep_view()),
            },
        ),
{
    let text = ComponentsGenerationData(components_info).generate_event_enum();
    push_insertion(patch, rbrace, text);
}

/// Adds the imports, the registrations and the internal implementations of
/// the components in front of the node at `rbrace`, the closing brace of the
/// module body.
pub fn add_use_clauses_and_macros(
    rbrace: usize,
    components_info: &Vec<ComponentInfo>,
    patch: &mut Vec<Insertion>,
)
    ensures
        final(patch).deep_view() == old(patch).deep_view().push(
            InsertionView { at: rbrace as int, text: module_text(components_info.deep_view()) },
        ),
{
    let text = ComponentsGenerationData(components_info).generate_for_module();
    push_insertion(patch, rbrace, text);
}

/// The edit that installs the components in the module whose body is at
/// `body`.
pub fn patch_module(
    tree: &Vec<SyntaxEntry>,
    body: usize,
    components_info: &Vec<ComponentInfo>,
) -> (patch: Vec<Insertion>)
    requires
        body < tree.len(),
    ensures
        patch.deep_view() == module_insertions(
            tree.deep_view(),
            body as int,
            components_info.deep_view(),
        ),
{
    let mut patch: Vec<Insertion> = Vec::new();
    assert(patch.deep_view() =~= Seq::<InsertionView>::empty());
    match (find_child_of_kind(tree, body, 1, "ModuleItemList"), child_of(tree, body, 2)) {
        (Some(list), Some(rbrace)) => {
            let event_enum_found = process_module_items(tree, list, components_info, &mut patch);
            let storage_struct_found = has_storage_struct(tree, list);
            add_use_clauses_and_macros(rbrace, components_info, &mut patch);
            let ghost before = patch.deep_view();
            if !storage_struct_found {
                add_storage_struct(rbrace, components_info, &mut patch);
            }
            if !event_enum_found {
                add_event_enum(rbrace, components_info, &mut patch);
            }
            assert(patch.deep_view() =~= before + new_items(
                rbrace as int,
                storage_struct_found,
                event_enum_found,
                components_info.deep_view(),
            ));
        },
        _ => {},
    }
    patch
}

/// What the installation of components in the first item of a file gives:
/// the new text of the file and the diagnostics.
///
/// Where the file has no item, or the validation of the item gives an error,
/// the text is empty and the diagnostics are that error. Otherwise the text
/// is that of the file with the components installed, and the diagnostics
/// are the warnings of the validation.
pub open spec fn patch_result(t: Tree, cs: Seq<ComponentInfoView>) -> (
    Seq<char>,
    Seq<DiagnosticView>,
) {
    match first_item(t) {
        None => (Seq::empty(), seq![error_of(NO_BODY@)]),
        Some(m) => {
            let (errors, warnings) = validation(t, m, cs);
            match module_body(t, m) {
                Some(body) => if errors.len() > 0 {
                    (Seq::empty(), errors)
                } else {
                    (rendered(t, module_insertions(t, body, cs)), warnings)
                },
                None => (Seq::empty(), errors),
            }
        },
    }
}

/// Installs the components in the first item of the file that the tree
/// holds, which has to be a contract module. Where it is one, the path of
/// each component that needs an immutable config has to end with the name
/// of the component.
pub fn build_patch(tree: &Vec<SyntaxEntry>, components_info: &Vec<ComponentInfo>) -> (r: (
    String,
    Vec<Diagnostic>,
))
    requires
        first_item(tree.deep_view()) matches Some(m) && is_contract_module(tree.deep_view(), m)
            ==> have_config_paths(components_info.deep_view()),
    ensures
        (r.0@, r.1.deep_view()) == patch_result(tree.deep_view(), components_info.deep_view()),
{
    let module = find_first_item(tree);
    let module = match module {
        Some(module) => module,
        None => {
            let mut errors: Vec<Diagnostic> = Vec::new();
            errors.push(Diagnostic::error(String::from_str(NO_BODY)));
            assert(errors.deep_view() =~= seq![error_of(NO_BODY@)]);
            return (String::new(), errors);
        },
    };
    let (errors, warnings) = validate_contract_module(tree, module, components_info);
    let body = match find_module_body(tree, module) {
        Some(body) => body,
        None => {
            return (String::new(), errors);
        },
    };
    if errors.len() > 0 {
        return (String::new(), errors);
    }
    let patch = patch_module(tree, body, components_info);
    let content = render(tree, &patch);
    (string_of(&content), warnings)
}

} // verus!
