//! A syntax tree as a flat list of nodes in preorder.
//!
//! Each entry holds the kind of its node, the node's depth below the root,
//! and, for a token, its text. A node's subtree is the run of entries that
//! follows it with a greater depth, and the text of a node is the text of the
//! tokens of that run, one after another. An edit of the tree is an
//! insertion of text between two entries, so what the edit does not touch
//! stays as it was, character for character.

use vstd::prelude::*;
use crate::text::{chars_of, chars_equal, push_all, str_equal};
use cairo_lang_formatter::format_string;
use cairo_lang_parser::utils::SimpleParserDatabase;
use cairo_lang_primitive_token::ToPrimitiveTokenStream;
use cairo_lang_syntax::node::with_db::SyntaxNodeWithDb;

verus! {

/// One node of a syntax tree.
#[derive(Clone, Debug, PartialEq, Eq)]
pub struct SyntaxEntry {
    /// The kind of the node, by name.
    pub kind: String,
    /// The number of ancestors of the node.
    pub depth: usize,
    /// The text of the node where it is a token, empty otherwise.
    pub text: String,
}

/// The model of a [`SyntaxEntry`].
pub struct SyntaxEntryView {
    pub kind: Seq<char>,
    pub depth: nat,
    pub text: Seq<char>,
}

impl DeepView for SyntaxEntry {
    type V = SyntaxEntryView;

    open spec fn deep_view(&self) -> SyntaxEntryView {
        SyntaxEntryView { kind: self.kind@, depth: self.depth as nat, text: self.text@ }
    }
}

/// A syntax tree: its nodes in preorder.
pub type Tree = Seq<SyntaxEntryView>;

/// The first position from `j` on whose entry is not deeper than `depth`,
/// or the length of the tree where there is none.
pub open spec fn scan_end(t: Tree, depth: nat, j: int) -> int
    decreases t.len() - j,
{
    if j < 0 || j >= t.len() {
        t.len() as int
    } else if t[j].depth <= depth {
        j
    } else {
        scan_end(t, depth, j + 1)
    }
}

/// The position just behind the subtree of the node at `i`.
pub open spec fn subtree_end(t: Tree, i: int) -> int {
    scan_end(t, t[i].depth, i + 1)
}

/// The position just behind the subtree of the node at `i`.
pub fn node_end(tree: &Vec<SyntaxEntry>, i: usize) -> (j: usize)
    requires
        i < tree.len(),
    ensures
        j == subtree_end(tree.deep_view(), i as int),
        i < j <= tree.len(),
{
    let depth: usize = tree[i].depth;
    let mut j: usize = i + 1;
    while j < tree.len() && tree[j].depth > depth
        invariant
            i < j <= tree.len(),
            depth == tree[i as int].depth,
            subtree_end(tree.deep_view(), i as int) == scan_end(
                tree.deep_view(),
                depth as nat,
                j as int,
            ),
        decreases tree.len() - j,
    {
        j += 1;
    }
    j
}

/// The first child of the node at `p`, if it has a child.
pub open spec fn first_child(t: Tree, p: int) -> Option<int> {
    if 0 <= p && p + 1 < t.len() && t[p + 1].depth == t[p].depth + 1 {
        Some(p + 1)
    } else {
        None
    }
}

/// The sibling that follows the node at `c`, if one does.
pub open spec fn next_sibling(t: Tree, c: int) -> Option<int> {
    let e = subtree_end(t, c);
    if 0 <= c < t.len() && e < t.len() && t[e].depth == t[c].depth {
        Some(e)
    } else {
        None
    }
}

/// The child of the node at `p` that has `k` children before it, if there is
/// one.
pub open spec fn child(t: Tree, p: int, k: nat) -> Option<int>
    decreases k,
{
    if k == 0 {
        first_child(t, p)
    } else {
        match child(t, p, (k - 1) as nat) {
            Some(c) => next_sibling(t, c),
            None => None,
        }
    }
}

/// A position in a tree as a contract speaks of it.
pub open spec fn position(i: Option<usize>) -> Option<int> {
    match i {
        Some(i) => Some(i as int),
        None => None,
    }
}

/// The first child of the node at `p`, if it has a child.
pub fn first_child_of(tree: &Vec<SyntaxEntry>, p: usize) -> (r: Option<usize>)
    requires
        p < tree.len(),
    ensures
        position(r) == first_child(tree.deep_view(), p as int),
        r matches Some(c) ==> p < c < tree.len(),
{
    if p + 1 < tree.len() && tree[p].depth < usize::MAX && tree[p + 1].depth == tree[p].depth + 1 {
        Some(p + 1)
    } else {
        None
    }
}

/// The sibling that follows the node at `c`, if one does.
pub fn next_sibling_of(tree: &Vec<SyntaxEntry>, c: usize) -> (r: Option<usize>)
    requires
        c < tree.len(),
    ensures
        position(r) == next_sibling(tree.deep_view(), c as int),
        r matches Some(e) ==> c < e < tree.len(),
{
    let e = node_end(tree, c);
    if e < tree.len() && tree[e].depth == tree[c].depth {
        Some(e)
    } else {
        None
    }
}

/// The child of the node at `p` that has `k` children before it, if there is
/// one.
pub fn child_of(tree: &Vec<SyntaxEntry>, p: usize, k: usize) -> (r: Option<usize>)
    requires
        p < tree.len(),
    ensures
        position(r) == child(tree.deep_view(), p as int, k as nat),
        r matches Some(c) ==> p < c < tree.len(),
{
    let mut current = first_child_of(tree, p);
    let mut n: usize = 0;
    while n < k
        invariant
            n <= k,
            p < tree.len(),
            position(current) == child(tree.deep_view(), p as int, n as nat),
            current matches Some(c) ==> p < c < tree.len(),
        decreases k - n,
    {
        current =
        match current {
            Some(c) => next_sibling_of(tree, c),
            None => None,
        };
        n += 1;
    }
    current
}

/// Whether the node at `i` is of the given kind.
pub fn has_kind(tree: &Vec<SyntaxEntry>, i: usize, kind: &str) -> (r: bool)
    requires
        i < tree.len(),
    ensures
        r == (tree.deep_view()[i as int].kind == kind@),
{
    str_equal(tree[i].kind.as_str(), kind)
}

/// The child of the node at `p` that has `k` children before it, where that
/// child is of the given kind.
pub open spec fn child_of_kind(t: Tree, p: int, k: nat, kind: Seq<char>) -> Option<int> {
    match child(t, p, k) {
        Some(c) => if 0 <= c < t.len() && t[c].kind == kind {
            Some(c)
        } else {
            None
        },
        None => None,
    }
}

/// The child of the node at `p` that has `k` children before it, where that
/// child is of the given kind.
pub fn find_child_of_kind(tree: &Vec<SyntaxEntry>, p: usize, k: usize, kind: &str) -> (r: Option<
    usize,
>)
    requires
        p < tree.len(),
    ensures
        position(r) == child_of_kind(tree.deep_view(), p as int, k as nat, kind@),
        r matches Some(c) ==> p < c < tree.len(),
{
    match child_of(tree, p, k) {
        Some(c) => if has_kind(tree, c, kind) {
            Some(c)
        } else {
            None
        },
        None => None,
    }
}

/// The text of the entries from `from` up to `to`, one after another.
pub open spec fn text_range(t: Tree, from: int, to: int) -> Seq<char>
    decreases to - from,
{
    if from < 0 || to <= from || to > t.len() {
        Seq::empty()
    } else {
        text_range(t, from, to - 1) + t[to - 1].text
    }
}

/// The text of the node at `i`: that of all tokens of its subtree.
pub open spec fn node_text(t: Tree, i: int) -> Seq<char> {
    text_range(t, i, subtree_end(t, i))
}

/// The text of the whole tree.
pub open spec fn tree_text(t: Tree) -> Seq<char> {
    text_range(t, 0, t.len() as int)
}

/// Appends to `out` the text of the entries from `from` up to `to`.
pub fn push_text_range(out: &mut Vec<char>, tree: &Vec<SyntaxEntry>, from: usize, to: usize)
    requires
        from <= to <= tree.len(),
    ensures
        final(out)@ == old(out)@ + text_range(tree.deep_view(), from as int, to as int),
{
    let mut k: usize = from;
    while k < to
        invariant
            from <= k <= to <= tree.len(),
            out@ == old(out)@ + text_range(tree.deep_view(), from as int, k as int),
        decreases to - k,
    {
        let piece = chars_of(tree[k].text.as_str());
        push_all(out, &piece);
        k += 1;
    }
}

/// The text of the node at `i`.
pub fn text_of_node(tree: &Vec<SyntaxEntry>, i: usize) -> (r: Vec<char>)
    requires
        i < tree.len(),
    ensures
        r@ == node_text(tree.deep_view(), i as int),
{
    let mut out: Vec<char> = Vec::new();
    let end = node_end(tree, i);
    push_text_range(&mut out, tree, i, end);
    out
}

/// Whether the entry at `k` is trivia of the node at `i`: it lies in the
/// subtree of a trivia node that stands in the subtree of the node at `i`.
pub open spec fn in_trivia(t: Tree, i: int, k: int) -> bool {
    exists|a: int| #[trigger]
        is_trivia_node(t, a) && i <= a <= k && k < subtree_end(t, a)
}

/// Whether the entry at `a` is a trivia node: the list of the white space
/// and the comments that lead or trail a token.
pub open spec fn is_trivia_node(t: Tree, a: int) -> bool {
    0 <= a < t.len() && t[a].kind == "Trivia"@
}

/// Whether the entry at `k` is a token proper of the node at `i`: it has a
/// text and is no trivia. A token without text, as the one that ends a file,
/// is none.
pub open spec fn is_token_of(t: Tree, i: int, k: int) -> bool {
    0 <= k < t.len() && t[k].text.len() > 0 && !in_trivia(t, i, k)
}

/// Whether the entry at `f` is the first token proper of the node at `i`.
pub open spec fn is_first_token(t: Tree, i: int, f: int) -> bool {
    &&& i <= f < subtree_end(t, i)
    &&& is_token_of(t, i, f)
    &&& forall|j: int| i <= j < f ==> !is_token_of(t, i, j)
}

/// Whether the entry at `l` is the last token proper of the node at `i`.
pub open spec fn is_last_token(t: Tree, i: int, l: int) -> bool {
    &&& i <= l < subtree_end(t, i)
    &&& is_token_of(t, i, l)
    &&& forall|j: int| l < j < subtree_end(t, i) ==> !is_token_of(t, i, j)
}

/// The text of the node at `i` without the trivia that leads and trails it:
/// the text from its first token proper to its last, with the trivia between
/// them. A node without a token proper has none.
pub open spec fn text_without_trivia(t: Tree, i: int) -> Seq<char> {
    if exists|f: int| is_first_token(t, i, f) {
        text_range(
            t,
            choose|f: int| is_first_token(t, i, f),
            (choose|l: int| is_last_token(t, i, l)) + 1,
        )
    } else {
        Seq::empty()
    }
}

/// The scan for the end of a subtree passes over deeper entries only, and
/// stops at an entry that is not deeper or at the end of the tree.
pub proof fn lemma_scan_end_bounds(t: Tree, depth: nat, j: int)
    requires
        0 <= j <= t.len(),
    ensures
        j <= scan_end(t, depth, j) <= t.len(),
        forall|k: int| j <= k < scan_end(t, depth, j) ==> (#[trigger] t[k]).depth > depth,
        scan_end(t, depth, j) < t.len() ==> t[scan_end(t, depth, j)].depth <= depth,
    decreases t.len() - j,
{
    if j < t.len() && t[j].depth > depth {
        lemma_scan_end_bounds(t, depth, j + 1);
    }
}

/// The subtree of a node is the run of entries behind it that are deeper
/// than the node: it ends in front of the first that is not, or with the
/// tree.
pub proof fn lemma_subtree(t: Tree, i: int)
    requires
        0 <= i < t.len(),
    ensures
        i < subtree_end(t, i) <= t.len(),
        forall|k: int| i < k < subtree_end(t, i) ==> (#[trigger] t[k]).depth > t[i].depth,
        subtree_end(t, i) < t.len() ==> t[subtree_end(t, i)].depth <= t[i].depth,
{
    lemma_scan_end_bounds(t, t[i].depth, i + 1);
}

/// A child of a node stands in the subtree of the node, one level deeper.
pub proof fn lemma_child_in_subtree(t: Tree, p: int, k: nat)
    requires
        0 <= p < t.len(),
        child(t, p, k) is Some,
    ensures
        p < child(t, p, k)->0 < subtree_end(t, p),
        t[child(t, p, k)->0].depth == t[p].depth + 1,
    decreases k,
{
    lemma_subtree(t, p);
    let c = child(t, p, k)->0;
    if k == 0 {
        assert(c == p + 1);
        assert(scan_end(t, t[p].depth, p + 1) == scan_end(t, t[p].depth, p + 2));
        lemma_scan_end_bounds(t, t[p].depth, p + 2);
    } else {
        let x = child(t, p, (k - 1) as nat)->0;
        lemma_child_in_subtree(t, p, (k - 1) as nat);
        lemma_subtree(t, x);
        assert(c == subtree_end(t, x));
        let end = subtree_end(t, p);
        if c >= end {
            assert(t[end].depth <= t[p].depth);
            if end < c {
                assert(t[end].depth > t[x].depth);
            }
        }
    }
}

/// The children of a node stand in their order: a later child stands
/// behind the subtree of an earlier one.
pub proof fn lemma_children_in_order(t: Tree, p: int, j: nat, k: nat)
    requires
        0 <= p < t.len(),
        j < k,
        child(t, p, k) is Some,
    ensures
        child(t, p, j) is Some,
        subtree_end(t, child(t, p, j)->0) <= child(t, p, k)->0,
    decreases k,
{
    let before = child(t, p, (k - 1) as nat);
    assert(before is Some);
    lemma_child_in_subtree(t, p, (k - 1) as nat);
    lemma_subtree(t, before->0);
    if j < k - 1 {
        lemma_children_in_order(t, p, j, (k - 1) as nat);
    }
}

/// A node in the subtree of another has its own subtree in that subtree.
pub proof fn lemma_nested_end(t: Tree, a: int, b: int)
    requires
        0 <= a < b < subtree_end(t, a),
        b < t.len(),
    ensures
        subtree_end(t, b) <= subtree_end(t, a),
{
    lemma_scan_end_bounds(t, t[a].depth, a + 1);
    lemma_scan_end_bounds(t, t[b].depth, b + 1);
    let ea = subtree_end(t, a);
    let eb = subtree_end(t, b);
    if ea < eb {
        assert(t[b].depth > t[a].depth);
        assert(t[ea].depth <= t[a].depth);
        assert(t[ea].depth > t[b].depth);
    }
}

/// The first and the last token proper of a node are the only ones.
proof fn lemma_token_span_unique(t: Tree, i: int, f: int, l: int)
    requires
        is_first_token(t, i, f),
        is_last_token(t, i, l),
    ensures
        (choose|x: int| is_first_token(t, i, x)) == f,
        (choose|x: int| is_last_token(t, i, x)) == l,
        f <= l,
{
    let cf = choose|x: int| is_first_token(t, i, x);
    let cl = choose|x: int| is_last_token(t, i, x);
    if cf < f {
        assert(!is_token_of(t, i, cf));
    }
    if f < cf {
        assert(!is_token_of(t, i, f));
    }
    if cl < l {
        assert(!is_token_of(t, i, l));
    }
    if l < cl {
        assert(!is_token_of(t, i, cl));
    }
    if l < f {
        assert(!is_token_of(t, i, l));
    }
}

/// The text of the node at `i` without the trivia that leads and trails it.
pub fn trimmed_text_of_node(tree: &Vec<SyntaxEntry>, i: usize) -> (r: Vec<char>)
    requires
        i < tree.len(),
    ensures
        r@ == text_without_trivia(tree.deep_view(), i as int),
{
    let ghost t = tree.deep_view();
    let end = node_end(tree, i);
    let mut first: Option<usize> = None;
    let mut last: Option<usize> = None;
    let mut skip: usize = i;
    let mut k: usize = i;
    while k < end
        invariant
            i <= k <= end <= tree.len(),
            t == tree.deep_view(),
            end == subtree_end(t, i as int),
            i <= skip <= tree.len(),
            forall|a: int|
                i <= a < k && #[trigger] is_trivia_node(t, a) ==> subtree_end(t, a) <= skip,
            skip == i || exists|a: int| #[trigger]
                is_trivia_node(t, a) && i <= a < k && skip == subtree_end(t, a),
            first matches Some(f) ==> i <= f < k && is_token_of(t, i as int, f as int) && forall|
                j: int,
            |
                i <= j < f ==> !is_token_of(t, i as int, j),
            first is None ==> forall|j: int| i <= j < k ==> !is_token_of(t, i as int, j),
            last matches Some(l) ==> i <= l < k && is_token_of(t, i as int, l as int) && forall|
                j: int,
            |
                l < j < k ==> !is_token_of(t, i as int, j),
            first is Some <==> last is Some,
        decreases end - k,
    {
        let before: usize = skip;
        let is_trivia = has_kind(tree, k, "Trivia");
        if k >= skip && is_trivia {
            skip = node_end(tree, k);
            assert(is_trivia_node(t, k as int));
        }
        proof {
            if is_trivia {
                assert(is_trivia_node(t, k as int));
                if k < before {
                    let a = choose|a: int| #[trigger]
                        is_trivia_node(t, a) && i <= a < k && before == subtree_end(t, a);
                    lemma_nested_end(t, a, k as int);
                }
                lemma_scan_end_bounds(t, t[k as int].depth, k + 1);
                assert(in_trivia(t, i as int, k as int));
            } else if k < before {
                let a = choose|a: int| #[trigger]
                    is_trivia_node(t, a) && i <= a < k && before == subtree_end(t, a);
                assert(in_trivia(t, i as int, k as int));
            } else {
                assert(!in_trivia(t, i as int, k as int)) by {
                    if in_trivia(t, i as int, k as int) {
                        let a = choose|a: int| #[trigger]
                            is_trivia_node(t, a) && i <= a <= k && k < subtree_end(t, a);
                        assert(a < k);
                        assert(subtree_end(t, a) <= before);
                    }
                }
            }
        }
        if k >= before && !is_trivia && tree[k].text.as_str().unicode_len() > 0 {
            assert(is_token_of(t, i as int, k as int));
            if first.is_none() {
                first = Some(k);
            }
            last = Some(k);
        } else {
            assert(!is_token_of(t, i as int, k as int));
        }
        k += 1;
    }
    let mut out: Vec<char> = Vec::new();
    match (first, last) {
        (Some(f), Some(l)) => {
            proof {
                lemma_token_span_unique(t, i as int, f as int, l as int);
            }
            push_text_range(&mut out, tree, f, l + 1);
        },
        _ => {
            assert(!exists|f: int| is_first_token(t, i as int, f));
        },
    }
    out
}

/// The token of the terminal at `i`: the text of its second child.
pub open spec fn terminal_text(t: Tree, i: int) -> Seq<char> {
    match child(t, i, 1) {
        Some(c) => if 0 <= c < t.len() {
            t[c].text
        } else {
            Seq::empty()
        },
        None => Seq::empty(),
    }
}

/// The token of the terminal at `i`.
pub fn text_of_terminal(tree: &Vec<SyntaxEntry>, i: usize) -> (r: Vec<char>)
    requires
        i < tree.len(),
    ensures
        r@ == terminal_text(tree.deep_view(), i as int),
{
    match child_of(tree, i, 1) {
        Some(c) => chars_of(tree[c].text.as_str()),
        None => Vec::new(),
    }
}

/// Whether the attribute at `a` is named `name`: whether the text of its
/// path, without trivia, is `name`.
pub open spec fn attribute_is(t: Tree, a: int, name: Seq<char>) -> bool {
    match child(t, a, 2) {
        Some(path) => text_without_trivia(t, path) == name,
        None => false,
    }
}

/// Whether one of the first `n` children of the list at `list` is an
/// attribute named `name`.
pub open spec fn attribute_among(t: Tree, list: int, n: nat, name: Seq<char>) -> bool
    decreases n,
{
    if n == 0 {
        false
    } else {
        attribute_among(t, list, (n - 1) as nat, name) || match child(t, list, (n - 1) as nat) {
            Some(a) => attribute_is(t, a, name),
            None => false,
        }
    }
}

/// The number of children of the node at `p`, counted from its `k`-th child
/// on, which is at `c`.
pub open spec fn later_children(t: Tree, c: Option<int>) -> nat
    decreases
            match c {
                Some(c) => if 0 <= c < t.len() {
                    t.len() - c
                } else {
                    0
                },
                None => 0,
            },
{
    match c {
        Some(c) => if 0 <= c < t.len() {
            match next_sibling(t, c) {
                Some(e) => if c < e {
                    1 + later_children(t, Some(e))
                } else {
                    1
                },
                None => 1,
            }
        } else {
            0
        },
        None => 0,
    }
}

/// The number of children of the node at `p`.
pub open spec fn child_count(t: Tree, p: int) -> nat {
    later_children(t, first_child(t, p))
}

/// The children of a node are counted from the first on: with `k` children
/// passed, as many are left as follow the child at `k`.
pub proof fn lemma_children_left(t: Tree, p: int, k: nat)
    requires
        0 <= p < t.len(),
        k > 0 ==> child(t, p, (k - 1) as nat) is Some,
    ensures
        child_count(t, p) == k + later_children(t, child(t, p, k)),
    decreases k,
{
    if k > 0 {
        let c = child(t, p, (k - 1) as nat)->0;
        if k > 1 {
            lemma_children_in_order(t, p, (k - 2) as nat, (k - 1) as nat);
        }
        lemma_children_left(t, p, (k - 1) as nat);
        lemma_child_in_subtree(t, p, (k - 1) as nat);
        lemma_subtree(t, c);
    }
}

/// A node has a child for each number below the count of its children.
pub proof fn lemma_child_exists(t: Tree, p: int, k: nat)
    requires
        0 <= p < t.len(),
        k < child_count(t, p),
    ensures
        child(t, p, k) is Some,
    decreases k,
{
    if k > 0 {
        lemma_child_exists(t, p, (k - 1) as nat);
    }
    lemma_children_left(t, p, k);
}

/// The children of the node at `p`, in order.
pub fn children_of(tree: &Vec<SyntaxEntry>, p: usize) -> (r: Vec<usize>)
    requires
        p < tree.len(),
    ensures
        r.len() == child_count(tree.deep_view(), p as int),
        forall|k: int|
            0 <= k < r.len() ==> child(tree.deep_view(), p as int, k as nat) == Some(
                #[trigger] r[k] as int,
            ) && p < r[k] < tree.len(),
{
    let mut out: Vec<usize> = Vec::new();
    let mut current = first_child_of(tree, p);
    while current.is_some()
        invariant
            p < tree.len(),
            position(current) == child(tree.deep_view(), p as int, out.len() as nat),
            current matches Some(c) ==> p < c < tree.len(),
            child_count(tree.deep_view(), p as int) == out.len() + later_children(
                tree.deep_view(),
                position(current),
            ),
            forall|k: int|
                0 <= k < out.len() ==> child(tree.deep_view(), p as int, k as nat) == Some(
                    #[trigger] out[k] as int,
                ) && p < out[k] < tree.len(),
        decreases
                match current {
                    Some(c) => tree.len() - c,
                    None => 0,
                },
    {
        let c = current.unwrap();
        out.push(c);
        current = next_sibling_of(tree, c);
    }
    out
}

/// Whether the node at `item` carries an attribute named `name`: whether its
/// first child is a list of attributes of which one has that name.
pub open spec fn has_attribute(t: Tree, item: int, name: Seq<char>) -> bool {
    match child_of_kind(t, item, 0, "AttributeList"@) {
        Some(list) => attribute_among(t, list, child_count(t, list), name),
        None => false,
    }
}

/// Whether the node at `item` carries an attribute named `name`.
pub fn has_attr(tree: &Vec<SyntaxEntry>, item: usize, name: &str) -> (r: bool)
    requires
        item < tree.len(),
    ensures
        r == has_attribute(tree.deep_view(), item as int, name@),
{
    let wanted = chars_of(name);
    match find_child_of_kind(tree, item, 0, "AttributeList") {
        Some(list) => {
            let mut current = first_child_of(tree, list);
            let mut found = false;
            let ghost mut n: nat = 0;
            while current.is_some()
                invariant
                    list < tree.len(),
                    wanted@ == name@,
                    position(current) == child(tree.deep_view(), list as int, n),
                    current matches Some(c) ==> c < tree.len(),
                    found == attribute_among(tree.deep_view(), list as int, n, name@),
                    child_count(tree.deep_view(), list as int) == n + later_children(
                        tree.deep_view(),
                        position(current),
                    ),
                decreases
                        match current {
                            Some(c) => tree.len() - c,
                            None => 0,
                        },
            {
                let a = current.unwrap();
                let is_wanted = match child_of(tree, a, 2) {
                    Some(path) => {
                        let text = trimmed_text_of_node(tree, path);
                        chars_equal(&text, &wanted)
                    },
                    None => false,
                };
                found = found || is_wanted;
                current = next_sibling_of(tree, a);
                proof {
                    n = n + 1;
                }
            }
            found
        },
        None => false,
    }
}

/// What the host makes of a source text that it can parse: the nodes of its
/// syntax tree in preorder, and the texts of its tokens in order.
#[derive(Clone, Debug, PartialEq, Eq)]
pub struct ParsedSource {
    pub entries: Vec<SyntaxEntry>,
    pub tokens: Vec<String>,
}

/// The model of a [`ParsedSource`].
pub struct ParsedSourceView {
    pub entries: Seq<SyntaxEntryView>,
    pub tokens: Seq<Seq<char>>,
}

impl DeepView for ParsedSource {
    type V = ParsedSourceView;

    open spec fn deep_view(&self) -> ParsedSourceView {
        ParsedSourceView { entries: self.entries.deep_view(), tokens: self.tokens.deep_view() }
    }
}

/// What the host's parser makes of a source text: its syntax tree and its
/// tokens, or the parser's report of what is wrong with the text.
pub uninterp spec fn parsed_source(source: Seq<char>) -> Result<ParsedSourceView, Seq<char>>;

/// The model of what a parse gives.
pub open spec fn source_view(r: Result<ParsedSource, String>) -> Result<
    ParsedSourceView,
    Seq<char>,
> {
    match r {
        Ok(parsed) => Ok(parsed.deep_view()),
        Err(report) => Err(report@),
    }
}

/// Parses a source text with the host's parser.
///
/// Trusted: `SimpleParserDatabase::parse_virtual` of cairo_lang_parser, on a
/// fresh database. Where it gives a tree, each node met by
/// `SyntaxNode::descendants` becomes one entry, with the name of its kind,
/// the number of its ancestors and the text of its token; and the tokens are
/// the texts that `to_primitive_token_stream` of cairo_lang_syntax gives for
/// the tree. Where it gives diagnostics, they are formatted to text. The
/// result depends on the source text alone, so it is named and nothing more
/// is claimed of it.
#[verifier::external_body]
pub(crate) fn parse_source(source: &str) -> (r: Result<ParsedSource, String>)
    ensures
        source_view(r) == parsed_source(source@),
{
    let db = SimpleParserDatabase::default();
    let root = match db.parse_virtual(source) {
        Ok(root) => root,
        Err(diagnostics) => return Err(diagnostics.format(&db)),
    };
    let entries = root.descendants(&db).map(|node| SyntaxEntry {
        kind: format!("{:?}", node.kind(&db)),
        depth: node.ancestors(&db).count(),
        text: node.text(&db).map(|text| text.to_string(&db)).unwrap_or_default(),
    });
    let tokens = SyntaxNodeWithDb::new(&root, &db).to_primitive_token_stream();
    Ok(ParsedSource { entries: entries.collect(), tokens: tokens.map(|t| t.content).collect() })
}

/// The syntax tree that the host's parser makes of a source text, or the
/// parser's report of what is wrong with the text.
pub open spec fn parsed_syntax(source: Seq<char>) -> Result<Seq<SyntaxEntryView>, Seq<char>> {
    match parsed_source(source) {
        Ok(parsed) => Ok(parsed.entries),
        Err(report) => Err(report),
    }
}

/// The model of a tree, or of the report in its place.
pub open spec fn parse_view(r: Result<Vec<SyntaxEntry>, String>) -> Result<
    Seq<SyntaxEntryView>,
    Seq<char>,
> {
    match r {
        Ok(tree) => Ok(tree.deep_view()),
        Err(report) => Err(report@),
    }
}

/// Parses a source text to its syntax tree.
pub fn parse_syntax(source: &str) -> (r: Result<Vec<SyntaxEntry>, String>)
    ensures
        parse_view(r) == parsed_syntax(source@),
{
    match parse_source(source) {
        Ok(parsed) => Ok(parsed.entries),
        Err(report) => Err(report),
    }
}

/// The first among the first `n` children of the list at `list` that is an
/// item proper: a comment that heads the file is kept by the tree as an item
/// of its own kind, which is passed over.
pub open spec fn item_among(t: Tree, list: int, n: nat) -> Option<int>
    decreases n,
{
    if n == 0 {
        None
    } else {
        match item_among(t, list, (n - 1) as nat) {
            Some(c) => Some(c),
            None => match child(t, list, (n - 1) as nat) {
                Some(c) => if 0 <= c < t.len() && t[c].kind != "ItemHeaderDoc"@ {
                    Some(c)
                } else {
                    None
                },
                None => None,
            },
        }
    }
}

/// The first item of the file that the tree holds.
pub open spec fn first_item(t: Tree) -> Option<int> {
    if t.len() > 0 {
        match child_of_kind(t, 0, 0, "ModuleItemList"@) {
            Some(items) => item_among(t, items, child_count(t, items)),
            None => None,
        }
    } else {
        None
    }
}

/// Once an item is found among the first children, it is the one found among
/// any more of them.
proof fn lemma_item_found(t: Tree, list: int, n: nat, m: nat)
    requires
        n <= m,
        item_among(t, list, n) is Some,
    ensures
        item_among(t, list, m) == item_among(t, list, n),
    decreases m,
{
    if n < m {
        lemma_item_found(t, list, n, (m - 1) as nat);
    }
}

/// The first item of the file that the tree holds.
pub fn find_first_item(tree: &Vec<SyntaxEntry>) -> (r: Option<usize>)
    ensures
        position(r) == first_item(tree.deep_view()),
        r matches Some(item) ==> item < tree.len(),
{
    if tree.len() == 0 {
        return None;
    }
    let list = match find_child_of_kind(tree, 0, 0, "ModuleItemList") {
        Some(list) => list,
        None => {
            return None;
        },
    };
    let items = children_of(tree, list);
    let mut i: usize = 0;
    while i < items.len()
        invariant
            i <= items.len(),
            list < tree.len(),
            tree.len() > 0,
            child_of_kind(tree.deep_view(), 0, 0, "ModuleItemList"@) == Some(list as int),
            items.len() == child_count(tree.deep_view(), list as int),
            forall|k: int|
                0 <= k < items.len() ==> child(tree.deep_view(), list as int, k as nat) == Some(
                    #[trigger] items[k] as int,
                ) && list < items[k] < tree.len(),
            item_among(tree.deep_view(), list as int, i as nat) is None,
        decreases items.len() - i,
    {
        assert(child(tree.deep_view(), list as int, i as nat) == Some(items[i as int] as int));
        if !has_kind(tree, items[i], "ItemHeaderDoc") {
            proof {
                lemma_item_found(
                    tree.deep_view(),
                    list as int,
                    (i + 1) as nat,
                    items.len() as nat,
                );
            }
            return Some(items[i]);
        }
        i += 1;
    }
    None
}

/// What the host's formatter makes of a source text.
pub uninterp spec fn formatted_code(content: Seq<char>) -> Seq<char>;

/// Formats a source text with the host's formatter.
///
/// Trusted: `format_string` of cairo_lang_formatter, on a fresh database.
/// The result depends on the text alone, so it is named and nothing more is
/// claimed of it.
#[verifier::external_body]
pub(crate) fn format_code(content: &str) -> (r: String)
    ensures
        r@ == formatted_code(content@),
{
    format_string(&SimpleParserDatabase::default(), content.to_string())
}

} // verus!
