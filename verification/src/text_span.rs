//! Reconciling generated code with the tokens it was made from.
//!
//! Generated code is tokenized anew, and each of its tokens takes the span
//! of a token of the input with the same text: the first such token of the
//! output takes the span of the first such token of the input, the second
//! that of the second, and so on. A token for which the input has no such
//! token left gets the span of the call site. Only texts are compared, so a
//! token that was made up and happens to read like one of the input takes
//! that one's span, and equal tokens that the generated code puts in another
//! order take each other's spans.

use vstd::prelude::*;
use crate::span_index::SpanIndex;
use crate::syntax::{parse_source, parsed_source};

verus! {

/// A range of offsets in a source text.
#[derive(Clone, Copy, Debug, PartialEq, Eq, Structural)]
pub struct TextSpan {
    pub start: u32,
    pub end: u32,
}

/// Where a token comes from: a place in the source text, or the place where
/// the macro was called, for a token that was made up.
#[derive(Clone, Copy, Debug, PartialEq, Eq, Structural)]
pub enum Span {
    At(TextSpan),
    CallSite,
}

/// A token: its text and where it comes from.
#[derive(Clone, Debug, PartialEq, Eq)]
pub struct Token {
    pub content: String,
    pub span: Span,
}

/// The model of a [`Token`].
pub struct TokenView {
    pub content: Seq<char>,
    pub span: Span,
}

impl DeepView for Token {
    type V = TokenView;

    open spec fn deep_view(&self) -> TokenView {
        TokenView { content: self.content@, span: self.span }
    }
}

/// The texts of the given tokens, in order.
pub open spec fn contents(tokens: Seq<TokenView>) -> Seq<Seq<char>> {
    Seq::new(tokens.len(), |i: int| tokens[i].content)
}

/// The number of texts equal to `text` among the first `n` of `texts`.
pub open spec fn count_before(texts: Seq<Seq<char>>, text: Seq<char>, n: int) -> nat
    decreases n,
{
    if n <= 0 || n > texts.len() {
        0
    } else {
        count_before(texts, text, n - 1) + if texts[n - 1] == text {
            1nat
        } else {
            0nat
        }
    }
}

/// The rank of the text at `i` among the equal texts: the number of equal
/// texts before it.
pub open spec fn rank(texts: Seq<Seq<char>>, i: int) -> nat {
    count_before(texts, texts[i], i)
}

/// The spans of the tokens with the given text, in the order of the tokens.
pub open spec fn spans_of(tokens: Seq<TokenView>, text: Seq<char>) -> Seq<Span>
    decreases tokens.len(),
{
    if tokens.len() == 0 {
        Seq::empty()
    } else {
        spans_of(tokens.drop_last(), text) + if tokens.last().content == text {
            seq![tokens.last().span]
        } else {
            Seq::empty()
        }
    }
}

/// The span that the output token at `i` takes. Among the tokens of the
/// input with the same text it is the span of the one with the same rank:
/// the first such token of the output takes the span of the first of the
/// input, the second that of the second. Where the input has no such token
/// left, the span is that of the call site.
pub open spec fn span_for(initial: Seq<TokenView>, texts: Seq<Seq<char>>, i: int) -> Span {
    let queue = spans_of(initial, texts[i]);
    let r = rank(texts, i);
    if r < queue.len() {
        queue[r as int]
    } else {
        Span::CallSite
    }
}

/// The tokens of the output: one for each text, with the span it takes.
pub open spec fn reconciled(initial: Seq<TokenView>, texts: Seq<Seq<char>>) -> Seq<TokenView> {
    Seq::new(
        texts.len(),
        |i: int| TokenView { content: texts[i], span: span_for(initial, texts, i) },
    )
}

/// The output has one token for each text, in order and with that text.
pub proof fn lemma_reconciled_contents(initial: Seq<TokenView>, texts: Seq<Seq<char>>)
    ensures
        reconciled(initial, texts).len() == texts.len(),
        contents(reconciled(initial, texts)) == texts,
{
    assert(contents(reconciled(initial, texts)) =~= texts);
}

/// Among equal texts, a later one has a greater rank: no two tokens of the
/// output take the same place in the queue of their text, so that a span of
/// the input is given to one token of the output at most.
pub proof fn lemma_rank_grows(texts: Seq<Seq<char>>, i: int, j: int)
    requires
        0 <= i < j < texts.len(),
        texts[i] == texts[j],
    ensures
        rank(texts, i) < rank(texts, j),
{
    lemma_count_grows(texts, texts[i], i + 1, j);
}

/// The count of a text among the first texts grows with their number.
proof fn lemma_count_grows(texts: Seq<Seq<char>>, text: Seq<char>, n: int, m: int)
    requires
        0 <= n <= m <= texts.len(),
    ensures
        count_before(texts, text, n) <= count_before(texts, text, m),
    decreases m - n,
{
    if n < m {
        lemma_count_grows(texts, text, n, m - 1);
    }
}

/// The count of a text among the first texts of a list does not change when
/// the list goes on.
proof fn lemma_count_of_prefix(texts: Seq<Seq<char>>, text: Seq<char>, n: int, m: int)
    requires
        0 <= n <= m <= texts.len(),
    ensures
        count_before(texts.take(m), text, n) == count_before(texts, text, n),
    decreases n,
{
    if n > 0 {
        lemma_count_of_prefix(texts, text, n - 1, m);
    }
}

/// The queue of a text holds one span for each token with that text.
pub proof fn lemma_spans_of_len(tokens: Seq<TokenView>, text: Seq<char>)
    ensures
        spans_of(tokens, text).len() == count_before(contents(tokens), text, tokens.len() as int),
    decreases tokens.len(),
{
    if tokens.len() > 0 {
        let front = tokens.drop_last();
        lemma_spans_of_len(front, text);
        assert(contents(front) =~= contents(tokens).take(front.len() as int));
        lemma_count_of_prefix(contents(tokens), text, front.len() as int, front.len() as int);
    }
}

/// The queue of a text holds the spans of its tokens in their order: the
/// span of the token at `k` stands at the place of the rank of the token.
pub proof fn lemma_span_in_queue(tokens: Seq<TokenView>, k: int)
    requires
        0 <= k < tokens.len(),
    ensures
        rank(contents(tokens), k) < spans_of(tokens, tokens[k].content).len(),
        spans_of(tokens, tokens[k].content)[rank(contents(tokens), k) as int] == tokens[k].span,
    decreases tokens.len(),
{
    let text = tokens[k].content;
    let front = tokens.drop_last();
    assert(contents(front) =~= contents(tokens).take(front.len() as int));
    if k == tokens.len() - 1 {
        lemma_spans_of_len(front, text);
        lemma_count_of_prefix(contents(tokens), text, front.len() as int, front.len() as int);
    } else {
        lemma_span_in_queue(front, k);
        lemma_count_of_prefix(contents(tokens), text, k, front.len() as int);
        assert(contents(front)[k] == contents(tokens)[k]);
    }
}

/// A token of the output takes the span of the token of the input with the
/// same text and the same rank among the tokens of that text.
pub proof fn lemma_equal_rank_gives_span(
    initial: Seq<TokenView>,
    texts: Seq<Seq<char>>,
    k: int,
    i: int,
)
    requires
        0 <= k < initial.len(),
        0 <= i < texts.len(),
        initial[k].content == texts[i],
        rank(contents(initial), k) == rank(texts, i),
    ensures
        reconciled(initial, texts)[i].span == initial[k].span,
{
    lemma_span_in_queue(initial, k);
}

/// A text that stands once in the input and once in the output keeps its
/// span: the output token takes the span of the input token.
pub proof fn lemma_single_text_keeps_span(
    initial: Seq<TokenView>,
    texts: Seq<Seq<char>>,
    k: int,
    i: int,
)
    requires
        0 <= k < initial.len(),
        0 <= i < texts.len(),
        initial[k].content == texts[i],
        forall|l: int| 0 <= l < initial.len() && l != k ==> initial[l].content != texts[i],
        forall|j: int| 0 <= j < texts.len() && j != i ==> texts[j] != texts[i],
    ensures
        reconciled(initial, texts).len() == texts.len(),
        reconciled(initial, texts)[i].content == texts[i],
        reconciled(initial, texts)[i].span == initial[k].span,
{
    lemma_count_none(texts, texts[i], i);
    lemma_count_none(contents(initial), texts[i], k);
    lemma_equal_rank_gives_span(initial, texts, k, i);
}

/// A text that does not stand among the first `n` texts is counted zero
/// times there.
proof fn lemma_count_none(texts: Seq<Seq<char>>, text: Seq<char>, n: int)
    requires
        0 <= n <= texts.len(),
        forall|j: int| 0 <= j < n ==> texts[j] != text,
    ensures
        count_before(texts, text, n) == 0,
    decreases n,
{
    if n > 0 {
        lemma_count_none(texts, text, n - 1);
    }
}

/// A text that stands among the first `n` texts only at `at` is counted
/// once there.
proof fn lemma_count_one(texts: Seq<Seq<char>>, text: Seq<char>, at: int, n: int)
    requires
        0 <= at < n <= texts.len(),
        texts[at] == text,
        forall|j: int| 0 <= j < n && j != at ==> texts[j] != text,
    ensures
        count_before(texts, text, n) == 1,
    decreases n,
{
    if n - 1 == at {
        lemma_count_none(texts, text, at);
    } else {
        lemma_count_one(texts, text, at, n - 1);
    }
}

/// Equal texts keep their order: where a text stands twice in the input and
/// twice in the output, its first token of the output takes the span of its
/// first token of the input, and its second that of the second.
pub proof fn lemma_twin_texts_keep_order(
    initial: Seq<TokenView>,
    texts: Seq<Seq<char>>,
    k1: int,
    k2: int,
    i1: int,
    i2: int,
)
    requires
        0 <= k1 < k2 < initial.len(),
        0 <= i1 < i2 < texts.len(),
        initial[k1].content == texts[i1],
        initial[k2].content == texts[i1],
        texts[i2] == texts[i1],
        forall|l: int|
            0 <= l < initial.len() && l != k1 && l != k2 ==> initial[l].content != texts[i1],
        forall|j: int| 0 <= j < texts.len() && j != i1 && j != i2 ==> texts[j] != texts[i1],
    ensures
        reconciled(initial, texts)[i1].span == initial[k1].span,
        reconciled(initial, texts)[i2].span == initial[k2].span,
{
    let c = contents(initial);
    let text = texts[i1];
    lemma_count_none(texts, text, i1);
    lemma_count_one(texts, text, i1, i2);
    lemma_count_none(c, text, k1);
    lemma_count_one(c, text, k1, k2);
    lemma_equal_rank_gives_span(initial, texts, k1, i1);
    lemma_equal_rank_gives_span(initial, texts, k2, i2);
}

/// What is left of a queue once its first `r` spans are handed out.
pub open spec fn remaining(queue: Seq<Span>, r: nat) -> Seq<Span> {
    if r <= queue.len() {
        queue.skip(r as int)
    } else {
        Seq::empty()
    }
}

/// Builds the index of the spans of the given tokens: for each text the
/// spans of the tokens with that text, in the order of the tokens.
pub fn build_index(initial_tokens: &Vec<Token>) -> (index: SpanIndex)
    ensures
        index.wf(),
        forall|text: Seq<char>| index.queue(text) == spans_of(initial_tokens.deep_view(), text),
{
    let ghost initial = initial_tokens.deep_view();
    let mut index = SpanIndex::new();
    let mut n: usize = 0;
    while n < initial_tokens.len()
        invariant
            n <= initial_tokens.len(),
            initial == initial_tokens.deep_view(),
            index.wf(),
            forall|text: Seq<char>| index.queue(text) == spans_of(initial.take(n as int), text),
        decreases initial_tokens.len() - n,
    {
        let token = &initial_tokens[n];
        let ghost before = index;
        index.push(token.content.as_str(), token.span);
        proof {
            let next = initial.take(n + 1);
            assert(next.drop_last() == initial.take(n as int));
            assert(next.last() == token.deep_view());
            assert forall|text: Seq<char>| index.queue(text) == spans_of(next, text) by {
                assert(before.queue(text) == spans_of(initial.take(n as int), text));
                if text == token.content@ {
                    assert(before.queue(text).push(token.span) =~= before.queue(text) + seq![
                        token.span,
                    ]);
                } else {
                    assert(before.queue(text) + Seq::<Span>::empty() =~= before.queue(text));
                }
            }
        }
        n += 1;
    }
    assert(initial.take(initial_tokens.len() as int) == initial);
    index
}

/// Gives each text of the output the span that it takes from the tokens of
/// the input: the spans of the input are indexed by the text of their
/// tokens, and each text of the output, in order, takes the oldest span of
/// its text that is left, or else that of the call site.
///
/// The result has one token for each text, in order and with that text.
pub fn reconcile(initial_tokens: &Vec<Token>, texts: &Vec<String>) -> (r: Vec<Token>)
    ensures
        r.deep_view() == reconciled(initial_tokens.deep_view(), texts.deep_view()),
{
    let ghost initial = initial_tokens.deep_view();
    let ghost all = texts.deep_view();
    let mut span_index = build_index(initial_tokens);
    let mut out: Vec<Token> = Vec::new();
    let mut i: usize = 0;
    assert forall|text: Seq<char>| span_index.queue(text) == remaining(
        spans_of(initial, text),
        count_before(all, text, 0),
    ) by {
        assert(spans_of(initial, text).skip(0) =~= spans_of(initial, text));
    }
    while i < texts.len()
        invariant
            i <= texts.len(),
            out.len() == i,
            initial == initial_tokens.deep_view(),
            all == texts.deep_view(),
            span_index.wf(),
            forall|text: Seq<char>|
                span_index.queue(text) == remaining(
                    spans_of(initial, text),
                    count_before(all, text, i as int),
                ),
            forall|j: int|
                0 <= j < i ==> (#[trigger] out[j]).deep_view() == reconciled(initial, all)[j],
        decreases texts.len() - i,
    {
        let text = &texts[i];
        let ghost before = span_index;
        let ghost queue = spans_of(initial, text@);
        let ghost r = rank(all, i as int);
        assert(all[i as int] == text@);
        let span = match span_index.pop(text.as_str()) {
            Some(span) => span,
            None => Span::CallSite,
        };
        proof {
            assert(before.queue(text@) == remaining(queue, r));
            assert(span == span_for(initial, all, i as int));
            assert forall|other: Seq<char>| span_index.queue(other) == remaining(
                spans_of(initial, other),
                count_before(all, other, i + 1),
            ) by {
                if other == text@ {
                    if r < queue.len() {
                        assert(queue.skip(r as int).drop_first() =~= queue.skip(r as int + 1));
                    }
                }
            }
        }
        out.push(Token { content: text.clone(), span });
        i += 1;
    }
    assert(out.deep_view() =~= reconciled(initial, all));
    out
}

/// The texts of the tokens that the host makes of a source text, where it
/// can parse the text.
pub open spec fn tokenized(source: Seq<char>) -> Option<Seq<Seq<char>>> {
    match parsed_source(source) {
        Ok(parsed) => Some(parsed.tokens),
        Err(_) => None,
    }
}

/// The model of what the tokenizer gives.
pub open spec fn tokens_view(r: Option<Vec<String>>) -> Option<Seq<Seq<char>>> {
    match r {
        Some(texts) => Some(texts.deep_view()),
        None => None,
    }
}

/// Tokenizes a source text with the host's tokenizer. There is no result
/// where the host cannot parse the text.
pub fn tokenize_str(s: &str) -> (r: Option<Vec<String>>)
    ensures
        tokens_view(r) == tokenized(s@),
{
    match parse_source(s) {
        Ok(parsed) => Some(parsed.tokens),
        Err(_) => None,
    }
}

/// What the reconciliation of a generated text gives: its tokens with the
/// spans they take, where the text can be tokenized.
pub open spec fn merged_spans(initial: Seq<TokenView>, final_output: Seq<char>) -> Option<
    Seq<TokenView>,
> {
    match tokenized(final_output) {
        Some(texts) => Some(reconciled(initial, texts)),
        None => None,
    }
}

/// The model of an optional list of tokens.
pub open spec fn merge_view(r: Option<Vec<Token>>) -> Option<Seq<TokenView>> {
    match r {
        Some(tokens) => Some(tokens.deep_view()),
        None => None,
    }
}

/// Tokenizes `final_output` and gives each of its tokens the span of the
/// token of `initial_tokens` that it pairs with, or that of the call site.
///
/// There is no result where the host's tokenizer cannot parse the text.
pub fn merge_spans_from_initial(initial_tokens: &Vec<Token>, final_output: &str) -> (r: Option<
    Vec<Token>,
>)
    ensures
        merge_view(r) == merged_spans(initial_tokens.deep_view(), final_output@),
{
    match tokenize_str(final_output) {
        Some(texts) => Some(reconcile(initial_tokens, &texts)),
        None => None,
    }
}

} // verus!
