//! What an expander takes and what it gives back.

use vstd::prelude::*;
use crate::diagnostic::{Diagnostic, DiagnosticView};
use crate::text::{concat, string_of, push_str};
use crate::text_span::{
    contents,
    merge_spans_from_initial,
    merged_spans,
    Span,
    Token,
    TokenView,
};

verus! {

/// Where a stream of tokens comes from, as the host tells it. The library
/// reads none of it and hands it on as it is.
#[derive(Clone, Debug, PartialEq, Eq)]
pub struct TokenStreamMetadata {
    /// The path of the file that the stream was made from.
    pub original_file_path: Option<String>,
    /// The id of that file.
    pub file_id: Option<String>,
    /// The edition of Cairo that the stream is written in.
    pub edition: Option<String>,
}

/// The model of a [`TokenStreamMetadata`].
pub struct TokenStreamMetadataView {
    pub original_file_path: Option<Seq<char>>,
    pub file_id: Option<Seq<char>>,
    pub edition: Option<Seq<char>>,
}

impl DeepView for TokenStreamMetadata {
    type V = TokenStreamMetadataView;

    open spec fn deep_view(&self) -> TokenStreamMetadataView {
        TokenStreamMetadataView {
            original_file_path: self.original_file_path.deep_view(),
            file_id: self.file_id.deep_view(),
            edition: self.edition.deep_view(),
        }
    }
}

/// The metadata of a stream of which nothing is told.
pub open spec fn no_metadata() -> TokenStreamMetadataView {
    TokenStreamMetadataView { original_file_path: None, file_id: None, edition: None }
}

/// A copy of a text that may be missing.
fn copy_text(text: &Option<String>) -> (r: Option<String>)
    ensures
        r.deep_view() == text.deep_view(),
{
    match text {
        Some(text) => Some(text.clone()),
        None => None,
    }
}

impl TokenStreamMetadata {
    /// The metadata of a stream of which nothing is told.
    pub fn none() -> (r: TokenStreamMetadata)
        ensures
            r.deep_view() == no_metadata(),
    {
        TokenStreamMetadata { original_file_path: None, file_id: None, edition: None }
    }

    /// A copy of the metadata.
    pub fn copy(&self) -> (r: TokenStreamMetadata)
        ensures
            r.deep_view() == self.deep_view(),
    {
        TokenStreamMetadata {
            original_file_path: copy_text(&self.original_file_path),
            file_id: copy_text(&self.file_id),
            edition: copy_text(&self.edition),
        }
    }
}

/// A sequence of tokens, with what the host tells of where it comes from.
#[derive(Clone, Debug, PartialEq, Eq)]
pub struct TokenStream {
    pub tokens: Vec<Token>,
    pub metadata: TokenStreamMetadata,
}

/// The model of a [`TokenStream`].
pub struct TokenStreamView {
    pub tokens: Seq<TokenView>,
    pub metadata: TokenStreamMetadataView,
}

impl DeepView for TokenStream {
    type V = TokenStreamView;

    open spec fn deep_view(&self) -> TokenStreamView {
        TokenStreamView { tokens: self.tokens.deep_view(), metadata: self.metadata.deep_view() }
    }
}

/// The stream of the given tokens of which nothing more is told.
pub open spec fn plain_stream(tokens: Seq<TokenView>) -> TokenStreamView {
    TokenStreamView { tokens, metadata: no_metadata() }
}

/// The text of a stream: the texts of its tokens, one after another.
pub open spec fn stream_text(stream: TokenStreamView) -> Seq<char> {
    concat(contents(stream.tokens))
}

/// The tokens that stand for a text that was made up: none for the empty
/// text, and else one token with the whole text, from the call site.
pub open spec fn tokens_of_text(text: Seq<char>) -> Seq<TokenView> {
    if text.len() == 0 {
        Seq::empty()
    } else {
        seq![TokenView { content: text, span: Span::CallSite }]
    }
}

impl TokenStream {
    /// The stream of the given tokens.
    pub fn new(tokens: Vec<Token>) -> (r: TokenStream)
        ensures
            r.deep_view() == plain_stream(tokens.deep_view()),
    {
        TokenStream { tokens, metadata: TokenStreamMetadata::none() }
    }

    /// The stream without tokens.
    pub fn empty() -> (r: TokenStream)
        ensures
            r.deep_view() == plain_stream(Seq::empty()),
    {
        let tokens: Vec<Token> = Vec::new();
        assert(tokens.deep_view() =~= Seq::<TokenView>::empty());
        TokenStream { tokens, metadata: TokenStreamMetadata::none() }
    }

    /// The stream that stands for a text that was made up.
    pub fn from_text(text: &str) -> (r: TokenStream)
        ensures
            r.deep_view() == plain_stream(tokens_of_text(text@)),
    {
        let mut tokens: Vec<Token> = Vec::new();
        assert(tokens.deep_view() =~= Seq::<TokenView>::empty());
        if text.unicode_len() > 0 {
            tokens.push(Token { content: String::from_str(text), span: Span::CallSite });
            assert(tokens.deep_view() =~= seq![
                TokenView { content: text@, span: Span::CallSite },
            ]);
        }
        TokenStream { tokens, metadata: TokenStreamMetadata::none() }
    }

    /// The same tokens with the given metadata.
    pub fn with_metadata(self, metadata: TokenStreamMetadata) -> (r: TokenStream)
        ensures
            r.deep_view() == (TokenStreamView {
                tokens: self.deep_view().tokens,
                metadata: metadata.deep_view(),
            }),
    {
        TokenStream { tokens: self.tokens, metadata }
    }

    /// What the host tells of where the stream comes from.
    pub fn metadata(&self) -> (r: &TokenStreamMetadata)
        ensures
            r.deep_view() == self.deep_view().metadata,
    {
        &self.metadata
    }

    /// The text of the stream: the texts of its tokens, one after another.
    pub fn to_text(&self) -> (r: String)
        ensures
            r@ == stream_text(self.deep_view()),
    {
        let mut out: Vec<char> = Vec::new();
        let mut i: usize = 0;
        while i < self.tokens.len()
            invariant
                i <= self.tokens.len(),
                out@ == concat(contents(self.tokens.deep_view()).take(i as int)),
            decreases self.tokens.len() - i,
        {
            proof {
                let all = contents(self.tokens.deep_view());
                assert(all.take(i + 1).drop_last() == all.take(i as int));
                assert(all.take(i + 1).last() == self.tokens[i as int].content@);
            }
            push_str(&mut out, self.tokens[i].content.as_str());
            i += 1;
        }
        assert(contents(self.tokens.deep_view()).take(self.tokens.len() as int) == contents(
            self.tokens.deep_view(),
        ));
        string_of(&out)
    }
}

/// The tokens of the new code: those of the text with the spans of the
/// tokens of the input; where the text cannot be tokenized, it is one token
/// from the call site.
pub open spec fn output_tokens(initial: Seq<TokenView>, code: Seq<char>) -> Seq<TokenView> {
    match merged_spans(initial, code) {
        Some(tokens) => tokens,
        None => tokens_of_text(code),
    }
}

/// The stream of the new code: its tokens with the spans they take from the
/// input, and the metadata of the input as it is.
pub open spec fn output_stream(initial: TokenStreamView, code: Seq<char>) -> TokenStreamView {
    TokenStreamView { tokens: output_tokens(initial.tokens, code), metadata: initial.metadata }
}

/// The stream of the new code.
pub fn tokens_with_spans(item_stream: &TokenStream, code: &str) -> (r: TokenStream)
    ensures
        r.deep_view() == output_stream(item_stream.deep_view(), code@),
{
    let stream = match merge_spans_from_initial(&item_stream.tokens, code) {
        Some(tokens) => TokenStream::new(tokens),
        None => TokenStream::from_text(code),
    };
    stream.with_metadata(item_stream.metadata().copy())
}

/// What an expander gives back: the new code and the diagnostics. With an
/// error among the diagnostics the code is not to be used.
#[derive(Clone, Debug, PartialEq, Eq)]
pub struct ProcMacroResult {
    pub token_stream: TokenStream,
    pub diagnostics: Vec<Diagnostic>,
}

/// The model of a [`ProcMacroResult`].
pub struct ProcMacroResultView {
    pub token_stream: TokenStreamView,
    pub diagnostics: Seq<DiagnosticView>,
}

impl DeepView for ProcMacroResult {
    type V = ProcMacroResultView;

    open spec fn deep_view(&self) -> ProcMacroResultView {
        ProcMacroResultView {
            token_stream: self.token_stream.deep_view(),
            diagnostics: self.diagnostics.deep_view(),
        }
    }
}

/// The result without code and with one error.
pub open spec fn failure_of(message: Seq<char>) -> ProcMacroResultView {
    ProcMacroResultView {
        token_stream: plain_stream(Seq::empty()),
        diagnostics: seq![crate::diagnostic::error_of(message)],
    }
}

impl ProcMacroResult {
    /// The result with the given code and no diagnostics.
    pub fn new(token_stream: TokenStream) -> (r: ProcMacroResult)
        ensures
            r.deep_view() == (ProcMacroResultView {
                token_stream: token_stream.deep_view(),
                diagnostics: Seq::empty(),
            }),
    {
        let diagnostics: Vec<Diagnostic> = Vec::new();
        assert(diagnostics.deep_view() =~= Seq::<DiagnosticView>::empty());
        ProcMacroResult { token_stream, diagnostics }
    }

    /// The result with the same code and the given diagnostics.
    pub fn with_diagnostics(self, diagnostics: Vec<Diagnostic>) -> (r: ProcMacroResult)
        ensures
            r.deep_view() == (ProcMacroResultView {
                token_stream: self.token_stream.deep_view(),
                diagnostics: diagnostics.deep_view(),
            }),
    {
        ProcMacroResult { token_stream: self.token_stream, diagnostics }
    }

    /// The result without code and with one error.
    pub fn failure(diagnostic: Diagnostic) -> (r: ProcMacroResult)
        ensures
            r.deep_view() == (ProcMacroResultView {
                token_stream: plain_stream(Seq::empty()),
                diagnostics: seq![diagnostic.deep_view()],
            }),
    {
        let mut diagnostics: Vec<Diagnostic> = Vec::new();
        diagnostics.push(diagnostic);
        assert(diagnostics.deep_view() =~= seq![diagnostic.deep_view()]);
        ProcMacroResult { token_stream: TokenStream::empty(), diagnostics }
    }
}

} // verus!
