//! The little language in which the events of a helper are declared.
//!
//! ```text
//! dsl        := '{' impl_block '}'
//! impl_block := 'pub'? 'impl' Ident '{' event* '}'
//! event      := ('#[' 'only' ']')? 'event' Ident '(' (parameter (',' parameter)*)? ')' ';'
//! parameter  := ('#[' 'key' ']')? Ident ':' Ident
//! ```
//!
//! A parser reads from a position of the input and gives the position
//! behind what it read together with what it read, or stops. It stops with
//! an error where what it is to read does not begin at the position, which
//! lets a list end there; and with a failure where it has begun to read and
//! cannot go on, which ends the whole parse.

use vstd::prelude::*;
use crate::text::{
    chars_of,
    first_non_whitespace,
    matches_at,
    occurs_at,
    push_all,
    push_range,
    push_str,
    string_of,
    trim_start,
};

verus! {

/// The block of events of one helper.
#[derive(Debug)]
pub struct ImplBlock {
    pub is_public: bool,
    pub name: String,
    pub events: Vec<Event>,
}

/// One event: its name, its parameters in order, and whether a helper is
/// wanted that asserts it was the only event.
#[derive(Debug)]
pub struct Event {
    pub name: String,
    pub fields: Vec<Parameter>,
    pub is_only: bool,
}

/// One parameter of an event: its name, its type, and whether it is a key.
#[derive(Debug)]
pub struct Parameter {
    pub is_key: bool,
    pub name: String,
    pub ty: String,
}

/// The model of a [`Parameter`].
pub struct ParameterView {
    pub is_key: bool,
    pub name: Seq<char>,
    pub ty: Seq<char>,
}

/// The model of an [`Event`].
pub struct EventView {
    pub name: Seq<char>,
    pub fields: Seq<ParameterView>,
    pub is_only: bool,
}

/// The model of an [`ImplBlock`].
pub struct ImplBlockView {
    pub is_public: bool,
    pub name: Seq<char>,
    pub events: Seq<EventView>,
}

impl DeepView for Parameter {
    type V = ParameterView;

    open spec fn deep_view(&self) -> ParameterView {
        ParameterView { is_key: self.is_key, name: self.name@, ty: self.ty@ }
    }
}

impl DeepView for Event {
    type V = EventView;

    open spec fn deep_view(&self) -> EventView {
        EventView { name: self.name@, fields: self.fields.deep_view(), is_only: self.is_only }
    }
}

impl DeepView for ImplBlock {
    type V = ImplBlockView;

    open spec fn deep_view(&self) -> ImplBlockView {
        ImplBlockView {
            is_public: self.is_public,
            name: self.name@,
            events: self.events.deep_view(),
        }
    }
}

/// Why a parse stopped.
#[derive(Debug, Clone, PartialEq, Eq)]
pub struct ParserError {
    pub message: String,
}

/// How a parse stopped: with an error, where what was to be read does not
/// begin, or with a failure, where it is broken off.
#[derive(Debug, Clone, PartialEq, Eq)]
pub enum ParseError {
    Error(ParserError),
    Failure(ParserError),
}

/// What a parser gives: the position behind what it read and what it read,
/// or the message with which it stopped.
pub enum Outcome<T> {
    Done(int, T),
    Error(Seq<char>),
    Failure(Seq<char>),
}

/// The advice that goes with a syntax that no rule expects.
pub const SYNTAX_TIP: &'static str = "Expected syntax like `{ impl Helper { event Foo(...); } }`.";

/// The first 18 characters of what is left of the input behind its leading
/// white space, with `...` where more follows; `EOF` where nothing is left.
pub open spec fn preview_of(input: Seq<char>) -> Seq<char> {
    let trimmed = trim_start(input);
    if trimmed.len() == 0 {
        "EOF"@
    } else if trimmed.len() > 18 {
        trimmed.take(18) + "..."@
    } else {
        trimmed
    }
}

/// A message with its advice and with the place in the input where the
/// parse stood.
pub open spec fn context_message(message: Seq<char>, tip: Seq<char>, input: Seq<char>) -> Seq<
    char,
> {
    message + if tip.len() > 0 {
        " "@ + tip
    } else {
        Seq::empty()
    } + if trim_start(input).len() > 0 {
        " (around `"@ + preview_of(input) + "`)"@
    } else {
        " (near end of input)"@
    }
}

/// The message for an input that a rule of the given kind cannot read.
pub open spec fn unexpected(kind: Seq<char>, input: Seq<char>) -> Seq<char> {
    context_message("Unexpected syntax ("@ + kind + ")."@, SYNTAX_TIP@, input)
}

/// The message for a token that is missing.
pub open spec fn expected(
    token: Seq<char>,
    purpose: Seq<char>,
    tip: Seq<char>,
    input: Seq<char>,
) -> Seq<char> {
    context_message("Expected `"@ + token + "` to "@ + purpose + "."@, tip, input)
}

/// The message for a token that is missing names the token and what it is
/// expected for, before anything else.
pub proof fn lemma_expected_names_token(
    token: Seq<char>,
    purpose: Seq<char>,
    tip: Seq<char>,
    input: Seq<char>,
)
    ensures
        crate::text::starts_with(
            expected(token, purpose, tip, input),
            "Expected `"@ + token + "` to "@ + purpose + "."@,
        ),
{
    let head = "Expected `"@ + token + "` to "@ + purpose + "."@;
    let whole = expected(token, purpose, tip, input);
    assert(whole.subrange(0, head.len() as int) =~= head);
}

/// A short look at what is left of the input, for a message.
pub fn preview(input: &str) -> (r: String)
    ensures
        r@ == preview_of(input@),
{
    let chars = chars_of(input);
    assert(chars@.skip(0) == chars@);
    string_of(&preview_from(&chars, 0))
}

/// A short look at what is left of the input from `at` on.
fn preview_from(input: &Vec<char>, at: usize) -> (r: Vec<char>)
    requires
        at <= input.len(),
    ensures
        r@ == preview_of(input@.skip(at as int)),
{
    let mut rest: Vec<char> = Vec::new();
    push_range(&mut rest, input, at, input.len());
    assert(rest@ == input@.skip(at as int));
    let start = first_non_whitespace(&rest, 0);
    let mut snippet: Vec<char> = Vec::new();
    if start == rest.len() {
        push_str(&mut snippet, "EOF");
        return snippet;
    }
    let trimmed_len: usize = rest.len() - start;
    if trimmed_len > 18 {
        push_range(&mut snippet, &rest, start, start + 18);
        assert(rest@.subrange(start as int, start + 18) == rest@.skip(start as int).take(18));
        push_str(&mut snippet, "...");
    } else {
        push_range(&mut snippet, &rest, start, rest.len());
        assert(rest@.subrange(start as int, rest.len() as int) == rest@.skip(start as int));
    }
    snippet
}

/// Appends to `full` the advice and the place of a message.
fn push_context(full: &mut Vec<char>, tip: &str, input: &Vec<char>, at: usize)
    requires
        at <= input.len(),
    ensures
        final(full)@ == context_message(old(full)@, tip@, input@.skip(at as int)),
{
    if tip.unicode_len() > 0 {
        push_str(full, " ");
        push_str(full, tip);
    } else {
        assert(full@ + Seq::<char>::empty() == full@);
    }
    let mut rest: Vec<char> = Vec::new();
    push_range(&mut rest, input, at, input.len());
    assert(rest@ == input@.skip(at as int));
    let start = first_non_whitespace(&rest, 0);
    if start < rest.len() {
        push_str(full, " (around `");
        let snippet = preview_from(input, at);
        push_all(full, &snippet);
        push_str(full, "`)");
    } else {
        push_str(full, " (near end of input)");
    }
}

impl ParserError {
    /// The error with the given message.
    pub fn new(message: &str) -> (r: ParserError)
        ensures
            r.message@ == message@,
    {
        ParserError { message: String::from_str(message) }
    }

    /// The error with the given message, its advice, and the place in the
    /// input where the parse stood.
    pub fn with_context(message: &str, tip: &str, input: &str) -> (r: ParserError)
        ensures
            r.message@ == context_message(message@, tip@, input@),
    {
        let chars = chars_of(input);
        let mut full: Vec<char> = Vec::new();
        push_str(&mut full, message);
        assert(chars@.skip(0) == chars@);
        push_context(&mut full, tip, &chars, 0);
        ParserError { message: string_of(&full) }
    }
}

/// Whether `c` is a blank, a tab, a carriage return or a line feed.
pub open spec fn is_space(c: char) -> bool {
    c == ' ' || c == '\t' || c == '\r' || c == '\n'
}

/// Whether `c` is a letter of the ASCII alphabet.
pub open spec fn is_alpha(c: char) -> bool {
    ('a' <= c && c <= 'z') || ('A' <= c && c <= 'Z')
}

/// Whether `c` may stand in an identifier: a letter, a digit or an
/// underscore.
pub open spec fn is_ident_char(c: char) -> bool {
    is_alpha(c) || ('0' <= c && c <= '9') || c == '_'
}

/// The first position from `i` on that holds no space.
pub open spec fn spaces_end(s: Seq<char>, i: int) -> int
    decreases s.len() - i,
{
    if 0 <= i < s.len() && is_space(s[i]) {
        spaces_end(s, i + 1)
    } else {
        i
    }
}

/// The first position from `i` on that holds no letter.
pub open spec fn alpha_end(s: Seq<char>, i: int) -> int
    decreases s.len() - i,
{
    if 0 <= i < s.len() && is_alpha(s[i]) {
        alpha_end(s, i + 1)
    } else {
        i
    }
}

/// The first position from `i` on that holds no character of an identifier.
pub open spec fn ident_end(s: Seq<char>, i: int) -> int
    decreases s.len() - i,
{
    if 0 <= i < s.len() && is_ident_char(s[i]) {
        ident_end(s, i + 1)
    } else {
        i
    }
}

/// The characters of an identifier are skipped forwards, and not beyond the
/// input.
proof fn lemma_ident_end_grows(s: Seq<char>, i: int)
    requires
        0 <= i <= s.len(),
    ensures
        i <= ident_end(s, i) <= s.len(),
    decreases s.len() - i,
{
    if i < s.len() && is_ident_char(s[i]) {
        lemma_ident_end_grows(s, i + 1);
    }
}

/// Skips the spaces from `i` on.
pub fn skip_spaces(s: &Vec<char>, i: usize) -> (r: usize)
    requires
        i <= s.len(),
    ensures
        r == spaces_end(s@, i as int),
        i <= r <= s.len(),
{
    let mut k: usize = i;
    while k < s.len() && (s[k] == ' ' || s[k] == '\t' || s[k] == '\r' || s[k] == '\n')
        invariant
            i <= k <= s.len(),
            spaces_end(s@, i as int) == spaces_end(s@, k as int),
        decreases s.len() - k,
    {
        k += 1;
    }
    k
}

/// Whether `c` is a letter of the ASCII alphabet.
fn char_is_alpha(c: char) -> (r: bool)
    ensures
        r == is_alpha(c),
{
    (c >= 'a' && c <= 'z') || (c >= 'A' && c <= 'Z')
}

/// Skips the letters from `i` on.
fn skip_alpha(s: &Vec<char>, i: usize) -> (r: usize)
    requires
        i <= s.len(),
    ensures
        r == alpha_end(s@, i as int),
        i <= r <= s.len(),
{
    let mut k: usize = i;
    while k < s.len() && char_is_alpha(s[k])
        invariant
            i <= k <= s.len(),
            alpha_end(s@, i as int) == alpha_end(s@, k as int),
        decreases s.len() - k,
    {
        k += 1;
    }
    k
}

/// Skips the characters of an identifier from `i` on.
fn skip_ident(s: &Vec<char>, i: usize) -> (r: usize)
    requires
        i <= s.len(),
    ensures
        r == ident_end(s@, i as int),
        i <= r <= s.len(),
{
    let mut k: usize = i;
    while k < s.len() && (char_is_alpha(s[k]) || (s[k] >= '0' && s[k] <= '9') || s[k] == '_')
        invariant
            i <= k <= s.len(),
            ident_end(s@, i as int) == ident_end(s@, k as int),
        decreases s.len() - k,
    {
        k += 1;
    }
    k
}

/// The model of what a parser gives.
pub open spec fn outcome<T: DeepView>(r: Result<(usize, T), ParseError>) -> Outcome<T::V> {
    match r {
        Ok((rest, value)) => Outcome::Done(rest as int, value.deep_view()),
        Err(ParseError::Error(e)) => Outcome::Error(e.message@),
        Err(ParseError::Failure(e)) => Outcome::Failure(e.message@),
    }
}

/// The error for an input that a rule of the given kind cannot read.
fn unexpected_syntax(kind: &str, s: &Vec<char>, at: usize) -> (r: ParserError)
    requires
        at <= s.len(),
    ensures
        r.message@ == unexpected(kind@, s@.skip(at as int)),
{
    let mut full: Vec<char> = Vec::new();
    push_str(&mut full, "Unexpected syntax (");
    push_str(&mut full, kind);
    push_str(&mut full, ").");
    push_context(&mut full, SYNTAX_TIP, s, at);
    ParserError { message: string_of(&full) }
}

/// The error for a token that is missing.
fn missing_token(token: &str, purpose: &str, tip: &str, s: &Vec<char>, at: usize) -> (r:
    ParserError)
    requires
        at <= s.len(),
    ensures
        r.message@ == expected(token@, purpose@, tip@, s@.skip(at as int)),
{
    let mut full: Vec<char> = Vec::new();
    push_str(&mut full, "Expected `");
    push_str(&mut full, token);
    push_str(&mut full, "` to ");
    push_str(&mut full, purpose);
    push_str(&mut full, ".");
    push_context(&mut full, tip, s, at);
    ParserError { message: string_of(&full) }
}

/// An identifier at `i`: a letter, followed by letters, digits and
/// underscores as far as they go.
pub open spec fn identifier_at(s: Seq<char>, i: int) -> Outcome<Seq<char>> {
    if 0 <= i < s.len() && is_alpha(s[i]) {
        Outcome::Done(ident_end(s, i), s.subrange(i, ident_end(s, i)))
    } else {
        Outcome::Error(unexpected("Alpha"@, s.skip(i)))
    }
}

/// Reads an identifier like `AccessControlDefaultAdminRulesSpyHelpers`.
pub fn identifier(s: &Vec<char>, i: usize) -> (r: Result<(usize, String), ParseError>)
    requires
        i <= s.len(),
    ensures
        outcome(r) == identifier_at(s@, i as int),
        r matches Ok((rest, _)) ==> i < rest <= s.len(),
{
    if i < s.len() && char_is_alpha(s[i]) {
        let end = skip_ident(s, i);
        assert(end > i) by {
            assert(is_ident_char(s@[i as int]));
            lemma_ident_end_grows(s@, i + 1);
        }
        let mut text: Vec<char> = Vec::new();
        push_range(&mut text, s, i, end);
        Ok((end, string_of(&text)))
    } else {
        Err(ParseError::Error(unexpected_syntax("Alpha", s, i)))
    }
}

/// The token `token` at `i`, which has to stand there.
pub open spec fn token_at(
    s: Seq<char>,
    i: int,
    token: Seq<char>,
    purpose: Seq<char>,
    tip: Seq<char>,
) -> Outcome<bool> {
    if occurs_at(s, i, token) {
        Outcome::Done(i + token.len(), true)
    } else {
        Outcome::Failure(expected(token, purpose, tip, s.skip(i)))
    }
}

/// Reads the token `token`, or fails with a message that says what it is
/// expected for.
pub fn expect_token(s: &Vec<char>, i: usize, token: &str, purpose: &str, tip: &str) -> (r: Result<
    (usize, bool),
    ParseError,
>)
    requires
        i <= s.len(),
    ensures
        outcome(r) == token_at(s@, i as int, token@, purpose@, tip@),
        r matches Ok((rest, _)) ==> rest == i + token@.len() && rest <= s.len(),
{
    let wanted = chars_of(token);
    if matches_at(s, i, &wanted) {
        Ok((i + wanted.len(), true))
    } else {
        Err(ParseError::Failure(missing_token(token, purpose, tip, s, i)))
    }
}

/// The text of one character.
pub open spec fn char_text(c: char) -> Seq<char> {
    seq![c]
}

/// Reads the character `ch`, or fails with a message that says what it is
/// expected for.
pub fn expect_char_token(s: &Vec<char>, i: usize, ch: char, purpose: &str, tip: &str) -> (r: Result<
    (usize, bool),
    ParseError,
>)
    requires
        i <= s.len(),
    ensures
        outcome(r) == token_at(s@, i as int, char_text(ch), purpose@, tip@),
        r matches Ok((rest, _)) ==> rest == i + 1 && rest <= s.len(),
{
    if i < s.len() && s[i] == ch {
        assert(s@.subrange(i as int, i + 1) =~= seq![ch]);
        Ok((i + 1, true))
    } else {
        proof {
            if occurs_at(s@, i as int, char_text(ch)) {
                assert(s@.subrange(i as int, i + 1)[0] == ch);
            }
        }
        let mut full: Vec<char> = Vec::new();
        push_str(&mut full, "Expected `");
        full.push(ch);
        push_str(&mut full, "` to ");
        push_str(&mut full, purpose);
        push_str(&mut full, ".");
        assert(full@ =~= "Expected `"@ + char_text(ch) + "` to "@ + purpose@ + "."@);
        push_context(&mut full, tip, s, i);
        Err(ParseError::Failure(ParserError { message: string_of(&full) }))
    }
}

/// The message for an attribute of a parameter that is not `key`.
pub open spec fn unsupported_parameter_attribute(attr: Seq<char>) -> Seq<char> {
    "Unsupported parameter attribute `#["@ + attr
        + "]`. Tip: only `#[key]` is allowed on event fields."@
}

/// The message for an attribute of an event that is not `only`.
pub open spec fn unsupported_event_attribute(attr: Seq<char>) -> Seq<char> {
    "Unsupported event attribute `#["@ + attr + "]`. Tip: only `#[only]` is allowed before events."@
}

/// The attribute of a parameter at `i`, which may be missing: `#[key]` says
/// that the parameter is a key. What does not begin like an attribute is
/// none; an attribute that is not closed, or is not `key`, is a failure.
pub open spec fn key_attribute_at(s: Seq<char>, i: int) -> Outcome<bool> {
    if !occurs_at(s, i, "#["@) {
        Outcome::Done(i, false)
    } else {
        match identifier_at(s, i + 2) {
            Outcome::Done(j, attr) => if 0 <= j < s.len() && s[j] == ']' {
                if attr == "key"@ {
                    Outcome::Done(j + 1, true)
                } else {
                    Outcome::Failure(unsupported_parameter_attribute(attr))
                }
            } else {
                Outcome::Failure(
                    expected(
                        "]"@,
                        "close the attribute"@,
                        "Attributes must end with `]`."@,
                        s.skip(j),
                    ),
                )
            },
            _ => Outcome::Done(i, false),
        }
    }
}

/// Reads the attribute of a parameter, which may be missing.
pub fn key_attribute(s: &Vec<char>, i: usize) -> (r: Result<(usize, bool), ParseError>)
    requires
        i <= s.len(),
    ensures
        outcome(r) == key_attribute_at(s@, i as int),
        r matches Ok((rest, _)) ==> i <= rest <= s.len(),
{
    let opening = chars_of("#[");
    if !matches_at(s, i, &opening) {
        return Ok((i, false));
    }
    proof {
        reveal_strlit("#[");
        reveal_strlit("]");
        assert("]"@ =~= char_text(']'));
    }
    match identifier(s, i + 2) {
        Ok((j, attr)) => {
            match expect_char_token(
                s,
                j,
                ']',
                "close the attribute",
                "Attributes must end with `]`.",
            ) {
                Ok((k, _)) => {
                    assert(s@.subrange(j as int, j + 1)[0] == ']');
                    if crate::text::str_equal(attr.as_str(), "key") {
                        Ok((k, true))
                    } else {
                        let mut message: Vec<char> = Vec::new();
                        push_str(&mut message, "Unsupported parameter attribute `#[");
                        push_str(&mut message, attr.as_str());
                        push_str(
                            &mut message,
                            "]`. Tip: only `#[key]` is allowed on event fields.",
                        );
                        Err(ParseError::Failure(ParserError { message: string_of(&message) }))
                    }
                },
                Err(e) => {
                    proof {
                        if j < s.len() && s@[j as int] == ']' {
                            assert(s@.subrange(j as int, j + 1) =~= char_text(']'));
                        }
                    }
                    Err(e)
                },
            }
        },
        Err(_) => Ok((i, false)),
    }
}

/// A parameter at `i`: its attribute, which may be missing, its name, a
/// colon and its type, with spaces wherever they please.
pub open spec fn parameter_at(s: Seq<char>, i: int) -> Outcome<ParameterView> {
    match key_attribute_at(s, spaces_end(s, i)) {
        Outcome::Done(a, is_key) => match identifier_at(s, spaces_end(s, a)) {
            Outcome::Done(b, name) => match token_at(
                s,
                spaces_end(s, b),
                ":"@,
                "separate the field name from its type"@,
                "Use `name: Type` for parameters."@,
            ) {
                Outcome::Done(c, _) => match identifier_at(s, spaces_end(s, c)) {
                    Outcome::Done(d, ty) => Outcome::Done(
                        spaces_end(s, d),
                        ParameterView { is_key, name, ty },
                    ),
                    Outcome::Error(m) => Outcome::Error(m),
                    Outcome::Failure(m) => Outcome::Failure(m),
                },
                Outcome::Error(m) => Outcome::Error(m),
                Outcome::Failure(m) => Outcome::Failure(m),
            },
            Outcome::Error(m) => Outcome::Error(m),
            Outcome::Failure(m) => Outcome::Failure(m),
        },
        Outcome::Error(m) => Outcome::Error(m),
        Outcome::Failure(m) => Outcome::Failure(m),
    }
}

/// Reads a parameter like `new_admin: ContractAddress`.
pub fn parameter(s: &Vec<char>, i: usize) -> (r: Result<(usize, Parameter), ParseError>)
    requires
        i <= s.len(),
    ensures
        outcome(r) == parameter_at(s@, i as int),
        r matches Ok((rest, _)) ==> i < rest <= s.len(),
{
    proof {
        reveal_strlit(":");
        assert(":"@ =~= char_text(':'));
    }
    let a = skip_spaces(s, i);
    let (a, is_key) = match key_attribute(s, a) {
        Ok(found) => found,
        Err(e) => {
            return Err(e);
        },
    };
    let b = skip_spaces(s, a);
    let (b, name) = match identifier(s, b) {
        Ok(found) => found,
        Err(e) => {
            return Err(e);
        },
    };
    let c = skip_spaces(s, b);
    let (c, _) = match expect_char_token(
        s,
        c,
        ':',
        "separate the field name from its type",
        "Use `name: Type` for parameters.",
    ) {
        Ok(found) => found,
        Err(e) => {
            return Err(e);
        },
    };
    let d = skip_spaces(s, c);
    let (d, ty) = match identifier(s, d) {
        Ok(found) => found,
        Err(e) => {
            return Err(e);
        },
    };
    let e = skip_spaces(s, d);
    Ok((e, Parameter { is_key, name, ty }))
}

/// The parameters that follow those of `acc` from `j` on, each behind a
/// comma. The list ends where no comma follows, and in front of a comma
/// that no parameter follows.
pub open spec fn more_parameters_at(s: Seq<char>, j: int, acc: Seq<ParameterView>) -> Outcome<
    Seq<ParameterView>,
>
    decreases s.len() - j,
{
    if 0 <= j < s.len() && s[j] == ',' {
        match parameter_at(s, j + 1) {
            Outcome::Done(k, p) => if j < k <= s.len() {
                more_parameters_at(s, k, acc.push(p))
            } else {
                Outcome::Error(unexpected("SeparatedList"@, s.skip(j)))
            },
            Outcome::Error(_) => Outcome::Done(j, acc),
            Outcome::Failure(m) => Outcome::Failure(m),
        }
    } else {
        Outcome::Done(j, acc)
    }
}

/// The parameters at `i`, with commas between them; there may be none.
pub open spec fn parameters_at(s: Seq<char>, i: int) -> Outcome<Seq<ParameterView>> {
    match parameter_at(s, i) {
        Outcome::Done(j, p) => more_parameters_at(s, j, seq![p]),
        Outcome::Error(_) => Outcome::Done(i, Seq::empty()),
        Outcome::Failure(m) => Outcome::Failure(m),
    }
}

/// Reads the parameters of an event.
pub fn parameters(s: &Vec<char>, i: usize) -> (r: Result<(usize, Vec<Parameter>), ParseError>)
    requires
        i <= s.len(),
    ensures
        outcome(r) == parameters_at(s@, i as int),
        r matches Ok((rest, _)) ==> i <= rest <= s.len(),
{
    let mut fields: Vec<Parameter> = Vec::new();
    assert(fields.deep_view() =~= Seq::<ParameterView>::empty());
    let mut j: usize = match parameter(s, i) {
        Ok((j, p)) => {
            fields.push(p);
            assert(fields.deep_view() =~= seq![p.deep_view()]);
            j
        },
        Err(ParseError::Error(_)) => {
            return Ok((i, fields));
        },
        Err(ParseError::Failure(e)) => {
            return Err(ParseError::Failure(e));
        },
    };
    while j < s.len() && s[j] == ','
        invariant
            i <= j <= s.len(),
            parameters_at(s@, i as int) == more_parameters_at(s@, j as int, fields.deep_view()),
        decreases s.len() - j,
    {
        match parameter(s, j + 1) {
            Ok((k, p)) => {
                let ghost before = fields.deep_view();
                fields.push(p);
                assert(fields.deep_view() =~= before.push(p.deep_view()));
                j = k;
            },
            Err(ParseError::Error(_)) => {
                return Ok((j, fields));
            },
            Err(ParseError::Failure(e)) => {
                return Err(ParseError::Failure(e));
            },
        }
    }
    Ok((j, fields))
}

/// The words that follow those of `acc` from `j` on, each behind a comma
/// with spaces around it as they please.
pub open spec fn more_words_at(s: Seq<char>, j: int, acc: Seq<Seq<char>>) -> (int, Seq<Seq<char>>)
    decreases s.len() - j,
{
    let c = spaces_end(s, j);
    if 0 <= j && 0 <= c < s.len() && s[c] == ',' {
        let d = spaces_end(s, c + 1);
        if 0 <= d < s.len() && is_alpha(s[d]) && j < alpha_end(s, d) <= s.len() {
            more_words_at(s, alpha_end(s, d), acc.push(s.subrange(d, alpha_end(s, d))))
        } else {
            (j, acc)
        }
    } else {
        (j, acc)
    }
}

/// The words at `i`, with commas between them; there may be none.
pub open spec fn words_at(s: Seq<char>, i: int) -> (int, Seq<Seq<char>>) {
    if 0 <= i < s.len() && is_alpha(s[i]) {
        more_words_at(s, alpha_end(s, i), seq![s.subrange(i, alpha_end(s, i))])
    } else {
        (i, Seq::empty())
    }
}

/// Letters are skipped forwards, and not beyond the input.
proof fn lemma_alpha_end_grows(s: Seq<char>, i: int)
    requires
        0 <= i <= s.len(),
    ensures
        i <= alpha_end(s, i) <= s.len(),
    decreases s.len() - i,
{
    if i < s.len() && is_alpha(s[i]) {
        lemma_alpha_end_grows(s, i + 1);
    }
}

/// Reads a list of words with commas between them.
fn words(s: &Vec<char>, i: usize) -> (r: (usize, Vec<String>))
    requires
        i <= s.len(),
    ensures
        (r.0 as int, r.1.deep_view()) == words_at(s@, i as int),
        i <= r.0 <= s.len(),
{
    let mut found: Vec<String> = Vec::new();
    assert(found.deep_view() =~= Seq::<Seq<char>>::empty());
    if !(i < s.len() && char_is_alpha(s[i])) {
        return (i, found);
    }
    let end = skip_alpha(s, i);
    let mut word: Vec<char> = Vec::new();
    push_range(&mut word, s, i, end);
    crate::text::push_line(&mut found, string_of(&word));
    let mut j: usize = end;
    loop
        invariant
            i <= j <= s.len(),
            words_at(s@, i as int) == more_words_at(s@, j as int, found.deep_view()),
        ensures
            i <= j <= s.len(),
            words_at(s@, i as int) == (j as int, found.deep_view()),
        decreases s.len() - j,
    {
        let c = skip_spaces(s, j);
        if !(c < s.len() && s[c] == ',') {
            break ;
        }
        let d = skip_spaces(s, c + 1);
        if !(d < s.len() && char_is_alpha(s[d])) {
            break ;
        }
        let end = skip_alpha(s, d);
        proof {
            lemma_alpha_end_grows(s@, d + 1);
        }
        let mut word: Vec<char> = Vec::new();
        push_range(&mut word, s, d, end);
        crate::text::push_line(&mut found, string_of(&word));
        j = end;
    }
    (j, found)
}

/// The first of the words that is not `only`.
pub open spec fn first_unsupported(words: Seq<Seq<char>>, n: nat) -> Option<Seq<char>>
    decreases n,
{
    if n == 0 {
        None
    } else {
        match first_unsupported(words, (n - 1) as nat) {
            Some(w) => Some(w),
            None => if words[n - 1] != "only"@ {
                Some(words[n - 1])
            } else {
                None
            },
        }
    }
}

/// Once a word that is not `only` is found among the first words, it is the
/// one found among any more of them.
proof fn lemma_unsupported_found(words: Seq<Seq<char>>, n: nat, m: nat)
    requires
        n <= m,
        first_unsupported(words, n) is Some,
    ensures
        first_unsupported(words, m) == first_unsupported(words, n),
    decreases m,
{
    if n < m {
        lemma_unsupported_found(words, n, (m - 1) as nat);
    }
}

/// Where no word is found that is not `only`, each word is `only`.
proof fn lemma_all_only(words: Seq<Seq<char>>, n: nat)
    requires
        n <= words.len(),
        first_unsupported(words, n) is None,
    ensures
        forall|k: int| 0 <= k < n ==> words[k] == "only"@,
    decreases n,
{
    if n > 0 {
        lemma_all_only(words, (n - 1) as nat);
    }
}

/// The attributes of an event at `i`, which may be missing: `#[only]` says
/// that the helper for the only event is wanted. An attribute list that is
/// not closed, or holds another word than `only`, is a failure.
pub open spec fn event_attributes_at(s: Seq<char>, i: int) -> Outcome<bool> {
    let a = spaces_end(s, i);
    if !occurs_at(s, a, "#["@) {
        Outcome::Done(a, false)
    } else {
        let (j, words) = words_at(s, a + 2);
        if 0 <= j < s.len() && s[j] == ']' {
            match first_unsupported(words, words.len()) {
                Some(w) => Outcome::Failure(unsupported_event_attribute(w)),
                None => Outcome::Done(j + 1, words.contains("only"@)),
            }
        } else {
            Outcome::Failure(
                expected(
                    "]"@,
                    "close the attribute list"@,
                    "Attributes must end with `]`."@,
                    s.skip(j),
                ),
            )
        }
    }
}

/// Reads the attributes of an event, which may be missing.
pub fn event_attributes(s: &Vec<char>, i: usize) -> (r: Result<(usize, bool), ParseError>)
    requires
        i <= s.len(),
    ensures
        outcome(r) == event_attributes_at(s@, i as int),
        r matches Ok((rest, _)) ==> i <= rest <= s.len(),
{
    let a = skip_spaces(s, i);
    let opening = chars_of("#[");
    if !matches_at(s, a, &opening) {
        return Ok((a, false));
    }
    proof {
        reveal_strlit("#[");
        reveal_strlit("]");
        assert("]"@ =~= char_text(']'));
    }
    let (j, attrs) = words(s, a + 2);
    match expect_char_token(
        s,
        j,
        ']',
        "close the attribute list",
        "Attributes must end with `]`.",
    ) {
        Ok((k, _)) => {
            assert(s@.subrange(j as int, j + 1)[0] == ']');
            let mut n: usize = 0;
            while n < attrs.len()
                invariant
                    n <= attrs.len(),
                    first_unsupported(attrs.deep_view(), n as nat) is None,
                    a == spaces_end(s@, i as int),
                    occurs_at(s@, a as int, "#["@),
                    (j as int, attrs.deep_view()) == words_at(s@, a + 2),
                    j < s.len(),
                    s@[j as int] == ']',
                decreases attrs.len() - n,
            {
                assert(attrs.deep_view()[n as int] == attrs[n as int]@);
                if !crate::text::str_equal(attrs[n].as_str(), "only") {
                    proof {
                        lemma_unsupported_found(
                            attrs.deep_view(),
                            (n + 1) as nat,
                            attrs.len() as nat,
                        );
                    }
                    let mut message: Vec<char> = Vec::new();
                    push_str(&mut message, "Unsupported event attribute `#[");
                    push_str(&mut message, attrs[n].as_str());
                    push_str(&mut message, "]`. Tip: only `#[only]` is allowed before events.");
                    return Err(ParseError::Failure(ParserError { message: string_of(&message) }));
                }
                n += 1;
            }
            let is_only = attrs.len() > 0;
            proof {
                lemma_all_only(attrs.deep_view(), attrs.len() as nat);
                if attrs.len() > 0 {
                    assert(attrs.deep_view()[0] == "only"@);
                }
            }
            Ok((k, is_only))
        },
        Err(e) => {
            proof {
                if j < s.len() && s@[j as int] == ']' {
                    assert(s@.subrange(j as int, j + 1) =~= char_text(']'));
                }
            }
            Err(e)
        },
    }
}

/// The stop of one parser as the stop of the parser that called it.
pub open spec fn stop<A, B>(o: Outcome<A>) -> Outcome<B> {
    match o {
        Outcome::Error(m) => Outcome::Error(m),
        Outcome::Failure(m) => Outcome::Failure(m),
        Outcome::Done(_, _) => Outcome::Failure(Seq::empty()),
    }
}

/// The message that ends a list of events.
pub const NO_MORE_EVENTS: &'static str = "No more events present in the impl block.";

/// The parameters of an event at `i`, in their parentheses, and the
/// semicolon that ends the event.
pub open spec fn event_tail_at(s: Seq<char>, i: int) -> Outcome<Seq<ParameterView>> {
    match token_at(
        s,
        spaces_end(s, i),
        "("@,
        "open the parameter list"@,
        "Add `(` right after the event name."@,
    ) {
        Outcome::Done(a, _) => match parameters_at(s, spaces_end(s, a)) {
            Outcome::Done(b, fields) => match token_at(
                s,
                spaces_end(s, b),
                ")"@,
                "close the parameter list"@,
                "Balance `(` and `)` around the parameters."@,
            ) {
                Outcome::Done(c, _) => match token_at(
                    s,
                    spaces_end(s, c),
                    ";"@,
                    "finish the event definition"@,
                    "Terminate each event with `;`."@,
                ) {
                    Outcome::Done(d, _) => Outcome::Done(d, fields),
                    other => stop(other),
                },
                other => stop(other),
            },
            other => stop(other),
        },
        other => stop(other),
    }
}

/// Reads the parameters of an event and the semicolon that ends it.
fn event_tail(s: &Vec<char>, i: usize) -> (r: Result<(usize, Vec<Parameter>), ParseError>)
    requires
        i <= s.len(),
    ensures
        outcome(r) == event_tail_at(s@, i as int),
        r matches Ok((rest, _)) ==> i < rest <= s.len(),
{
    proof {
        reveal_strlit("(");
        reveal_strlit(")");
        reveal_strlit(";");
        assert("("@ =~= char_text('('));
        assert(")"@ =~= char_text(')'));
        assert(";"@ =~= char_text(';'));
    }
    let a = skip_spaces(s, i);
    let (a, _) = match expect_char_token(
        s,
        a,
        '(',
        "open the parameter list",
        "Add `(` right after the event name.",
    ) {
        Ok(found) => found,
        Err(e) => {
            return Err(e);
        },
    };
    let b = skip_spaces(s, a);
    let (b, fields) = match parameters(s, b) {
        Ok(found) => found,
        Err(e) => {
            return Err(e);
        },
    };
    let c = skip_spaces(s, b);
    let (c, _) = match expect_char_token(
        s,
        c,
        ')',
        "close the parameter list",
        "Balance `(` and `)` around the parameters.",
    ) {
        Ok(found) => found,
        Err(e) => {
            return Err(e);
        },
    };
    let d = skip_spaces(s, c);
    let (d, _) = match expect_char_token(
        s,
        d,
        ';',
        "finish the event definition",
        "Terminate each event with `;`.",
    ) {
        Ok(found) => found,
        Err(e) => {
            return Err(e);
        },
    };
    Ok((d, fields))
}

/// An event at `i`: its attributes, which may be missing, the word `event`,
/// its name, its parameters, and a semicolon. Where the input ends or a
/// closing brace stands, there is no event, which is an error; so is an
/// `event` without a space behind it, and a name that does not begin with a
/// letter.
pub open spec fn event_at(s: Seq<char>, i: int) -> Outcome<EventView> {
    match event_attributes_at(s, spaces_end(s, i)) {
        Outcome::Done(a, is_only) => {
            let b = spaces_end(s, a);
            if b >= s.len() || s[b] == '}' {
                Outcome::Error(NO_MORE_EVENTS@)
            } else {
                match token_at(
                    s,
                    b,
                    "event"@,
                    "start an event definition"@,
                    "Use `event Name(...)` inside the impl body."@,
                ) {
                    Outcome::Done(c, _) => if spaces_end(s, c) == c {
                        Outcome::Error(unexpected("MultiSpace"@, s.skip(c)))
                    } else {
                        match identifier_at(s, spaces_end(s, c)) {
                            Outcome::Done(d, name) => match event_tail_at(s, d) {
                                Outcome::Done(e, fields) => Outcome::Done(
                                    e,
                                    EventView { name, fields, is_only },
                                ),
                                other => stop(other),
                            },
                            other => stop(other),
                        }
                    },
                    other => stop(other),
                }
            }
        },
        other => stop(other),
    }
}

/// Reads an event like `event DefaultAdminTransferScheduled(...);`.
pub fn event(s: &Vec<char>, i: usize) -> (r: Result<(usize, Event), ParseError>)
    requires
        i <= s.len(),
    ensures
        outcome(r) == event_at(s@, i as int),
        r matches Ok((rest, _)) ==> i < rest <= s.len(),
{
    let a = skip_spaces(s, i);
    let (a, is_only) = match event_attributes(s, a) {
        Ok(found) => found,
        Err(e) => {
            return Err(e);
        },
    };
    let b = skip_spaces(s, a);
    if b >= s.len() || s[b] == '}' {
        return Err(ParseError::Error(ParserError::new(NO_MORE_EVENTS)));
    }
    let (c, _) = match expect_token(
        s,
        b,
        "event",
        "start an event definition",
        "Use `event Name(...)` inside the impl body.",
    ) {
        Ok(found) => found,
        Err(e) => {
            return Err(e);
        },
    };
    let c1 = skip_spaces(s, c);
    if c1 == c {
        return Err(ParseError::Error(unexpected_syntax("MultiSpace", s, c)));
    }
    let (d, name) = match identifier(s, c1) {
        Ok(found) => found,
        Err(e) => {
            return Err(e);
        },
    };
    let (e, fields) = match event_tail(s, d) {
        Ok(found) => found,
        Err(e) => {
            return Err(e);
        },
    };
    Ok((e, Event { name, fields, is_only }))
}

/// The events that follow those of `acc` from `i` on. The list ends where
/// an event stops with an error; a failure ends the parse.
pub open spec fn events_at(s: Seq<char>, i: int, acc: Seq<EventView>) -> Outcome<Seq<EventView>>
    decreases s.len() - i,
{
    match event_at(s, i) {
        Outcome::Done(j, e) => if i < j <= s.len() {
            events_at(s, j, acc.push(e))
        } else {
            Outcome::Error(unexpected("Many0"@, s.skip(i)))
        },
        Outcome::Error(_) => Outcome::Done(i, acc),
        Outcome::Failure(m) => Outcome::Failure(m),
    }
}

/// Reads the events of a block.
pub fn events(s: &Vec<char>, i: usize) -> (r: Result<(usize, Vec<Event>), ParseError>)
    requires
        i <= s.len(),
    ensures
        outcome(r) == events_at(s@, i as int, Seq::empty()),
        r matches Ok((rest, _)) ==> i <= rest <= s.len(),
{
    let mut found: Vec<Event> = Vec::new();
    assert(found.deep_view() =~= Seq::<EventView>::empty());
    let mut j: usize = i;
    loop
        invariant
            i <= j <= s.len(),
            events_at(s@, i as int, Seq::empty()) == events_at(s@, j as int, found.deep_view()),
        decreases s.len() - j,
    {
        match event(s, j) {
            Ok((k, e)) => {
                let ghost before = found.deep_view();
                found.push(e);
                assert(found.deep_view() =~= before.push(e.deep_view()));
                j = k;
            },
            Err(ParseError::Error(_)) => {
                return Ok((j, found));
            },
            Err(ParseError::Failure(e)) => {
                return Err(ParseError::Failure(e));
            },
        }
    }
}

/// A block at `i`: `pub` or not, the word `impl`, the name of the helper,
/// and its events in braces.
pub open spec fn impl_block_at(s: Seq<char>, i: int) -> Outcome<ImplBlockView> {
    let a = spaces_end(s, i);
    let is_public = occurs_at(s, a, "pub"@);
    let b = spaces_end(
        s,
        if is_public {
            a + 3
        } else {
            a
        },
    );
    match token_at(
        s,
        b,
        "impl"@,
        "begin the helper implementation"@,
        "Start with `impl Name { ... }` (optionally prefix with `pub`)."@,
    ) {
        Outcome::Done(c, _) => if spaces_end(s, c) == c {
            Outcome::Error(unexpected("MultiSpace"@, s.skip(c)))
        } else {
            match identifier_at(s, spaces_end(s, c)) {
                Outcome::Done(d, name) => match token_at(
                    s,
                    spaces_end(s, d),
                    "{"@,
                    "open the helper body"@,
                    "Wrap event definitions inside `{ ... }`."@,
                ) {
                    Outcome::Done(e, _) => match events_at(s, spaces_end(s, e), Seq::empty()) {
                        Outcome::Done(f, events) => match token_at(
                            s,
                            spaces_end(s, f),
                            "}"@,
                            "close the helper body"@,
                            "Ensure there is a matching `}` after your events."@,
                        ) {
                            Outcome::Done(g, _) => Outcome::Done(
                                spaces_end(s, g),
                                ImplBlockView { is_public, name, events },
                            ),
                            other => stop(other),
                        },
                        other => stop(other),
                    },
                    other => stop(other),
                },
                other => stop(other),
            }
        },
        other => stop(other),
    }
}

/// Reads a block like `impl AccessControlDefaultAdminRulesSpyHelpers { ... }`.
pub fn impl_block(s: &Vec<char>, i: usize) -> (r: Result<(usize, ImplBlock), ParseError>)
    requires
        i <= s.len(),
    ensures
        outcome(r) == impl_block_at(s@, i as int),
        r matches Ok((rest, _)) ==> i < rest <= s.len(),
{
    proof {
        reveal_strlit("pub");
        reveal_strlit("{");
        reveal_strlit("}");
        assert("{"@ =~= char_text('{'));
        assert("}"@ =~= char_text('}'));
    }
    let a = skip_spaces(s, i);
    let keyword = chars_of("pub");
    let is_public = matches_at(s, a, &keyword);
    let b = if is_public {
        skip_spaces(s, a + 3)
    } else {
        skip_spaces(s, a)
    };
    let (c, _) = match expect_token(
        s,
        b,
        "impl",
        "begin the helper implementation",
        "Start with `impl Name { ... }` (optionally prefix with `pub`).",
    ) {
        Ok(found) => found,
        Err(e) => {
            return Err(e);
        },
    };
    let c1 = skip_spaces(s, c);
    if c1 == c {
        return Err(ParseError::Error(unexpected_syntax("MultiSpace", s, c)));
    }
    let (d, name) = match identifier(s, c1) {
        Ok(found) => found,
        Err(e) => {
            return Err(e);
        },
    };
    let d1 = skip_spaces(s, d);
    let (e, _) = match expect_char_token(
        s,
        d1,
        '{',
        "open the helper body",
        "Wrap event definitions inside `{ ... }`.",
    ) {
        Ok(found) => found,
        Err(e) => {
            return Err(e);
        },
    };
    let e1 = skip_spaces(s, e);
    let (f, events) = match events(s, e1) {
        Ok(found) => found,
        Err(e) => {
            return Err(e);
        },
    };
    let f1 = skip_spaces(s, f);
    let (g, _) = match expect_char_token(
        s,
        f1,
        '}',
        "close the helper body",
        "Ensure there is a matching `}` after your events.",
    ) {
        Ok(found) => found,
        Err(e) => {
            return Err(e);
        },
    };
    let g1 = skip_spaces(s, g);
    Ok((g1, ImplBlock { is_public, name, events }))
}

/// The input of the macro: a block in braces. What follows the closing
/// brace and the spaces behind it is left over.
pub open spec fn dsl_at(s: Seq<char>) -> Outcome<ImplBlockView> {
    match token_at(
        s,
        spaces_end(s, 0),
        "{"@,
        "wrap the macro input"@,
        "Invoke the macro with `{ impl Name { ... } }`."@,
    ) {
        Outcome::Done(a, _) => match impl_block_at(s, spaces_end(s, a)) {
            Outcome::Done(b, block) => match token_at(
                s,
                spaces_end(s, b),
                "}"@,
                "close the macro input"@,
                "Add a trailing `}` after the impl block."@,
            ) {
                Outcome::Done(c, _) => Outcome::Done(spaces_end(s, c), block),
                other => stop(other),
            },
            other => stop(other),
        },
        other => stop(other),
    }
}

/// The model of what the parse of the whole input gives: what is left over
/// of the input and the block, or the stop.
pub open spec fn dsl_outcome(input: Seq<char>, r: Result<(String, ImplBlock), ParseError>) -> bool {
    match (r, dsl_at(input)) {
        (Ok((rest, block)), Outcome::Done(at, view)) => 0 <= at <= input.len() && rest@
            == input.skip(at) && block.deep_view() == view,
        (Err(ParseError::Error(e)), Outcome::Error(m)) => e.message@ == m,
        (Err(ParseError::Failure(e)), Outcome::Failure(m)) => e.message@ == m,
        _ => false,
    }
}

/// Parses the input of the macro: `{ impl Name { event ...; ... } }`.
///
/// Gives what is left over of the input and the block, or the error or
/// failure with its message.
pub fn parse_dsl(input: &str) -> (r: Result<(String, ImplBlock), ParseError>)
    ensures
        dsl_outcome(input@, r),
{
    proof {
        reveal_strlit("{");
        reveal_strlit("}");
        assert("{"@ =~= char_text('{'));
        assert("}"@ =~= char_text('}'));
    }
    let s = chars_of(input);
    let a = skip_spaces(&s, 0);
    let (a, _) = match expect_char_token(
        &s,
        a,
        '{',
        "wrap the macro input",
        "Invoke the macro with `{ impl Name { ... } }`.",
    ) {
        Ok(found) => found,
        Err(e) => {
            return Err(e);
        },
    };
    let a1 = skip_spaces(&s, a);
    let (b, block) = match impl_block(&s, a1) {
        Ok(found) => found,
        Err(e) => {
            return Err(e);
        },
    };
    let b1 = skip_spaces(&s, b);
    let (c, _) = match expect_char_token(
        &s,
        b1,
        '}',
        "close the macro input",
        "Add a trailing `}` after the impl block.",
    ) {
        Ok(found) => found,
        Err(e) => {
            return Err(e);
        },
    };
    let c1 = skip_spaces(&s, c);
    let mut rest: Vec<char> = Vec::new();
    push_range(&mut rest, &s, c1, s.len());
    assert(rest@ == s@.skip(c1 as int));
    Ok((string_of(&rest), block))
}

/// A token that has to stand at a position and does not is a failure whose
/// message names the token.
pub proof fn lemma_missing_token_is_named(
    s: Seq<char>,
    i: int,
    token: Seq<char>,
    purpose: Seq<char>,
    tip: Seq<char>,
)
    requires
        !occurs_at(s, i, token),
    ensures
        token_at(s, i, token, purpose, tip) matches Outcome::Failure(message)
            && crate::text::starts_with(message, "Expected `"@ + token + "` to "@ + purpose + "."@),
{
    lemma_expected_names_token(token, purpose, tip, s.skip(i));
}

/// An event whose parameters are closed and not followed by a semicolon is
/// a failure whose message names the semicolon.
pub proof fn lemma_missing_semicolon_is_named(s: Seq<char>, i: int)
    requires
        token_at(
            s,
            spaces_end(s, i),
            "("@,
            "open the parameter list"@,
            "Add `(` right after the event name."@,
        ) matches Outcome::Done(a, _) && parameters_at(s, spaces_end(s, a)) matches Outcome::Done(
            b,
            _,
        ) && token_at(
            s,
            spaces_end(s, b),
            ")"@,
            "close the parameter list"@,
            "Balance `(` and `)` around the parameters."@,
        ) matches Outcome::Done(c, _) && !occurs_at(s, spaces_end(s, c), ";"@),
    ensures
        event_tail_at(s, i) matches Outcome::Failure(message) && crate::text::starts_with(
            message,
            "Expected `;` to finish the event definition."@,
        ),
{
    let a = token_at(
        s,
        spaces_end(s, i),
        "("@,
        "open the parameter list"@,
        "Add `(` right after the event name."@,
    )->Done_0;
    let b = parameters_at(s, spaces_end(s, a))->Done_0;
    let c = token_at(
        s,
        spaces_end(s, b),
        ")"@,
        "close the parameter list"@,
        "Balance `(` and `)` around the parameters."@,
    )->Done_0;
    lemma_missing_token_is_named(
        s,
        spaces_end(s, c),
        ";"@,
        "finish the event definition"@,
        "Terminate each event with `;`."@,
    );
    assert("Expected `"@ + ";"@ + "` to "@ + "finish the event definition"@ + "."@
        =~= "Expected `;` to finish the event definition."@) by {
        reveal_strlit("Expected `");
        reveal_strlit(";");
        reveal_strlit("` to ");
        reveal_strlit("finish the event definition");
        reveal_strlit(".");
        reveal_strlit("Expected `;` to finish the event definition.");
    }
}

/// What stands where an event is to begin, and is neither the end of the
/// block nor the word `event`, is a failure whose message names `event`.
pub proof fn lemma_missing_event_keyword_is_named(s: Seq<char>, i: int)
    requires
        event_attributes_at(s, spaces_end(s, i)) matches Outcome::Done(a, _) && spaces_end(s, a)
            < s.len() && s[spaces_end(s, a)] != '}' && !occurs_at(
            s,
            spaces_end(s, a),
            "event"@,
        ),
    ensures
        event_at(s, i) matches Outcome::Failure(message) && crate::text::starts_with(
            message,
            "Expected `event` to start an event definition."@,
        ),
{
    let a = event_attributes_at(s, spaces_end(s, i))->Done_0;
    lemma_missing_token_is_named(
        s,
        spaces_end(s, a),
        "event"@,
        "start an event definition"@,
        "Use `event Name(...)` inside the impl body."@,
    );
    assert("Expected `"@ + "event"@ + "` to "@ + "start an event definition"@ + "."@
        =~= "Expected `event` to start an event definition."@) by {
        reveal_strlit("Expected `");
        reveal_strlit("event");
        reveal_strlit("` to ");
        reveal_strlit("start an event definition");
        reveal_strlit(".");
        reveal_strlit("Expected `event` to start an event definition.");
    }
}

} // verus!
