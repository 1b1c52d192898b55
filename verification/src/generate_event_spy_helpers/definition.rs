//! The helpers that are generated for the events of a block.
//!
//! For each event there is a function `assert_event_<name>`, which asserts
//! that the event was emitted, alone of its kind, by a contract; and for an
//! event marked `only` a function `assert_only_event_<name>`, which asserts
//! the same and that the contract emitted nothing else. The code is written
//! token by token, with a blank between two tokens.

use vstd::prelude::*;
use crate::diagnostic::Diagnostic;
use crate::generate_event_spy_helpers::parser::{
    dsl_at,
    parse_dsl,
    Event,
    EventView,
    ImplBlock,
    ImplBlockView,
    Outcome,
    ParameterView,
    ParseError,
};
use crate::text::{join, join_strings, push_line, push_str, string_of};
use crate::token_stream::{
    failure_of,
    output_stream,
    stream_text,
    tokens_with_spans,
    TokenStreamView,
    ProcMacroResult,
    ProcMacroResultView,
    TokenStream,
};
use crate::utils::{camel_to_snake, snake_case};

verus! {

/// How one parameter is declared: `name : type`.
pub open spec fn declared(p: ParameterView) -> Seq<char> {
    p.name + " : "@ + p.ty
}

/// The declarations of the first `n` parameters.
pub open spec fn declarations(fields: Seq<ParameterView>, n: nat) -> Seq<Seq<char>>
    decreases n,
{
    if n == 0 {
        Seq::empty()
    } else {
        declarations(fields, (n - 1) as nat).push(declared(fields[n - 1]))
    }
}

/// The names of those among the first `n` parameters that are keys, or with
/// `keys` unset of those that are not.
pub open spec fn names_of(fields: Seq<ParameterView>, n: nat, keys: bool) -> Seq<Seq<char>>
    decreases n,
{
    if n == 0 {
        Seq::empty()
    } else if fields[n - 1].is_key == keys {
        names_of(fields, (n - 1) as nat, keys).push(fields[n - 1].name)
    } else {
        names_of(fields, (n - 1) as nat, keys)
    }
}

/// Sorts the parameters of an event: the declaration of each, the names of
/// the keys, and the names of the others, each list in the order of the
/// parameters.
pub fn collect_event_fields(event: &Event) -> (r: (Vec<String>, Vec<String>, Vec<String>))
    ensures
        r.0.deep_view() == declarations(
            event.deep_view().fields,
            event.deep_view().fields.len(),
        ),
        r.1.deep_view() == names_of(
            event.deep_view().fields,
            event.deep_view().fields.len(),
            true,
        ),
        r.2.deep_view() == names_of(
            event.deep_view().fields,
            event.deep_view().fields.len(),
            false,
        ),
{
    let mut fn_args: Vec<String> = Vec::new();
    let mut key_fields: Vec<String> = Vec::new();
    let mut data_fields: Vec<String> = Vec::new();
    assert(fn_args.deep_view() =~= Seq::<Seq<char>>::empty());
    assert(key_fields.deep_view() =~= Seq::<Seq<char>>::empty());
    assert(data_fields.deep_view() =~= Seq::<Seq<char>>::empty());
    let ghost fields = event.deep_view().fields;
    let mut i: usize = 0;
    while i < event.fields.len()
        invariant
            i <= event.fields.len(),
            fields == event.fields.deep_view(),
            fn_args.deep_view() == declarations(fields, i as nat),
            key_fields.deep_view() == names_of(fields, i as nat, true),
            data_fields.deep_view() == names_of(fields, i as nat, false),
        decreases event.fields.len() - i,
    {
        let param = &event.fields[i];
        assert(fields[i as int] == param.deep_view());
        let mut declaration = param.name.clone();
        declaration.append(" : ");
        declaration.append(param.ty.as_str());
        push_line(&mut fn_args, declaration);
        if param.is_key {
            push_line(&mut key_fields, param.name.clone());
        } else {
            push_line(&mut data_fields, param.name.clone());
        }
        i += 1;
    }
    (fn_args, key_fields, data_fields)
}

/// The calls that add the first `n` of the given fields to an expected
/// event, each with the given method.
pub open spec fn builder_calls(method: Seq<char>, fields: Seq<Seq<char>>, n: nat) -> Seq<char>
    decreases n,
{
    if n == 0 {
        Seq::empty()
    } else {
        builder_calls(method, fields, (n - 1) as nat) + " . "@ + method + " ("@ + fields[n - 1]
            + ")"@
    }
}

/// The expression that builds the expected event: its first key is the
/// selector of the name of the event, then come the keys, then the data.
pub open spec fn expected_event(
    selector: Seq<char>,
    key_fields: Seq<Seq<char>>,
    data_fields: Seq<Seq<char>>,
) -> Seq<char> {
    "ExpectedEvent :: new () . key (selector ! (\""@ + selector + "\"))"@ + builder_calls(
        "key"@,
        key_fields,
        key_fields.len(),
    ) + builder_calls("data"@, data_fields, data_fields.len())
}

/// Appends the calls that add the given fields to an expected event.
fn push_builder_calls(builder: &mut Vec<char>, method: &str, fields: &Vec<String>)
    ensures
        final(builder)@ == old(builder)@ + builder_calls(
            method@,
            fields.deep_view(),
            fields.len() as nat,
        ),
{
    let mut i: usize = 0;
    assert(builder@ =~= old(builder)@ + Seq::<char>::empty());
    while i < fields.len()
        invariant
            i <= fields.len(),
            builder@ == old(builder)@ + builder_calls(method@, fields.deep_view(), i as nat),
        decreases fields.len() - i,
    {
        assert(fields.deep_view()[i as int] == fields[i as int]@);
        push_str(builder, " . ");
        push_str(builder, method);
        push_str(builder, " (");
        push_str(builder, fields[i].as_str());
        push_str(builder, ")");
        i += 1;
    }
}

/// Writes the expression that builds the expected event.
pub fn build_expected_event(
    selector: &str,
    key_fields: &Vec<String>,
    data_fields: &Vec<String>,
) -> (r: String)
    ensures
        r@ == expected_event(selector@, key_fields.deep_view(), data_fields.deep_view()),
{
    let mut builder: Vec<char> = Vec::new();
    push_str(&mut builder, "ExpectedEvent :: new () . key (selector ! (\"");
    push_str(&mut builder, selector);
    push_str(&mut builder, "\"))");
    push_builder_calls(&mut builder, "key", key_fields);
    push_builder_calls(&mut builder, "data", data_fields);
    string_of(&builder)
}

/// The parameters of a helper: the spy, the contract, and the parameters of
/// the event.
pub open spec fn helper_parameters(fields: Seq<ParameterView>) -> Seq<char> {
    "ref self : EventSpy , contract : ContractAddress ,"@ + if fields.len() > 0 {
        " "@ + join(declarations(fields, fields.len()), " , "@)
    } else {
        Seq::empty()
    }
}

/// The arguments with which one helper calls the other: the contract and
/// the first `n` parameters of the event.
pub open spec fn helper_arguments(fields: Seq<ParameterView>, n: nat) -> Seq<char>
    decreases n,
{
    if n == 0 {
        "contract"@
    } else {
        helper_arguments(fields, (n - 1) as nat) + " , "@ + fields[n - 1].name
    }
}

/// The helper that asserts that the event was emitted.
pub open spec fn assert_helper(event: EventView) -> Seq<char> {
    "fn assert_event_"@ + snake_case(event.name) + " ("@ + helper_parameters(event.fields)
        + ") { let expected = "@ + expected_event(
        event.name,
        names_of(event.fields, event.fields.len(), true),
        names_of(event.fields, event.fields.len(), false),
    ) + " ; self . assert_emitted_single (contract , expected) ; }"@
}

/// The helper that asserts that the event was the only one: it calls the
/// helper that asserts the event, and then asserts that no event of the
/// contract is left.
pub open spec fn assert_only_helper(event: EventView) -> Seq<char> {
    "fn assert_only_event_"@ + snake_case(event.name) + " ("@ + helper_parameters(event.fields)
        + ") { self . assert_event_"@ + snake_case(event.name) + " ("@ + helper_arguments(
        event.fields,
        event.fields.len(),
    ) + ") ; self . assert_no_events_left_from (contract) ; }"@
}

/// The helpers of one event: the one that asserts the event, and for an
/// event marked `only` the one that asserts it was the only one.
pub open spec fn event_helpers(event: EventView) -> Seq<char> {
    if event.is_only {
        assert_helper(event) + " "@ + assert_only_helper(event)
    } else {
        assert_helper(event)
    }
}

/// The call of the helper that asserts the event, as the helper for the only
/// event makes it.
pub open spec fn call_of_first(event: EventView) -> Seq<char> {
    "self . assert_event_"@ + snake_case(event.name) + " ("@ + helper_arguments(
        event.fields,
        event.fields.len(),
    ) + ") ;"@
}

/// The helper for the only event calls the helper that asserts the event,
/// and behind that call asserts that no event of the contract is left.
pub proof fn lemma_only_helper_calls_first(event: EventView)
    ensures
        exists|at: int, then: int|
            at + call_of_first(event).len() <= then && crate::text::occurs_at(
                assert_only_helper(event),
                at,
                call_of_first(event),
            ) && crate::text::occurs_at(
                assert_only_helper(event),
                then,
                "self . assert_no_events_left_from (contract) ;"@,
            ),
{
    let whole = assert_only_helper(event);
    let head = "fn assert_only_event_"@ + snake_case(event.name) + " ("@ + helper_parameters(
        event.fields,
    ) + ") { "@;
    let call = call_of_first(event);
    let rest = "self . assert_no_events_left_from (contract) ;"@;
    reveal_strlit(") { self . assert_event_");
    reveal_strlit(") { ");
    reveal_strlit("self . assert_event_");
    reveal_strlit(") ; self . assert_no_events_left_from (contract) ; }");
    reveal_strlit(") ;");
    reveal_strlit("self . assert_no_events_left_from (contract) ;");
    assert(") { self . assert_event_"@ =~= ") { "@ + "self . assert_event_"@);
    assert(") ; self . assert_no_events_left_from (contract) ; }"@ =~= ") ;"@ + seq![' '] + rest
        + seq![' ', '}']);
    assert(whole =~= head + call + seq![' '] + rest + seq![' ', '}']);
    let at = head.len() as int;
    let then = at + call.len() + 1;
    assert(whole.subrange(at, at + call.len()) =~= call);
    assert(whole.subrange(then, then + rest.len()) =~= rest);
    assert(crate::text::occurs_at(whole, at, call));
    assert(crate::text::occurs_at(whole, then, rest));
}

/// Appends the parameters of a helper.
fn push_helper_parameters(out: &mut Vec<char>, fn_args: &Vec<String>, fields: Ghost<
    Seq<ParameterView>,
>)
    requires
        fn_args.deep_view() == declarations(fields@, fields@.len()),
    ensures
        final(out)@ == old(out)@ + helper_parameters(fields@),
{
    proof {
        lemma_declarations_len(fields@, fields@.len());
    }
    push_str(out, "ref self : EventSpy , contract : ContractAddress ,");
    if fn_args.len() > 0 {
        push_str(out, " ");
        push_str(out, join_strings(fn_args, " , ").as_str());
    } else {
        assert(out@ + Seq::<char>::empty() == out@);
    }
}

/// There is one declaration for each parameter.
proof fn lemma_declarations_len(fields: Seq<ParameterView>, n: nat)
    ensures
        declarations(fields, n).len() == n,
    decreases n,
{
    if n > 0 {
        lemma_declarations_len(fields, (n - 1) as nat);
    }
}

/// Writes the helpers of one event.
pub fn event_methods(event: &Event) -> (r: String)
    ensures
        r@ == event_helpers(event.deep_view()),
{
    let fn_suffix = camel_to_snake(event.name.as_str());
    let (fn_args, key_fields, data_fields) = collect_event_fields(event);
    let expected = build_expected_event(event.name.as_str(), &key_fields, &data_fields);
    let ghost fields = event.deep_view().fields;
    let mut out: Vec<char> = Vec::new();
    push_str(&mut out, "fn assert_event_");
    push_str(&mut out, fn_suffix.as_str());
    push_str(&mut out, " (");
    push_helper_parameters(&mut out, &fn_args, Ghost(fields));
    push_str(&mut out, ") { let expected = ");
    push_str(&mut out, expected.as_str());
    push_str(&mut out, " ; self . assert_emitted_single (contract , expected) ; }");
    assert(out@ == assert_helper(event.deep_view()));
    if event.is_only {
        push_str(&mut out, " ");
        push_str(&mut out, "fn assert_only_event_");
        push_str(&mut out, fn_suffix.as_str());
        push_str(&mut out, " (");
        push_helper_parameters(&mut out, &fn_args, Ghost(fields));
        push_str(&mut out, ") { self . assert_event_");
        push_str(&mut out, fn_suffix.as_str());
        push_str(&mut out, " (");
        push_str(&mut out, "contract");
        let mut i: usize = 0;
        let ghost head = out@;
        assert(head == assert_helper(event.deep_view()) + " "@ + "fn assert_only_event_"@
            + snake_case(event.name@) + " ("@ + helper_parameters(fields)
            + ") { self . assert_event_"@ + snake_case(event.name@) + " ("@ + helper_arguments(
            fields,
            0,
        ));
        let ghost start = assert_helper(event.deep_view()) + " "@ + "fn assert_only_event_"@
            + snake_case(event.name@) + " ("@ + helper_parameters(fields)
            + ") { self . assert_event_"@ + snake_case(event.name@) + " ("@;
        while i < event.fields.len()
            invariant
                i <= event.fields.len(),
                fields == event.fields.deep_view(),
                out@ == start + helper_arguments(fields, i as nat),
            decreases event.fields.len() - i,
        {
            assert(fields[i as int] == event.fields[i as int].deep_view());
            push_str(&mut out, " , ");
            push_str(&mut out, event.fields[i].name.as_str());
            i += 1;
        }
        push_str(&mut out, ") ; self . assert_no_events_left_from (contract) ; }");
    }
    string_of(&out)
}

/// The helpers of the first `n` events, one after another.
pub open spec fn helpers_of(events: Seq<EventView>, n: nat) -> Seq<Seq<char>>
    decreases n,
{
    if n == 0 {
        Seq::empty()
    } else {
        helpers_of(events, (n - 1) as nat).push(event_helpers(events[n - 1]))
    }
}

/// The code of the helpers of a block: an implementation named after the
/// block, of a trait that is generated with it, public where the block is.
pub open spec fn generated_helpers(block: ImplBlockView) -> Seq<char> {
    "# [generate_trait] "@ + if block.is_public {
        "pub "@
    } else {
        Seq::empty()
    } + "impl "@ + block.name + " of "@ + block.name + "Trait "@ + if block.events.len() > 0 {
        "{ "@ + join(helpers_of(block.events, block.events.len()), " "@) + " }"@
    } else {
        "{ }"@
    }
}

/// There is one text of helpers for each event.
proof fn lemma_helpers_len(events: Seq<EventView>, n: nat)
    ensures
        helpers_of(events, n).len() == n,
    decreases n,
{
    if n > 0 {
        lemma_helpers_len(events, (n - 1) as nat);
    }
}

/// Writes the code of the helpers of a block.
pub fn generate_code(impl_block: &ImplBlock) -> (r: String)
    ensures
        r@ == generated_helpers(impl_block.deep_view()),
{
    let ghost events = impl_block.deep_view().events;
    let mut methods: Vec<String> = Vec::new();
    assert(methods.deep_view() =~= Seq::<Seq<char>>::empty());
    let mut i: usize = 0;
    while i < impl_block.events.len()
        invariant
            i <= impl_block.events.len(),
            events == impl_block.events.deep_view(),
            methods.deep_view() == helpers_of(events, i as nat),
        decreases impl_block.events.len() - i,
    {
        assert(events[i as int] == impl_block.events[i as int].deep_view());
        push_line(&mut methods, event_methods(&impl_block.events[i]));
        i += 1;
    }
    proof {
        lemma_helpers_len(events, events.len());
    }
    let mut out: Vec<char> = Vec::new();
    push_str(&mut out, "# [generate_trait] ");
    if impl_block.is_public {
        push_str(&mut out, "pub ");
    } else {
        assert(out@ + Seq::<char>::empty() == out@);
    }
    push_str(&mut out, "impl ");
    push_str(&mut out, impl_block.name.as_str());
    push_str(&mut out, " of ");
    push_str(&mut out, impl_block.name.as_str());
    push_str(&mut out, "Trait ");
    if methods.len() > 0 {
        push_str(&mut out, "{ ");
        push_str(&mut out, join_strings(&methods, " ").as_str());
        push_str(&mut out, " }");
    } else {
        push_str(&mut out, "{ }");
    }
    string_of(&out)
}

/// How std writes a text for debugging: in double quotes, with escapes.
pub uninterp spec fn debug_quoted(text: Seq<char>) -> Seq<char>;

/// Trusted: the `Debug` form of a `str` of std, which puts the text in
/// double quotes and escapes what cannot stand there. The rules of the
/// escapes are Unicode's, so the result is only named.
#[verifier::external_body]
fn debug_quote(text: &str) -> (r: String)
    ensures
        r@ == debug_quoted(text@),
{
    format!("{:?}", text)
}

/// What is reported for a parse that stopped: whether it stopped with an
/// error or a failure, and its message.
pub open spec fn report_of(failure: bool, message: Seq<char>) -> Seq<char> {
    report_with(failure, debug_quoted(message))
}

/// What is reported for a parse that stopped, from its message as it is
/// written for debugging.
pub open spec fn report_with(failure: bool, quoted: Seq<char>) -> Seq<char> {
    (if failure {
        "Parsing Failure: "@
    } else {
        "Parsing Error: "@
    }) + "ParserError { message: "@ + quoted + " }"@
}

/// Writes what is reported for a parse that stopped. `quoted` is the message
/// as it is written for debugging, in its quotes.
pub fn parse_report(failure: bool, quoted: &str) -> (r: String)
    ensures
        r@ == report_with(failure, quoted@),
{
    let mut out: Vec<char> = Vec::new();
    if failure {
        push_str(&mut out, "Parsing Failure: ");
    } else {
        push_str(&mut out, "Parsing Error: ");
    }
    push_str(&mut out, "ParserError { message: ");
    push_str(&mut out, quoted);
    push_str(&mut out, " }");
    string_of(&out)
}

impl ParseError {
    /// What is reported for the stop of a parse.
    pub fn to_text(&self) -> (r: String)
        ensures
            r@ == match self {
                ParseError::Error(e) => report_of(false, e.message@),
                ParseError::Failure(e) => report_of(true, e.message@),
            },
    {
        match self {
            ParseError::Error(e) => parse_report(false, debug_quote(e.message.as_str()).as_str()),
            ParseError::Failure(e) => parse_report(
                true,
                debug_quote(e.message.as_str()).as_str(),
            ),
        }
    }
}

/// What the macro gives for its input: for a block that parses, the code of
/// its helpers, with the spans of the input where a token of the code reads
/// like one of the input; and for a parse that stops, its report as an
/// error, without code.
pub open spec fn event_spy_helpers_output(initial: TokenStreamView) -> ProcMacroResultView {
    match dsl_at(stream_text(initial)) {
        Outcome::Done(_, block) => ProcMacroResultView {
            token_stream: output_stream(initial, generated_helpers(block)),
            diagnostics: Seq::empty(),
        },
        Outcome::Error(m) => failure_of(report_of(false, m)),
        Outcome::Failure(m) => failure_of(report_of(true, m)),
    }
}

/// Generates helper functions for spying on events in tests.
///
/// ```text
/// generate_event_spy_helpers! {
///     impl AccessControlDefaultAdminRulesSpyHelpers {
///         #[only]
///         event DefaultAdminTransferScheduled(
///            #[key]
///            new_admin: ContractAddress,
///            accept_schedule: u64
///         );
///     }
/// }
/// ```
///
/// gives the functions `assert_event_default_admin_transfer_scheduled` and,
/// because of `#[only]`, `assert_only_event_default_admin_transfer_scheduled`.
pub fn generate_event_spy_helpers(token_stream: &TokenStream) -> (r: ProcMacroResult)
    ensures
        r.deep_view() == event_spy_helpers_output(token_stream.deep_view()),
{
    let input = token_stream.to_text();
    let impl_block = match parse_dsl(input.as_str()) {
        Ok((_, impl_block)) => impl_block,
        Err(e) => {
            return ProcMacroResult::failure(Diagnostic::error(e.to_text()));
        },
    };
    let expanded = generate_code(&impl_block);
    let token_stream_with_spans = tokens_with_spans(token_stream, expanded.as_str());
    ProcMacroResult::new(token_stream_with_spans)
}

} // verus!
