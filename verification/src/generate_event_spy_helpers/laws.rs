//! What is written in the little language is read back as it was written.
//!
//! A block is written with one blank between its words, as in
//! `{ impl Foo { event Bar(field: u64); } }`, and the parser gives back the
//! block that was written, for any block whose names are identifiers.

use vstd::prelude::*;
use crate::generate_event_spy_helpers::parser::{
    alpha_end,
    dsl_at,
    event_at,
    event_attributes_at,
    event_tail_at,
    events_at,
    first_unsupported,
    ident_end,
    identifier_at,
    impl_block_at,
    is_alpha,
    is_ident_char,
    is_space,
    key_attribute_at,
    more_parameters_at,
    more_words_at,
    parameter_at,
    parameters_at,
    spaces_end,
    token_at,
    words_at,
    EventView,
    ImplBlockView,
    Outcome,
    ParameterView,
};
use crate::text::occurs_at;

verus! {

/// Whether a text is an identifier: a letter, followed by letters, digits
/// and underscores.
pub open spec fn is_identifier(name: Seq<char>) -> bool {
    &&& name.len() > 0
    &&& is_alpha(name[0])
    &&& forall|k: int| 0 <= k < name.len() ==> is_ident_char(#[trigger] name[k])
}

/// A text that stands in another has its characters there.
proof fn lemma_char_at(s: Seq<char>, i: int, part: Seq<char>, k: int)
    requires
        occurs_at(s, i, part),
        0 <= k < part.len(),
    ensures
        s[i + k] == part[k],
{
    assert(s.subrange(i, i + part.len())[k] == part[k]);
}

/// Where two texts stand one behind the other, each of them stands.
proof fn lemma_occurs_split(s: Seq<char>, i: int, a: Seq<char>, b: Seq<char>)
    requires
        occurs_at(s, i, a + b),
    ensures
        occurs_at(s, i, a),
        occurs_at(s, i + a.len(), b),
{
    let whole = a + b;
    assert(s.subrange(i, i + a.len()) =~= a) by {
        assert forall|k: int| 0 <= k < a.len() implies s.subrange(i, i + a.len())[k] == a[k] by {
            lemma_char_at(s, i, whole, k);
        }
    }
    assert(s.subrange(i + a.len(), i + a.len() + b.len()) =~= b) by {
        assert forall|k: int| 0 <= k < b.len() implies s.subrange(
            i + a.len(),
            i + a.len() + b.len(),
        )[k] == b[k] by {
            lemma_char_at(s, i, whole, a.len() + k);
        }
    }
}

/// No space is skipped where none stands.
proof fn lemma_no_space(s: Seq<char>, i: int)
    requires
        0 <= i <= s.len(),
        i < s.len() ==> !is_space(s[i]),
    ensures
        spaces_end(s, i) == i,
{
}

/// One blank is skipped where one stands in front of something else.
proof fn lemma_one_space(s: Seq<char>, i: int)
    requires
        0 <= i < s.len(),
        s[i] == ' ',
        i + 1 < s.len() ==> !is_space(s[i + 1]),
    ensures
        spaces_end(s, i) == i + 1,
{
    lemma_no_space(s, i + 1);
}

/// The characters of an identifier are passed over up to its end.
proof fn lemma_ident_end(s: Seq<char>, i: int, name: Seq<char>, k: int)
    requires
        occurs_at(s, i, name),
        forall|j: int| 0 <= j < name.len() ==> is_ident_char(#[trigger] name[j]),
        0 <= k <= name.len(),
        i + name.len() < s.len() ==> !is_ident_char(s[i + name.len()]),
    ensures
        ident_end(s, i + k) == i + name.len(),
    decreases name.len() - k,
{
    if k < name.len() {
        lemma_char_at(s, i, name, k);
        lemma_ident_end(s, i, name, k + 1);
    }
}

/// An identifier that stands in front of something else is read whole.
pub proof fn lemma_identifier_is_read(s: Seq<char>, i: int, name: Seq<char>)
    requires
        occurs_at(s, i, name),
        is_identifier(name),
        i + name.len() < s.len() ==> !is_ident_char(s[i + name.len()]),
    ensures
        identifier_at(s, i) == Outcome::Done(i + name.len(), name),
{
    lemma_char_at(s, i, name, 0);
    lemma_ident_end(s, i, name, 0);
}

/// How a parameter is written: `#[key] ` where it is a key, then its name, a
/// colon, a blank and its type.
pub open spec fn written_parameter(p: ParameterView) -> Seq<char> {
    (if p.is_key {
        "#[key] "@
    } else {
        Seq::empty()
    }) + p.name + ": "@ + p.ty
}

/// Whether the names of a parameter are identifiers.
pub open spec fn valid_parameter(p: ParameterView) -> bool {
    is_identifier(p.name) && is_identifier(p.ty)
}

/// A parameter that is written in front of a comma or a closing parenthesis
/// is read as it was written.
pub proof fn lemma_parameter_is_read(s: Seq<char>, i: int, j: int, p: ParameterView)
    requires
        spaces_end(s, i) == j,
        occurs_at(s, j, written_parameter(p)),
        valid_parameter(p),
        j + written_parameter(p).len() < s.len(),
        s[j + written_parameter(p).len()] == ',' || s[j + written_parameter(p).len()] == ')',
    ensures
        parameter_at(s, i) == Outcome::Done(j + written_parameter(p).len(), p),
{
    reveal_strlit("#[key] ");
    reveal_strlit("#[");
    reveal_strlit("key");
    reveal_strlit(": ");
    reveal_strlit(":");
    let key = if p.is_key {
        "#[key] "@
    } else {
        Seq::<char>::empty()
    };
    let whole = written_parameter(p);
    assert(whole == ((key + p.name) + ": "@) + p.ty);
    lemma_occurs_split(s, j, (key + p.name) + ": "@, p.ty);
    lemma_occurs_split(s, j, key + p.name, ": "@);
    lemma_occurs_split(s, j, key, p.name);
    let a = j + key.len();
    let b = a + p.name.len();
    let c = b + 2;
    let d = c + p.ty.len();
    lemma_char_at(s, b, ": "@, 0);
    lemma_char_at(s, b, ": "@, 1);
    lemma_char_at(s, a, p.name, 0);
    lemma_char_at(s, c, p.ty, 0);
    if p.is_key {
        lemma_char_at(s, j, key, 0);
        lemma_char_at(s, j, key, 1);
        lemma_char_at(s, j, key, 2);
        lemma_char_at(s, j, key, 3);
        lemma_char_at(s, j, key, 4);
        lemma_char_at(s, j, key, 5);
        lemma_char_at(s, j, key, 6);
        assert(s.subrange(j, j + 2) =~= "#["@);
        assert(s.subrange(j + 2, j + 5) =~= "key"@);
        lemma_identifier_is_read(s, j + 2, "key"@);
        assert(key_attribute_at(s, j) == Outcome::Done(j + 6, true));
        lemma_one_space(s, j + 6);
    } else {
        assert(s[j] == p.name[0]);
        assert(!occurs_at(s, j, "#["@)) by {
            if occurs_at(s, j, "#["@) {
                lemma_char_at(s, j, "#["@, 0);
            }
        }
        assert(key_attribute_at(s, j) == Outcome::Done(j, false));
        lemma_no_space(s, j);
    }
    lemma_identifier_is_read(s, a, p.name);
    lemma_no_space(s, b);
    assert(s.subrange(b, b + 1) =~= ":"@);
    lemma_one_space(s, b + 1);
    lemma_identifier_is_read(s, c, p.ty);
    lemma_no_space(s, d);
}

/// How the first `n` parameters of a list are written: one after another,
/// with a comma and a blank between two of them.
pub open spec fn written_parameters(fields: Seq<ParameterView>, n: nat) -> Seq<char>
    decreases n,
{
    if n == 0 {
        Seq::empty()
    } else if n == 1 {
        written_parameter(fields[0])
    } else {
        written_parameters(fields, (n - 1) as nat) + ", "@ + written_parameter(fields[n - 1])
    }
}

/// Whether the names of all parameters are identifiers.
pub open spec fn valid_parameters(fields: Seq<ParameterView>) -> bool {
    forall|k: int| 0 <= k < fields.len() ==> valid_parameter(#[trigger] fields[k])
}

/// A parameter is written with a character that is no space in front.
proof fn lemma_parameter_begins(p: ParameterView)
    requires
        valid_parameter(p),
    ensures
        written_parameter(p).len() > 0,
        !is_space(written_parameter(p)[0]),
        written_parameter(p)[0] != ')',
        written_parameter(p)[0] != ',',
{
    reveal_strlit("#[key] ");
    reveal_strlit(": ");
    if p.is_key {
        assert(written_parameter(p)[0] == "#[key] "@[0]);
    } else {
        assert(written_parameter(p)[0] == p.name[0]);
    }
}

/// Where a list of parameters stands, its first parameters stand, and
/// behind them a comma, a blank and the next parameter.
proof fn lemma_parameters_prefix(
    s: Seq<char>,
    i: int,
    fields: Seq<ParameterView>,
    k: nat,
    n: nat,
)
    requires
        1 <= k <= n <= fields.len(),
        occurs_at(s, i, written_parameters(fields, n)),
    ensures
        occurs_at(s, i, written_parameters(fields, k)),
        written_parameters(fields, k).len() <= written_parameters(fields, n).len(),
        k < n ==> occurs_at(s, i + written_parameters(fields, k).len(), ", "@) && occurs_at(
            s,
            i + written_parameters(fields, k).len() + 2,
            written_parameter(fields[k as int]),
        ) && written_parameters(fields, (k + 1) as nat).len() == written_parameters(
            fields,
            k,
        ).len() + 2 + written_parameter(fields[k as int]).len(),
    decreases n - k,
{
    reveal_strlit(", ");
    if k < n {
        let front = written_parameters(fields, (n - 1) as nat);
        let last = written_parameter(fields[n - 1]);
        assert(written_parameters(fields, n) == (front + ", "@) + last);
        lemma_occurs_split(s, i, front + ", "@, last);
        lemma_occurs_split(s, i, front, ", "@);
        if k < n - 1 {
            lemma_parameters_prefix(s, i, fields, k, (n - 1) as nat);
        }
    }
}

/// The parameters that follow the first `k` of a written list are read as
/// they were written.
proof fn lemma_more_parameters_are_read(
    s: Seq<char>,
    i: int,
    fields: Seq<ParameterView>,
    k: nat,
)
    requires
        1 <= k <= fields.len(),
        valid_parameters(fields),
        occurs_at(s, i, written_parameters(fields, fields.len())),
        i + written_parameters(fields, fields.len()).len() < s.len(),
        s[i + written_parameters(fields, fields.len()).len()] == ')',
    ensures
        more_parameters_at(s, i + written_parameters(fields, k).len(), fields.take(k as int))
            == Outcome::Done(i + written_parameters(fields, fields.len()).len(), fields),
    decreases fields.len() - k,
{
    reveal_strlit(", ");
    let n = fields.len();
    let at = i + written_parameters(fields, k).len();
    lemma_parameters_prefix(s, i, fields, k, n);
    if k == n {
        assert(fields.take(k as int) =~= fields);
    } else {
        let p = fields[k as int];
        assert(valid_parameter(p));
        lemma_char_at(s, at, ", "@, 0);
        lemma_char_at(s, at, ", "@, 1);
        lemma_parameter_begins(p);
        lemma_char_at(s, at + 2, written_parameter(p), 0);
        lemma_one_space(s, at + 1);
        let end = at + 2 + written_parameter(p).len();
        assert(end == i + written_parameters(fields, (k + 1) as nat).len());
        if k + 1 < n {
            lemma_parameters_prefix(s, i, fields, (k + 1) as nat, n);
            lemma_char_at(s, end, ", "@, 0);
        } else {
            assert(end == i + written_parameters(fields, n).len());
        }
        lemma_parameter_is_read(s, at + 1, at + 2, p);
        lemma_more_parameters_are_read(s, i, fields, (k + 1) as nat);
        assert(fields.take(k as int).push(p) =~= fields.take(k as int + 1));
    }
}

/// A list of parameters that is written in front of a closing parenthesis
/// is read as it was written.
pub proof fn lemma_parameters_are_read(s: Seq<char>, i: int, fields: Seq<ParameterView>)
    requires
        0 <= i,
        valid_parameters(fields),
        occurs_at(s, i, written_parameters(fields, fields.len())),
        i + written_parameters(fields, fields.len()).len() < s.len(),
        s[i + written_parameters(fields, fields.len()).len()] == ')',
    ensures
        parameters_at(s, i) == Outcome::Done(
            i + written_parameters(fields, fields.len()).len(),
            fields,
        ),
{
    reveal_strlit("#[");
    if fields.len() == 0 {
        assert(s[i] == ')');
        lemma_no_space(s, i);
        assert(!occurs_at(s, i, "#["@)) by {
            if occurs_at(s, i, "#["@) {
                lemma_char_at(s, i, "#["@, 0);
            }
        }
        assert(key_attribute_at(s, i) == Outcome::Done(i, false));
        assert(identifier_at(s, i) is Error);
        assert(parameter_at(s, i) is Error);
        assert(fields =~= Seq::<ParameterView>::empty());
    } else {
        let p = fields[0];
        assert(valid_parameter(p));
        lemma_parameters_prefix(s, i, fields, 1, fields.len());
        lemma_parameter_begins(p);
        lemma_char_at(s, i, written_parameter(p), 0);
        lemma_no_space(s, i);
        let end = i + written_parameter(p).len();
        if fields.len() > 1 {
            reveal_strlit(", ");
            lemma_char_at(s, end, ", "@, 0);
        }
        lemma_parameter_is_read(s, i, i, p);
        lemma_more_parameters_are_read(s, i, fields, 1);
        assert(fields.take(1) =~= seq![p]);
    }
}

/// How an event is written: `#[only] ` where it is marked, then the word
/// `event`, its name, and its parameters in parentheses, with a semicolon
/// behind them.
pub open spec fn written_event(e: EventView) -> Seq<char> {
    (if e.is_only {
        "#[only] "@
    } else {
        Seq::empty()
    }) + "event "@ + e.name + "("@ + written_parameters(e.fields, e.fields.len()) + ");"@
}

/// Whether the names of an event and of its parameters are identifiers.
pub open spec fn valid_event(e: EventView) -> bool {
    is_identifier(e.name) && valid_parameters(e.fields)
}

/// An event is written with a character in front that is no space and no
/// closing brace.
proof fn lemma_event_begins(e: EventView)
    ensures
        written_event(e).len() > 0,
        !is_space(written_event(e)[0]),
        written_event(e)[0] != '}',
{
    reveal_strlit("#[only] ");
    reveal_strlit("event ");
    if e.is_only {
        assert(written_event(e)[0] == "#[only] "@[0]);
    } else {
        assert(written_event(e)[0] == "event "@[0]);
    }
}

/// The mark `#[only]` in front of an event is read.
proof fn lemma_only_is_read(s: Seq<char>, j: int)
    requires
        occurs_at(s, j, "#[only] "@),
        j + 8 < s.len(),
        !is_space(s[j + 8]),
    ensures
        event_attributes_at(s, j) == Outcome::Done(j + 7, true),
        spaces_end(s, j + 7) == j + 8,
{
    reveal_strlit("#[only] ");
    reveal_strlit("#[");
    reveal_strlit("only");
    let mark = "#[only] "@;
    lemma_char_at(s, j, mark, 0);
    lemma_char_at(s, j, mark, 1);
    lemma_char_at(s, j, mark, 2);
    lemma_char_at(s, j, mark, 3);
    lemma_char_at(s, j, mark, 4);
    lemma_char_at(s, j, mark, 5);
    lemma_char_at(s, j, mark, 6);
    lemma_char_at(s, j, mark, 7);
    lemma_no_space(s, j);
    assert(s.subrange(j, j + 2) =~= "#["@);
    assert(alpha_end(s, j + 6) == j + 6);
    assert(alpha_end(s, j + 5) == j + 6);
    assert(alpha_end(s, j + 4) == j + 6);
    assert(alpha_end(s, j + 3) == j + 6);
    assert(alpha_end(s, j + 2) == j + 6);
    assert(s.subrange(j + 2, j + 6) =~= "only"@);
    lemma_no_space(s, j + 6);
    let found = seq!["only"@];
    assert(more_words_at(s, j + 6, found) == (j + 6, found));
    assert(words_at(s, j + 2) == (j + 6, found));
    assert(first_unsupported(found, 0) is None);
    assert(first_unsupported(found, 1) is None);
    assert(found[0] == "only"@);
    assert(found.contains("only"@));
    lemma_one_space(s, j + 7);
}

/// An event that is written is read as it was written.
pub proof fn lemma_event_is_read(s: Seq<char>, i: int, j: int, e: EventView)
    requires
        0 <= j,
        spaces_end(s, i) == j,
        occurs_at(s, j, written_event(e)),
        valid_event(e),
    ensures
        event_at(s, i) == Outcome::Done(j + written_event(e).len(), e),
{
    reveal_strlit("#[only] ");
    reveal_strlit("#[");
    reveal_strlit("event ");
    reveal_strlit("event");
    reveal_strlit("(");
    reveal_strlit(");");
    reveal_strlit(")");
    reveal_strlit(";");
    let only = if e.is_only {
        "#[only] "@
    } else {
        Seq::<char>::empty()
    };
    let params = written_parameters(e.fields, e.fields.len());
    let whole = written_event(e);
    assert(whole == ((((only + "event "@) + e.name) + "("@) + params) + ");"@);
    lemma_occurs_split(s, j, (((only + "event "@) + e.name) + "("@) + params, ");"@);
    lemma_occurs_split(s, j, ((only + "event "@) + e.name) + "("@, params);
    lemma_occurs_split(s, j, (only + "event "@) + e.name, "("@);
    lemma_occurs_split(s, j, only + "event "@, e.name);
    lemma_occurs_split(s, j, only, "event "@);
    let b = j + only.len();
    let c = b + 5;
    let name_at = b + 6;
    let d = name_at + e.name.len();
    let first = d + 1;
    let pe = first + params.len();
    lemma_char_at(s, b, "event "@, 0);
    lemma_char_at(s, b, "event "@, 1);
    lemma_char_at(s, b, "event "@, 2);
    lemma_char_at(s, b, "event "@, 3);
    lemma_char_at(s, b, "event "@, 4);
    lemma_char_at(s, b, "event "@, 5);
    lemma_char_at(s, name_at, e.name, 0);
    lemma_char_at(s, d, "("@, 0);
    lemma_char_at(s, pe, ");"@, 0);
    lemma_char_at(s, pe, ");"@, 1);
    assert(s.subrange(b, b + 5) =~= "event"@);
    assert(s.subrange(d, d + 1) =~= "("@);
    assert(s.subrange(pe, pe + 1) =~= ")"@);
    assert(s.subrange(pe + 1, pe + 2) =~= ";"@);
    lemma_event_begins(e);
    lemma_char_at(s, j, whole, 0);
    lemma_no_space(s, j);
    if e.is_only {
        lemma_only_is_read(s, j);
    } else {
        assert(!occurs_at(s, j, "#["@)) by {
            if occurs_at(s, j, "#["@) {
                lemma_char_at(s, j, "#["@, 0);
            }
        }
        assert(event_attributes_at(s, j) == Outcome::Done(j, false));
    }
    lemma_one_space(s, c);
    lemma_identifier_is_read(s, name_at, e.name);
    lemma_no_space(s, d);
    if e.fields.len() > 0 {
        assert(valid_parameter(e.fields[0]));
        lemma_parameters_prefix(s, first, e.fields, 1, e.fields.len());
        lemma_parameter_begins(e.fields[0]);
        lemma_char_at(s, first, written_parameter(e.fields[0]), 0);
    }
    lemma_no_space(s, first);
    lemma_parameters_are_read(s, first, e.fields);
    lemma_no_space(s, pe);
    lemma_no_space(s, pe + 1);
    assert(event_tail_at(s, d) == Outcome::Done(pe + 2, e.fields));
}

/// How the first `n` events of a block are written: one after another, each
/// with a blank behind it.
pub open spec fn written_events(events: Seq<EventView>, n: nat) -> Seq<char>
    decreases n,
{
    if n == 0 {
        Seq::empty()
    } else {
        written_events(events, (n - 1) as nat) + written_event(events[n - 1]) + " "@
    }
}

/// Whether the names of all events and of their parameters are identifiers.
pub open spec fn valid_events(events: Seq<EventView>) -> bool {
    forall|k: int| 0 <= k < events.len() ==> valid_event(#[trigger] events[k])
}

/// Where a list of events stands, its first events stand, and behind them
/// the next event and a blank.
proof fn lemma_events_prefix(s: Seq<char>, start: int, events: Seq<EventView>, k: nat, n: nat)
    requires
        k < n <= events.len(),
        occurs_at(s, start, written_events(events, n)),
    ensures
        occurs_at(s, start + written_events(events, k).len(), written_event(events[k as int])),
        written_events(events, (k + 1) as nat).len() == written_events(events, k).len()
            + written_event(events[k as int]).len() + 1,
        written_events(events, (k + 1) as nat).len() <= written_events(events, n).len(),
        s[start + written_events(events, (k + 1) as nat).len() - 1] == ' ',
    decreases n - k,
{
    reveal_strlit(" ");
    let front = written_events(events, (n - 1) as nat);
    let last = written_event(events[n - 1]);
    assert(written_events(events, n) == (front + last) + " "@);
    lemma_occurs_split(s, start, front + last, " "@);
    lemma_occurs_split(s, start, front, last);
    if k < n - 1 {
        lemma_events_prefix(s, start, events, k, (n - 1) as nat);
    } else {
        lemma_char_at(s, start + front.len() + last.len(), " "@, 0);
    }
}

/// Where the reading of the events of a written list stands once `k` of
/// them are read: at the start, or behind the semicolon of the last that
/// was read.
pub open spec fn events_read_to(start: int, events: Seq<EventView>, k: nat) -> int {
    if k == 0 {
        start
    } else {
        start + written_events(events, k).len() - 1
    }
}

/// In front of a closing brace no event begins.
proof fn lemma_no_event_at_brace(s: Seq<char>, from: int, brace: int)
    requires
        0 <= brace < s.len(),
        spaces_end(s, from) == brace,
        s[brace] == '}',
    ensures
        event_at(s, from) is Error,
{
    reveal_strlit("#[");
    lemma_no_space(s, brace);
    assert(!occurs_at(s, brace, "#["@)) by {
        if occurs_at(s, brace, "#["@) {
            lemma_char_at(s, brace, "#["@, 0);
        }
    }
    assert(event_attributes_at(s, brace) == Outcome::Done(brace, false));
}

/// The events that follow the first `k` of a written list are read as they
/// were written, up to the closing brace behind the list.
proof fn lemma_more_events_are_read(s: Seq<char>, start: int, events: Seq<EventView>, k: nat)
    requires
        0 <= start,
        k <= events.len(),
        valid_events(events),
        occurs_at(s, start, written_events(events, events.len())),
        start + written_events(events, events.len()).len() < s.len(),
        s[start + written_events(events, events.len()).len()] == '}',
    ensures
        events_at(s, events_read_to(start, events, k), events.take(k as int)) == Outcome::Done(
            events_read_to(start, events, events.len()),
            events,
        ),
        spaces_end(s, events_read_to(start, events, events.len())) == start + written_events(
            events,
            events.len(),
        ).len(),
    decreases events.len() - k,
{
    let n = events.len();
    let all = written_events(events, n).len();
    let from = events_read_to(start, events, k);
    let brace = start + all;
    if n > 0 {
        lemma_events_prefix(s, start, events, (n - 1) as nat, n);
        lemma_one_space(s, brace - 1);
    } else {
        lemma_no_space(s, brace);
    }
    if k == n {
        lemma_no_event_at_brace(s, from, brace);
        assert(events.take(k as int) =~= events);
    } else {
        let e = events[k as int];
        assert(valid_event(e));
        let at = start + written_events(events, k).len();
        lemma_events_prefix(s, start, events, k, n);
        lemma_event_begins(e);
        lemma_char_at(s, at, written_event(e), 0);
        if k == 0 {
            lemma_no_space(s, at);
        } else {
            lemma_events_prefix(s, start, events, (k - 1) as nat, n);
            lemma_one_space(s, at - 1);
        }
        lemma_event_is_read(s, from, at, e);
        lemma_more_events_are_read(s, start, events, (k + 1) as nat);
        assert(events.take(k as int).push(e) =~= events.take(k as int + 1));
    }
}

/// How the head of a block is written: up to the blank behind its opening
/// brace.
pub open spec fn written_head(b: ImplBlockView) -> Seq<char> {
    (if b.is_public {
        "pub "@
    } else {
        Seq::empty()
    }) + "impl "@ + b.name + " { "@
}

/// The steps by which the head of a written block is read: `pub` stands or
/// not as the block is public, `impl` is read behind it, then the name, and
/// the opening brace; `start` is where the events begin.
proof fn lemma_head_is_read(s: Seq<char>, j: int, b: ImplBlockView, start: int)
    requires
        0 <= j,
        occurs_at(s, j, written_head(b)),
        is_identifier(b.name),
        start == j + written_head(b).len(),
        start < s.len(),
        !is_space(s[start]),
    ensures
        spaces_end(s, j) == j,
        occurs_at(s, j, "pub"@) == b.is_public,
        spaces_end(
            s,
            if b.is_public {
                j + 3
            } else {
                j
            },
        ) == start - b.name.len() - 8,
        token_at(
            s,
            start - b.name.len() - 8,
            "impl"@,
            "begin the helper implementation"@,
            "Start with `impl Name { ... }` (optionally prefix with `pub`)."@,
        ) == Outcome::Done(start - b.name.len() - 4, true),
        spaces_end(s, start - b.name.len() - 4) == start - b.name.len() - 3,
        identifier_at(s, start - b.name.len() - 3) == Outcome::Done(start - 3, b.name),
        spaces_end(s, start - 3) == start - 2,
        token_at(
            s,
            start - 2,
            "{"@,
            "open the helper body"@,
            "Wrap event definitions inside `{ ... }`."@,
        ) == Outcome::Done(start - 1, true),
        spaces_end(s, start - 1) == start,
{
    reveal_strlit("pub ");
    reveal_strlit("pub");
    reveal_strlit("impl ");
    reveal_strlit("impl");
    reveal_strlit(" { ");
    reveal_strlit("{");
    let public = if b.is_public {
        "pub "@
    } else {
        Seq::<char>::empty()
    };
    assert(written_head(b) == ((public + "impl "@) + b.name) + " { "@);
    lemma_occurs_split(s, j, (public + "impl "@) + b.name, " { "@);
    lemma_occurs_split(s, j, public + "impl "@, b.name);
    lemma_occurs_split(s, j, public, "impl "@);
    let word = j + public.len();
    let c = word + 4;
    let name_at = word + 5;
    let d = name_at + b.name.len();
    assert(start == d + 3);
    lemma_char_at(s, word, "impl "@, 0);
    lemma_char_at(s, word, "impl "@, 1);
    lemma_char_at(s, word, "impl "@, 2);
    lemma_char_at(s, word, "impl "@, 3);
    lemma_char_at(s, word, "impl "@, 4);
    lemma_char_at(s, name_at, b.name, 0);
    lemma_char_at(s, d, " { "@, 0);
    lemma_char_at(s, d, " { "@, 1);
    lemma_char_at(s, d, " { "@, 2);
    assert(s.subrange(word, word + 4) =~= "impl"@);
    assert(s.subrange(d + 1, d + 2) =~= "{"@);
    if b.is_public {
        lemma_char_at(s, j, public, 0);
        lemma_char_at(s, j, public, 1);
        lemma_char_at(s, j, public, 2);
        lemma_char_at(s, j, public, 3);
        assert(s.subrange(j, j + 3) =~= "pub"@);
        lemma_one_space(s, j + 3);
    } else {
        assert(!occurs_at(s, j, "pub"@)) by {
            if occurs_at(s, j, "pub"@) {
                lemma_char_at(s, j, "pub"@, 0);
            }
        }
    }
    lemma_no_space(s, j);
    lemma_no_space(s, word);
    lemma_one_space(s, c);
    lemma_identifier_is_read(s, name_at, b.name);
    lemma_one_space(s, d);
    lemma_one_space(s, d + 2);
}

/// How a block is written: its head, its events, and a closing brace.
pub open spec fn written_block(b: ImplBlockView) -> Seq<char> {
    written_head(b) + written_events(b.events, b.events.len()) + "}"@
}

/// Whether all names of a block are identifiers.
pub open spec fn valid_block(b: ImplBlockView) -> bool {
    is_identifier(b.name) && valid_events(b.events)
}

/// What follows the head of a written block is no space.
proof fn lemma_body_begins(s: Seq<char>, start: int, b: ImplBlockView)
    requires
        0 <= start,
        occurs_at(s, start, written_events(b.events, b.events.len()) + "}"@),
    ensures
        start < s.len(),
        !is_space(s[start]),
        occurs_at(s, start, written_events(b.events, b.events.len())),
        start + written_events(b.events, b.events.len()).len() < s.len(),
        s[start + written_events(b.events, b.events.len()).len()] == '}',
{
    reveal_strlit("}");
    let events = written_events(b.events, b.events.len());
    lemma_occurs_split(s, start, events, "}"@);
    lemma_char_at(s, start + events.len(), "}"@, 0);
    if b.events.len() > 0 {
        lemma_events_prefix(s, start, b.events, 0, b.events.len());
        lemma_event_begins(b.events[0]);
        lemma_char_at(s, start, written_event(b.events[0]), 0);
    }
}

/// A block that is written is read as it was written.
pub proof fn lemma_block_is_read(s: Seq<char>, i: int, j: int, b: ImplBlockView)
    requires
        0 <= j,
        spaces_end(s, i) == j,
        occurs_at(s, j, written_block(b)),
        valid_block(b),
    ensures
        impl_block_at(s, i) == Outcome::Done(spaces_end(s, j + written_block(b).len()), b),
{
    reveal_strlit("}");
    let head = written_head(b);
    let events = written_events(b.events, b.events.len());
    assert(written_block(b) == head + (events + "}"@));
    lemma_occurs_split(s, j, head, events + "}"@);
    let start = j + head.len();
    let brace = start + events.len();
    lemma_body_begins(s, start, b);
    lemma_head_is_read(s, j, b, start);
    lemma_more_events_are_read(s, start, b.events, 0);
    assert(b.events.take(0) =~= Seq::<EventView>::empty());
    assert(events_at(s, start, Seq::empty()) == Outcome::Done(
        events_read_to(start, b.events, b.events.len()),
        b.events,
    ));
    assert(s.subrange(brace, brace + 1) =~= "}"@);
    assert(token_at(
        s,
        brace,
        "}"@,
        "close the helper body"@,
        "Ensure there is a matching `}` after your events."@,
    ) == Outcome::<bool>::Done(brace + 1, true));
}

/// How the input of the macro is written: a block in braces.
pub open spec fn written_dsl(b: ImplBlockView) -> Seq<char> {
    "{ "@ + written_block(b) + " }"@
}

/// A written block begins with the `p` of `pub` or the `i` of `impl`.
proof fn lemma_block_begins(b: ImplBlockView)
    ensures
        written_block(b).len() > 0,
        !is_space(written_block(b)[0]),
{
    reveal_strlit("pub ");
    reveal_strlit("impl ");
    if b.is_public {
        assert(written_block(b)[0] == "pub "@[0]);
    } else {
        assert(written_block(b)[0] == "impl "@[0]);
    }
}

/// What is written is read back: the input that is written for a block
/// whose names are identifiers is read whole, and gives the block.
pub proof fn lemma_written_block_is_read_back(b: ImplBlockView)
    requires
        valid_block(b),
    ensures
        dsl_at(written_dsl(b)) == Outcome::Done(written_dsl(b).len() as int, b),
{
    reveal_strlit("{ ");
    reveal_strlit(" }");
    reveal_strlit("{");
    reveal_strlit("}");
    let s = written_dsl(b);
    let block = written_block(b);
    let end: int = 2 + block.len() as int;
    lemma_block_begins(b);
    assert(s.subrange(2, end) =~= block);
    assert(s.subrange(0, 1) =~= "{"@);
    assert(s.subrange(end + 1, end + 2) =~= "}"@);
    assert(s[0] == '{');
    assert(s[1] == ' ');
    assert(s[end] == ' ');
    assert(s[end + 1] == '}');
    assert(s[2] == block[0]);
    lemma_no_space(s, 0);
    lemma_one_space(s, 1);
    lemma_no_space(s, 2);
    lemma_block_is_read(s, 2, 2, b);
    lemma_one_space(s, end);
    lemma_no_space(s, end + 1);
    lemma_no_space(s, end + 2);
    assert(token_at(
        s,
        0,
        "{"@,
        "wrap the macro input"@,
        "Invoke the macro with `{ impl Name { ... } }`."@,
    ) == Outcome::<bool>::Done(1, true));
    assert(impl_block_at(s, 2) == Outcome::Done(end + 1, b));
    assert(token_at(
        s,
        end + 1,
        "}"@,
        "close the macro input"@,
        "Add a trailing `}` after the impl block."@,
    ) == Outcome::<bool>::Done(end + 2, true));
}

} // verus!
