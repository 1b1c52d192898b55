//! Small text helpers used by the code generators.

use vstd::prelude::*;
use crate::constants::TAB;
use crate::text::repeat;

verus! {

/// Whether std counts `c` as an uppercase letter (`char::is_uppercase`).
pub uninterp spec fn char_is_uppercase(c: char) -> bool;

/// The lowercase form that std gives for `c` (`char::to_lowercase`), which
/// may be longer than one character.
pub uninterp spec fn char_to_lowercase(c: char) -> Seq<char>;

/// Trusted: `char::is_uppercase` of std. Its table of uppercase letters is
/// Unicode's, so the result is only named.
#[verifier::external_body]
fn is_uppercase(c: char) -> (r: bool)
    ensures
        r == char_is_uppercase(c),
{
    c.is_uppercase()
}

/// Trusted: `char::to_lowercase` of std, with the characters it yields
/// collected in order. The mapping is Unicode's, so the result is only named.
#[verifier::external_body]
fn to_lowercase(c: char) -> (r: Vec<char>)
    ensures
        r@ == char_to_lowercase(c),
{
    c.to_lowercase().collect()
}

/// `n` indentation steps.
pub fn tabs(n: usize) -> (r: String)
    ensures
        r@ == repeat(TAB@, n as nat),
{
    let mut out = String::new();
    let mut i: usize = 0;
    while i < n
        invariant
            i <= n,
            out@ == repeat(TAB@, i as nat),
        decreases n - i,
    {
        out.append(TAB);
        i += 1;
    }
    out
}

/// What one character of a camel-case name becomes in snake case: an
/// uppercase letter is lowered, after an underscore unless it comes first;
/// any other character stays.
pub open spec fn snake_piece(c: char, first: bool) -> Seq<char> {
    if char_is_uppercase(c) {
        if first {
            char_to_lowercase(c)
        } else {
            seq!['_'] + char_to_lowercase(c)
        }
    } else {
        seq![c]
    }
}

/// The snake-case form of the first `n` characters of `input`.
pub open spec fn snake_prefix(input: Seq<char>, n: nat) -> Seq<char>
    decreases n,
{
    if n == 0 {
        Seq::empty()
    } else {
        snake_prefix(input, (n - 1) as nat) + snake_piece(input[n - 1], n == 1)
    }
}

/// The snake-case form of a camel-case name.
pub open spec fn snake_case(input: Seq<char>) -> Seq<char> {
    snake_prefix(input, input.len())
}

/// Converts a camel-case name to snake case.
pub fn camel_to_snake(input: &str) -> (r: String)
    ensures
        r@ == snake_case(input@),
{
    let chars = crate::text::chars_of(input);
    let mut snake: Vec<char> = Vec::new();
    let mut i: usize = 0;
    while i < chars.len()
        invariant
            i <= chars.len(),
            snake@ == snake_prefix(chars@, i as nat),
        decreases chars.len() - i,
    {
        let ch = chars[i];
        if is_uppercase(ch) {
            if i != 0 {
                snake.push('_');
            }
            let lower = to_lowercase(ch);
            crate::text::push_all(&mut snake, &lower);
        } else {
            snake.push(ch);
        }
        i += 1;
    }
    crate::text::string_of(&snake)
}

/// A name without uppercase letters is its own snake-case form.
pub proof fn lemma_snake_case_keeps_lowercase(input: Seq<char>)
    requires
        forall|i: int| 0 <= i < input.len() ==> !char_is_uppercase(input[i]),
    ensures
        snake_case(input) == input,
{
    lemma_snake_prefix_keeps_lowercase(input, input.len());
}

/// The snake-case form of the first characters of a name without uppercase
/// letters is those characters.
proof fn lemma_snake_prefix_keeps_lowercase(input: Seq<char>, n: nat)
    requires
        n <= input.len(),
        forall|i: int| 0 <= i < input.len() ==> !char_is_uppercase(input[i]),
    ensures
        snake_prefix(input, n) == input.take(n as int),
    decreases n,
{
    if n > 0 {
        lemma_snake_prefix_keeps_lowercase(input, (n - 1) as nat);
        assert(input.take(n as int) == input.take(n - 1).push(input[n - 1]));
    }
}

/// The snake-case form of a name that starts with an uppercase letter starts
/// with the lowercase form of that letter: nothing, and so no underscore, is
/// put before it.
pub proof fn lemma_snake_case_no_leading_underscore(input: Seq<char>)
    requires
        input.len() > 0,
        char_is_uppercase(input[0]),
    ensures
        crate::text::starts_with(snake_case(input), char_to_lowercase(input[0])),
{
    lemma_snake_prefix_start(input, input.len());
}

/// The snake-case form of one or more characters of a name that starts with
/// an uppercase letter starts with the lowercase form of that letter.
proof fn lemma_snake_prefix_start(input: Seq<char>, n: nat)
    requires
        1 <= n <= input.len(),
        char_is_uppercase(input[0]),
    ensures
        crate::text::starts_with(snake_prefix(input, n), char_to_lowercase(input[0])),
    decreases n,
{
    let low = char_to_lowercase(input[0]);
    if n == 1 {
        assert(snake_prefix(input, 0) == Seq::<char>::empty());
        assert(snake_prefix(input, 1) == low);
        assert(low.subrange(0, low.len() as int) == low);
    } else {
        lemma_snake_prefix_start(input, (n - 1) as nat);
        let before = snake_prefix(input, (n - 1) as nat);
        let whole = snake_prefix(input, n);
        assert(whole.subrange(0, low.len() as int) == before.subrange(0, low.len() as int));
    }
}

} // verus!
