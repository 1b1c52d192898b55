//! The derive itself: from the source of a struct or an enum to the constant
//! that holds the hash of its SNIP-12 type.

use vstd::prelude::*;
use cairo_lang_starknet_classes::keccak::starknet_keccak;
use convert_case::{Case, Casing};
use crate::diagnostic::{error_of, Diagnostic, DiagnosticView};
use crate::syntax::{
    find_first_item,
    first_item,
    format_code,
    formatted_code,
    parse_syntax,
    parsed_syntax,
    SyntaxEntry,
    Tree,
};
use crate::text::{chars_of, push_str, string_of};
use crate::token_stream::{
    failure_of,
    plain_stream,
    stream_text,
    tokens_of_text,
    TokenStreamView,
    ProcMacroResult,
    ProcMacroResultView,
    TokenStream,
};
use crate::type_hash::diagnostics::errors::{EMPTY_TYPE_FOUND, NOT_VALID_TYPE_FOR_DERIVE};
use crate::type_hash::parser::{
    type_encoding,
    ParserView,
    PluginTypeInfo,
    PluginTypeInfoView,
    TypeHashParser,
};
use crate::type_hash::reader::{read_type_info, type_info_at};
use crate::type_hash::types::text_result;

verus! {

/// The Starknet hash of a text, in hexadecimal digits: what
/// `starknet_keccak` gives for the bytes of the text.
pub uninterp spec fn starknet_keccak_hex(text: Seq<char>) -> Seq<char>;

/// A name in upper snake case, as `convert_case` writes it.
pub uninterp spec fn upper_snake_case(name: Seq<char>) -> Seq<char>;

/// The Starknet hash of a text, in hexadecimal digits.
///
/// Trusted: `starknet_keccak` of cairo_lang_starknet_classes on the bytes of
/// the text, written with `{:x}`. The result depends on the text alone, so
/// it is named and nothing more is claimed of it.
#[verifier::external_body]
fn keccak_hex(text: &str) -> (r: String)
    ensures
        r@ == starknet_keccak_hex(text@),
{
    format!("{:x}", starknet_keccak(text.as_bytes()))
}

/// A name in upper snake case.
///
/// Trusted: `Casing::to_case` of convert_case with `Case::UpperSnake`. The
/// result depends on the name alone, so it is named and nothing more is
/// claimed of it.
#[verifier::external_body]
fn to_upper_snake(name: &str) -> (r: String)
    ensures
        r@ == upper_snake_case(name@),
{
    name.to_case(Case::UpperSnake)
}

/// The first `n` characters of `s`, with a backslash before each double
/// quote.
pub open spec fn escaped_prefix(s: Seq<char>, n: nat) -> Seq<char>
    decreases n,
{
    if n == 0 {
        Seq::empty()
    } else if s[n - 1] == '"' {
        escaped_prefix(s, (n - 1) as nat) + seq!['\\', '"']
    } else {
        escaped_prefix(s, (n - 1) as nat).push(s[n - 1])
    }
}

/// `s` with a backslash before each double quote.
pub open spec fn escape_quotes(s: Seq<char>) -> Seq<char> {
    escaped_prefix(s, s.len())
}

/// Writes `s` with a backslash before each double quote.
pub fn escaped(s: &str) -> (r: Vec<char>)
    ensures
        r@ == escape_quotes(s@),
{
    let chars = chars_of(s);
    let mut out: Vec<char> = Vec::new();
    let mut i: usize = 0;
    while i < chars.len()
        invariant
            i <= chars.len(),
            out@ == escaped_prefix(chars@, i as nat),
        decreases chars.len() - i,
    {
        if chars[i] == '"' {
            let ghost before = out@;
            out.push('\\');
            out.push('"');
            assert(out@ =~= before + seq!['\\', '"']);
        } else {
            out.push(chars[i]);
        }
        i += 1;
    }
    out
}

/// The code that declares the type hash of a type with the given name and
/// encoding: a comment that shows the encoding, and a constant, named in
/// upper snake case after the type, that holds the hash of the encoding.
pub open spec fn type_hash_code(name: Seq<char>, encoding: Seq<char>) -> Seq<char> {
    declaration(upper_snake_case(name), encoding, starknet_keccak_hex(encoding))
}

/// The parser that has gathered nothing.
pub open spec fn fresh() -> ParserView {
    ParserView { processed: Seq::empty(), encoded_types: Seq::empty() }
}

/// The code that is generated for a struct or an enum, or the error of its
/// encoding.
pub open spec fn generated_code(info: PluginTypeInfoView) -> Result<Seq<char>, DiagnosticView> {
    match type_encoding(info, fresh()) {
        Ok(encoding) => Ok(type_hash_code(info.name, encoding)),
        Err(error) => Err(error),
    }
}

/// The code that declares a constant of the given name with the given hash,
/// under a comment that shows the encoding with its quotes escaped.
pub open spec fn declaration(constant: Seq<char>, encoding: Seq<char>, hash: Seq<char>) -> Seq<
    char,
> {
    "// selector!(\n//   \""@ + escape_quotes(encoding) + "\"\n// );\npub const "@ + constant
        + "_TYPE_HASH: felt252 = 0x"@ + hash + ";\n"@
}

/// Writes the code that declares the type hash: a comment that shows the
/// encoding, and the constant `<constant>_TYPE_HASH` with the hash, which is
/// given in hexadecimal digits.
pub fn type_hash_declaration(constant: &str, encoding: &str, hash: &str) -> (r: String)
    ensures
        r@ == declaration(constant@, encoding@, hash@),
{
    let mut code: Vec<char> = Vec::new();
    push_str(&mut code, "// selector!(\n//   \"");
    let shown = escaped(encoding);
    crate::text::push_all(&mut code, &shown);
    push_str(&mut code, "\"\n// );\npub const ");
    push_str(&mut code, constant);
    push_str(&mut code, "_TYPE_HASH: felt252 = 0x");
    push_str(&mut code, hash);
    push_str(&mut code, ";\n");
    string_of(&code)
}

/// Generates the code of the type hash constant of a struct or an enum.
pub fn generate_code(plugin_type_info: &PluginTypeInfo) -> (r: Result<String, Diagnostic>)
    ensures
        text_result(r) == generated_code(plugin_type_info.deep_view()),
{
    let mut parser = TypeHashParser::new(plugin_type_info);
    let type_hash_string = match parser.parse() {
        Ok(encoding) => encoding,
        Err(error) => {
            return Err(error);
        },
    };
    let type_hash = keccak_hex(type_hash_string.as_str());
    let constant_name = to_upper_snake(plugin_type_info.name.as_str());
    Ok(
        type_hash_declaration(
            constant_name.as_str(),
            type_hash_string.as_str(),
            type_hash.as_str(),
        ),
    )
}

/// What the derive makes of a parsed source: the code for its first item,
/// which has to be a struct or an enum.
pub open spec fn handled_node(t: Tree) -> Result<Seq<char>, DiagnosticView> {
    match first_item(t) {
        None => Err(error_of(EMPTY_TYPE_FOUND@)),
        Some(item) => match type_info_at(t, item) {
            Some(info) => generated_code(info),
            None => Err(error_of(NOT_VALID_TYPE_FOR_DERIVE@)),
        },
    }
}

/// Generates the code for the first item of a parsed source.
///
/// Fails where the source holds no item, where its first item is neither a
/// struct nor an enum, and where the encoding of the type fails.
pub fn handle_node(tree: &Vec<SyntaxEntry>) -> (r: Result<String, Diagnostic>)
    ensures
        text_result(r) == handled_node(tree.deep_view()),
{
    let item = match find_first_item(tree) {
        Some(item) => item,
        None => {
            return Err(Diagnostic::error(String::from_str(EMPTY_TYPE_FOUND)));
        },
    };
    match read_type_info(tree, item) {
        Some(plugin_type_info) => generate_code(&plugin_type_info),
        None => Err(Diagnostic::error(String::from_str(NOT_VALID_TYPE_FOR_DERIVE))),
    }
}

/// What the derive gives for a source text. A text that cannot be parsed
/// gives the parser's report as an error; one whose first item cannot be
/// encoded gives that error; either comes without code. Otherwise the
/// result is the generated code, formatted, without diagnostics.
pub open spec fn type_hash_output(item: Seq<char>) -> ProcMacroResultView {
    match parsed_syntax(item) {
        Err(report) => failure_of(report),
        Ok(t) => match handled_node(t) {
            Ok(code) => ProcMacroResultView {
                token_stream: plain_stream(tokens_of_text(formatted_code(code))),
                diagnostics: Seq::empty(),
            },
            Err(error) => ProcMacroResultView {
                token_stream: plain_stream(Seq::empty()),
                diagnostics: seq![error],
            },
        },
    }
}

/// The derive gives the same for the same text: two inputs with the same
/// text have the same code and the same diagnostics.
pub proof fn lemma_type_hash_is_deterministic(first: TokenStreamView, second: TokenStreamView)
    requires
        stream_text(first) == stream_text(second),
    ensures
        type_hash_output(stream_text(first)) == type_hash_output(stream_text(second)),
{
}

/// Derives the constant that holds the SNIP-12 type hash of a struct or an
/// enum.
///
/// The result is a function of the text of the item: the same text gives the
/// same code and the same diagnostics.
pub fn type_hash(item_stream: &TokenStream) -> (r: ProcMacroResult)
    ensures
        r.deep_view() == type_hash_output(stream_text(item_stream.deep_view())),
{
    let source = item_stream.to_text();
    let tree = match parse_syntax(source.as_str()) {
        Ok(tree) => tree,
        Err(report) => {
            return ProcMacroResult::failure(Diagnostic::error(report));
        },
    };
    match handle_node(&tree) {
        Ok(content) => {
            let formatted_content = format_code(content.as_str());
            ProcMacroResult::new(TokenStream::from_text(formatted_content.as_str()))
        },
        Err(error) => ProcMacroResult::failure(error),
    }
}

} // verus!
