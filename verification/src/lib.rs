//! Building blocks for source-to-source macro expanders: a span reconciler,
//! a structural patch engine over a flat syntax tree, a resolver for SNIP-12
//! types with a canonical encoding, and a parser for the event helper DSL.
//!
//! Every function is stated over a mathematical model: text is a `Seq<char>`,
//! lists are sequences, and each data type has a deep view.

pub mod constants;
pub mod diagnostic;
pub mod echo;
pub mod generate_event_spy_helpers;
pub mod oz_component;
pub mod pattern;
pub mod span_index;
pub mod syntax;
pub mod text;
pub mod text_span;
pub mod token_stream;
pub mod type_hash;
pub mod utils;
pub mod with_components;
