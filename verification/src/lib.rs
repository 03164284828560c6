//! A verified parser for a line-oriented plain-text RDF serialization: one
//! statement per line, each an (subject, predicate, object) triple closed by
//! a terminator character, with whitespace and comments as transparent
//! separators.
//!
//! The grammar is hand-written recursive descent over a byte buffer. Each
//! executable parser is specified against a mathematical model of the same
//! grammar rule (a `spec fn` over `Seq<u8>`), and the general properties of
//! the grammar are proved in [`laws`].

pub mod grammar;
pub mod laws;
pub mod lexer;
pub mod terms;

use vstd::prelude::*;

verus! {

pub use grammar::iriref;
pub use grammar::literal;
pub use grammar::literal_value;
pub use grammar::named_node;
pub use grammar::object;
pub use grammar::parse_document;
pub use grammar::parse_statement;
pub use grammar::predicate;
pub use grammar::subject;
pub use lexer::absolute_uri;
pub use lexer::comment;
pub use lexer::is_absolute_uri_char;
pub use lexer::name;
pub use lexer::skip_separators;
pub use terms::ErrorKind;
pub use terms::Object;
pub use terms::ParseError;
pub use terms::Predicate;
pub use terms::Statement;
pub use terms::Subject;

} // verus!
