//! The values the grammar produces: terms, statements, and parse failures.
//!
//! Every term carries its bytes as an owned copy of the matched span of the
//! input buffer. The mathematical views (`SubjectV`, `PredicateV`, `ObjectV`,
//! `StatementV`) state the same values over `Seq<u8>`; all contracts speak of
//! those views.

use vstd::prelude::*;

verus! {

/// A subject term: an absolute identifier or a blank-node name.
#[derive(Clone, Debug, PartialEq, Eq)]
pub enum Subject {
    AbsoluteUri(Vec<u8>),
    NamedNode(Vec<u8>),
}

/// A predicate term: the grammar allows absolute identifiers only here.
#[derive(Clone, Debug, PartialEq, Eq)]
pub enum Predicate {
    AbsoluteUri(Vec<u8>),
}

/// An object term: an absolute identifier, a blank-node name, or a literal.
/// Of `datatype` and `language` at most one is ever non-empty.
#[derive(Clone, Debug, PartialEq, Eq)]
pub enum Object {
    AbsoluteUri(Vec<u8>),
    NamedNode(Vec<u8>),
    Literal { value: Vec<u8>, datatype: Vec<u8>, language: Vec<u8> },
}

/// One parsed statement: an ordered (subject, predicate, object) record.
#[derive(Clone, Debug, PartialEq, Eq)]
pub struct Statement {
    pub subject: Subject,
    pub predicate: Predicate,
    pub object: Object,
}

/// Mathematical view of a `Subject`.
pub enum SubjectV {
    AbsoluteUri(Seq<u8>),
    NamedNode(Seq<u8>),
}

/// Mathematical view of a `Predicate`.
pub enum PredicateV {
    AbsoluteUri(Seq<u8>),
}

/// Mathematical view of an `Object`.
pub enum ObjectV {
    AbsoluteUri(Seq<u8>),
    NamedNode(Seq<u8>),
    Literal { value: Seq<u8>, datatype: Seq<u8>, language: Seq<u8> },
}

/// Mathematical view of a `Statement`.
pub struct StatementV {
    pub subject: SubjectV,
    pub predicate: PredicateV,
    pub object: ObjectV,
}

impl View for Subject {
    type V = SubjectV;

    open spec fn view(&self) -> SubjectV {
        match self {
            Subject::AbsoluteUri(u) => SubjectV::AbsoluteUri(u@),
            Subject::NamedNode(n) => SubjectV::NamedNode(n@),
        }
    }
}

impl View for Predicate {
    type V = PredicateV;

    open spec fn view(&self) -> PredicateV {
        match self {
            Predicate::AbsoluteUri(u) => PredicateV::AbsoluteUri(u@),
        }
    }
}

impl View for Object {
    type V = ObjectV;

    open spec fn view(&self) -> ObjectV {
        match self {
            Object::AbsoluteUri(u) => ObjectV::AbsoluteUri(u@),
            Object::NamedNode(n) => ObjectV::NamedNode(n@),
            Object::Literal { value, datatype, language } => ObjectV::Literal {
                value: value@,
                datatype: datatype@,
                language: language@,
            },
        }
    }
}

impl View for Statement {
    type V = StatementV;

    open spec fn view(&self) -> StatementV {
        StatementV {
            subject: self.subject@,
            predicate: self.predicate@,
            object: self.object@,
        }
    }
}

/// The construct whose match failed.
#[derive(Clone, Copy, Debug, PartialEq, Eq, Structural)]
pub enum ErrorKind {
    /// An identifier reference is missing its closing delimiter.
    UnterminatedIdentifier,
    /// The blank-node marker is present but no alphanumeric name follows.
    InvalidBlankNode,
    /// An opening quote has no matching closing quote before input end.
    UnterminatedLiteral,
    /// One literal carries both a language tag and a datatype suffix.
    ConflictingLiteralSuffix,
    /// The statement body matched but the trailing terminator is absent.
    MissingTerminator,
    /// The input ended in the middle of a construct.
    UnexpectedEndOfInput,
    /// None of the term alternatives matched at the expected position.
    UnrecognizedTerm,
}

/// A parse failure: the failing construct and the byte offset at which
/// matching stopped.
#[derive(Clone, Copy, Debug, PartialEq, Eq, Structural)]
pub struct ParseError {
    pub kind: ErrorKind,
    pub offset: usize,
}

} // verus!
