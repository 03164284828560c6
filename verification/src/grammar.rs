//! The grammar: term parsers, the statement assembler, and the document
//! driver.
//!
//! Each grammar rule exists twice: as a `spec fn` over `Seq<u8>` that states
//! exactly what the rule matches and what it yields, and as an executable
//! function whose contract ties its result to that model. A parser takes the
//! input buffer and a position, and returns the parsed value together with
//! the position just past the consumed span, or the first failure with its
//! offset.

use vstd::prelude::*;

use crate::lexer::alnum_end;
use crate::lexer::alnum_run_end;
use crate::lexer::copy_range;
use crate::lexer::find_byte;
use crate::lexer::find_from;
use crate::lexer::lemma_alnum_end;
use crate::lexer::lemma_find_from;
use crate::lexer::lemma_skip_bounds;
use crate::lexer::skip_separators;
use crate::lexer::spec_skip;
use crate::lexer::CARET_MARK;
use crate::lexer::CLOSE_DELIM;
use crate::lexer::COLON_MARK;
use crate::lexer::LANGUAGE_MARK;
use crate::lexer::OPEN_DELIM;
use crate::lexer::QUOTE_MARK;
use crate::lexer::STATEMENT_END;
use crate::lexer::UNDERSCORE;
use crate::terms::ErrorKind;
use crate::terms::Object;
use crate::terms::ObjectV;
use crate::terms::ParseError;
use crate::terms::Predicate;
use crate::terms::PredicateV;
use crate::terms::Statement;
use crate::terms::StatementV;
use crate::terms::Subject;
use crate::terms::SubjectV;

verus! {

/// An executable parse result agrees with its model: same success or
/// failure, same error, and on success the same value and stop position.
pub open spec fn parse_result_matches<T: View>(
    r: Result<(T, usize), ParseError>,
    g: Result<(T::V, int), ParseError>,
) -> bool {
    match r {
        Ok(p) => g == Ok::<(T::V, int), ParseError>((p.0@, p.1 as int)),
        Err(e) => g == Err::<(T::V, int), ParseError>(e),
    }
}

/// An identifier reference at `pos`: opening delimiter, a run of bytes free
/// of the closing delimiter, closing delimiter. Yields the body. Fails with
/// `UnterminatedIdentifier` at the reference's own offset when no closing
/// delimiter remains.
pub open spec fn spec_iriref(s: Seq<u8>, pos: int) -> Result<(Seq<u8>, int), ParseError> {
    if !(0 <= pos < s.len()) {
        Err(ParseError { kind: ErrorKind::UnexpectedEndOfInput, offset: s.len() as usize })
    } else if s[pos] != OPEN_DELIM {
        Err(ParseError { kind: ErrorKind::UnrecognizedTerm, offset: pos as usize })
    } else {
        let j = find_from(s, pos + 1, CLOSE_DELIM);
        if j >= s.len() {
            Err(ParseError { kind: ErrorKind::UnterminatedIdentifier, offset: pos as usize })
        } else {
            Ok((s.subrange(pos + 1, j), j + 1))
        }
    }
}

/// A blank-node name at `pos`: the two-byte prefix marker, then a non-empty
/// alphanumeric name. Yields the name. The marker without a name fails with
/// `InvalidBlankNode` at the marker's offset.
pub open spec fn spec_named_node(s: Seq<u8>, pos: int) -> Result<(Seq<u8>, int), ParseError> {
    if !(0 <= pos < s.len()) {
        Err(ParseError { kind: ErrorKind::UnexpectedEndOfInput, offset: s.len() as usize })
    } else if s[pos] != UNDERSCORE {
        Err(ParseError { kind: ErrorKind::UnrecognizedTerm, offset: pos as usize })
    } else if pos + 1 >= s.len() {
        Err(ParseError { kind: ErrorKind::UnexpectedEndOfInput, offset: s.len() as usize })
    } else if s[pos + 1] != COLON_MARK {
        Err(ParseError { kind: ErrorKind::UnrecognizedTerm, offset: pos as usize })
    } else {
        let e = alnum_end(s, pos + 2);
        if e == pos + 2 {
            Err(ParseError { kind: ErrorKind::InvalidBlankNode, offset: pos as usize })
        } else {
            Ok((s.subrange(pos + 2, e), e))
        }
    }
}

/// A subject at `pos`: an identifier reference or a blank-node name, decided
/// by the leading byte (the two forms have disjoint leading characters).
pub open spec fn spec_subject(s: Seq<u8>, pos: int) -> Result<(SubjectV, int), ParseError> {
    if !(0 <= pos < s.len()) {
        Err(ParseError { kind: ErrorKind::UnexpectedEndOfInput, offset: s.len() as usize })
    } else if s[pos] == OPEN_DELIM {
        match spec_iriref(s, pos) {
            Ok(p) => Ok((SubjectV::AbsoluteUri(p.0), p.1)),
            Err(e) => Err(e),
        }
    } else if s[pos] == UNDERSCORE {
        match spec_named_node(s, pos) {
            Ok(p) => Ok((SubjectV::NamedNode(p.0), p.1)),
            Err(e) => Err(e),
        }
    } else {
        Err(ParseError { kind: ErrorKind::UnrecognizedTerm, offset: pos as usize })
    }
}

/// A predicate at `pos`: an identifier reference only; any other leading
/// token is a failure at this position.
pub open spec fn spec_predicate(s: Seq<u8>, pos: int) -> Result<(PredicateV, int), ParseError> {
    if !(0 <= pos < s.len()) {
        Err(ParseError { kind: ErrorKind::UnexpectedEndOfInput, offset: s.len() as usize })
    } else if s[pos] == OPEN_DELIM {
        match spec_iriref(s, pos) {
            Ok(p) => Ok((PredicateV::AbsoluteUri(p.0), p.1)),
            Err(e) => Err(e),
        }
    } else {
        Err(ParseError { kind: ErrorKind::UnrecognizedTerm, offset: pos as usize })
    }
}

/// A quoted literal value at `pos`: an opening quote, then the run up to the
/// next quote character (no escape processing), then that quote. Yields the
/// run. Fails with `UnterminatedLiteral` at the opening quote's offset when
/// no closing quote remains.
pub open spec fn spec_literal_value(s: Seq<u8>, pos: int) -> Result<(Seq<u8>, int), ParseError> {
    if !(0 <= pos < s.len()) {
        Err(ParseError { kind: ErrorKind::UnexpectedEndOfInput, offset: s.len() as usize })
    } else if s[pos] != QUOTE_MARK {
        Err(ParseError { kind: ErrorKind::UnrecognizedTerm, offset: pos as usize })
    } else {
        let j = find_from(s, pos + 1, QUOTE_MARK);
        if j >= s.len() {
            Err(ParseError { kind: ErrorKind::UnterminatedLiteral, offset: pos as usize })
        } else {
            Ok((s.subrange(pos + 1, j), j + 1))
        }
    }
}

/// A literal at `pos`: a quoted value, then optionally exactly one of a
/// language tag (the tag marker and a non-empty name) or a datatype suffix
/// (the two-byte datatype marker and an identifier reference). When the one
/// suffix is followed by the other suffix's marker, the literal is malformed
/// and fails with `ConflictingLiteralSuffix` at that marker's offset. A tag
/// marker without a name is not a suffix; it is left unconsumed.
pub open spec fn spec_literal(s: Seq<u8>, pos: int) -> Result<(ObjectV, int), ParseError> {
    match spec_literal_value(s, pos) {
        Err(e) => Err(e),
        Ok(vp) => {
            let k = vp.1;
            if k < s.len() && s[k] == LANGUAGE_MARK && alnum_end(s, k + 1) > k + 1 {
                let e = alnum_end(s, k + 1);
                if e + 2 <= s.len() && s[e] == CARET_MARK && s[e + 1] == CARET_MARK {
                    Err(ParseError { kind: ErrorKind::ConflictingLiteralSuffix, offset: e as usize })
                } else {
                    Ok(
                        (
                            ObjectV::Literal {
                                value: vp.0,
                                datatype: Seq::empty(),
                                language: s.subrange(k + 1, e),
                            },
                            e,
                        ),
                    )
                }
            } else if k + 2 <= s.len() && s[k] == CARET_MARK && s[k + 1] == CARET_MARK {
                match spec_iriref(s, k + 2) {
                    Err(e) => Err(e),
                    Ok(dp) => {
                        if dp.1 < s.len() && s[dp.1] == LANGUAGE_MARK {
                            Err(
                                ParseError {
                                    kind: ErrorKind::ConflictingLiteralSuffix,
                                    offset: dp.1 as usize,
                                },
                            )
                        } else {
                            Ok(
                                (
                                    ObjectV::Literal {
                                        value: vp.0,
                                        datatype: dp.0,
                                        language: Seq::empty(),
                                    },
                                    dp.1,
                                ),
                            )
                        }
                    },
                }
            } else {
                Ok(
                    (
                        ObjectV::Literal {
                            value: vp.0,
                            datatype: Seq::empty(),
                            language: Seq::empty(),
                        },
                        vp.1,
                    ),
                )
            }
        },
    }
}

/// An object at `pos`: an identifier reference, a blank-node name, or a
/// literal, decided by the leading byte.
pub open spec fn spec_object(s: Seq<u8>, pos: int) -> Result<(ObjectV, int), ParseError> {
    if !(0 <= pos < s.len()) {
        Err(ParseError { kind: ErrorKind::UnexpectedEndOfInput, offset: s.len() as usize })
    } else if s[pos] == OPEN_DELIM {
        match spec_iriref(s, pos) {
            Ok(p) => Ok((ObjectV::AbsoluteUri(p.0), p.1)),
            Err(e) => Err(e),
        }
    } else if s[pos] == UNDERSCORE {
        match spec_named_node(s, pos) {
            Ok(p) => Ok((ObjectV::NamedNode(p.0), p.1)),
            Err(e) => Err(e),
        }
    } else if s[pos] == QUOTE_MARK {
        spec_literal(s, pos)
    } else {
        Err(ParseError { kind: ErrorKind::UnrecognizedTerm, offset: pos as usize })
    }
}

/// The failure reported when a mandatory separator run matched nothing.
pub open spec fn spec_separator_missing(s: Seq<u8>, p: int) -> ParseError {
    if p >= s.len() {
        ParseError { kind: ErrorKind::UnexpectedEndOfInput, offset: s.len() as usize }
    } else {
        ParseError { kind: ErrorKind::UnrecognizedTerm, offset: p as usize }
    }
}

/// A statement whose subject begins exactly at `p0` (any leading separator
/// run already skipped): subject, mandatory separator run, predicate,
/// mandatory separator run, object, optional separator run, terminator
/// character. Committed left-to-right: the first failure is reported, with
/// no backtracking across matched terms.
pub open spec fn spec_statement_at(s: Seq<u8>, p0: int) -> Result<(StatementV, int), ParseError> {
    match spec_subject(s, p0) {
        Err(e) => Err(e),
        Ok(sp) => {
            let p2 = spec_skip(s, sp.1);
            if p2 == sp.1 {
                Err(spec_separator_missing(s, sp.1))
            } else {
                match spec_predicate(s, p2) {
                    Err(e) => Err(e),
                    Ok(pp) => {
                        let p4 = spec_skip(s, pp.1);
                        if p4 == pp.1 {
                            Err(spec_separator_missing(s, pp.1))
                        } else {
                            match spec_object(s, p4) {
                                Err(e) => Err(e),
                                Ok(op) => {
                                    let p6 = spec_skip(s, op.1);
                                    if p6 < s.len() && s[p6] == STATEMENT_END {
                                        Ok(
                                            (
                                                StatementV {
                                                    subject: sp.0,
                                                    predicate: pp.0,
                                                    object: op.0,
                                                },
                                                p6 + 1,
                                            ),
                                        )
                                    } else {
                                        Err(
                                            ParseError {
                                                kind: ErrorKind::MissingTerminator,
                                                offset: p6 as usize,
                                            },
                                        )
                                    }
                                },
                            }
                        }
                    },
                }
            }
        },
    }
}

/// A statement at `pos`: an optional leading separator run, then the
/// statement body.
pub open spec fn spec_statement(s: Seq<u8>, pos: int) -> Result<(StatementV, int), ParseError> {
    spec_statement_at(s, spec_skip(s, pos))
}

/// The whole input from `pos` on: statements separated by separator runs,
/// until the input is exhausted (clean stop) or the first statement fails
/// (error stop).
pub open spec fn spec_document(s: Seq<u8>, pos: int) -> Result<Seq<StatementV>, ParseError>
    recommends
        0 <= pos <= s.len(),
    decreases s.len() - pos,
{
    if spec_skip(s, pos) >= s.len() {
        Ok(Seq::empty())
    } else {
        match spec_statement(s, pos) {
            Err(e) => Err(e),
            Ok(p) => {
                // The guard bounds the recursion; a matched statement always
                // advances (`lemma_statement_bounds`), so it never fails.
                if pos < p.1 && p.1 <= s.len() {
                    match spec_document(s, p.1) {
                        Err(e) => Err(e),
                        Ok(rest) => Ok(seq![p.0] + rest),
                    }
                } else {
                    Ok(seq![p.0])
                }
            },
        }
    }
}

/// A matched identifier reference spans at least its two delimiters and
/// stays in bounds.
pub proof fn lemma_iriref_bounds(s: Seq<u8>, pos: int)
    requires
        0 <= pos <= s.len(),
    ensures
        spec_iriref(s, pos) matches Ok(p) ==> pos + 2 <= p.1 <= s.len(),
{
    if pos < s.len() && s[pos] == OPEN_DELIM {
        lemma_find_from(s, pos + 1, CLOSE_DELIM);
    }
}

/// A matched blank-node name spans at least the marker and one name byte.
pub proof fn lemma_named_node_bounds(s: Seq<u8>, pos: int)
    requires
        0 <= pos <= s.len(),
    ensures
        spec_named_node(s, pos) matches Ok(p) ==> pos + 3 <= p.1 <= s.len(),
{
    if pos + 1 < s.len() && s[pos] == UNDERSCORE && s[pos + 1] == COLON_MARK {
        lemma_alnum_end(s, pos + 2);
    }
}

/// A matched subject makes progress and stays in bounds.
pub proof fn lemma_subject_bounds(s: Seq<u8>, pos: int)
    requires
        0 <= pos <= s.len(),
    ensures
        spec_subject(s, pos) matches Ok(p) ==> pos < p.1 <= s.len(),
{
    lemma_iriref_bounds(s, pos);
    lemma_named_node_bounds(s, pos);
}

/// A matched predicate makes progress and stays in bounds.
pub proof fn lemma_predicate_bounds(s: Seq<u8>, pos: int)
    requires
        0 <= pos <= s.len(),
    ensures
        spec_predicate(s, pos) matches Ok(p) ==> pos < p.1 <= s.len(),
{
    lemma_iriref_bounds(s, pos);
}

/// A matched quoted value spans at least its two quotes.
pub proof fn lemma_literal_value_bounds(s: Seq<u8>, pos: int)
    requires
        0 <= pos <= s.len(),
    ensures
        spec_literal_value(s, pos) matches Ok(p) ==> pos + 2 <= p.1 <= s.len(),
{
    if pos < s.len() && s[pos] == QUOTE_MARK {
        lemma_find_from(s, pos + 1, QUOTE_MARK);
    }
}

/// A matched literal makes progress and stays in bounds.
pub proof fn lemma_literal_bounds(s: Seq<u8>, pos: int)
    requires
        0 <= pos <= s.len(),
    ensures
        spec_literal(s, pos) matches Ok(p) ==> pos < p.1 <= s.len(),
{
    lemma_literal_value_bounds(s, pos);
    if let Ok(vp) = spec_literal_value(s, pos) {
        let k = vp.1;
        if k + 1 <= s.len() {
            lemma_alnum_end(s, k + 1);
        }
        if k + 2 <= s.len() && s[k] == CARET_MARK && s[k + 1] == CARET_MARK {
            lemma_iriref_bounds(s, k + 2);
        }
    }
}

/// A matched object makes progress and stays in bounds.
pub proof fn lemma_object_bounds(s: Seq<u8>, pos: int)
    requires
        0 <= pos <= s.len(),
    ensures
        spec_object(s, pos) matches Ok(p) ==> pos < p.1 <= s.len(),
{
    lemma_iriref_bounds(s, pos);
    lemma_named_node_bounds(s, pos);
    lemma_literal_bounds(s, pos);
}

/// A matched statement makes progress and stays in bounds.
pub proof fn lemma_statement_bounds(s: Seq<u8>, pos: int)
    requires
        0 <= pos <= s.len(),
    ensures
        spec_statement(s, pos) matches Ok(p) ==> pos < p.1 <= s.len(),
{
    lemma_skip_bounds(s, pos);
    let p0 = spec_skip(s, pos);
    lemma_subject_bounds(s, p0);
    if let Ok(sp) = spec_subject(s, p0) {
        lemma_skip_bounds(s, sp.1);
        let p2 = spec_skip(s, sp.1);
        lemma_predicate_bounds(s, p2);
        if let Ok(pp) = spec_predicate(s, p2) {
            lemma_skip_bounds(s, pp.1);
            let p4 = spec_skip(s, pp.1);
            lemma_object_bounds(s, p4);
            if let Ok(op) = spec_object(s, p4) {
                lemma_skip_bounds(s, op.1);
            }
        }
    }
}

/// Parse an identifier reference at `pos`.
pub fn iriref(input: &[u8], pos: usize) -> (r: Result<(Vec<u8>, usize), ParseError>)
    requires
        pos <= input@.len(),
    ensures
        parse_result_matches(r, spec_iriref(input@, pos as int)),
{
    if pos == input.len() {
        return Err(ParseError { kind: ErrorKind::UnexpectedEndOfInput, offset: input.len() });
    }
    if input[pos] != OPEN_DELIM {
        return Err(ParseError { kind: ErrorKind::UnrecognizedTerm, offset: pos });
    }
    let j = find_byte(input, pos + 1, CLOSE_DELIM);
    if j == input.len() {
        return Err(ParseError { kind: ErrorKind::UnterminatedIdentifier, offset: pos });
    }
    let body = copy_range(input, pos + 1, j);
    Ok((body, j + 1))
}

/// Parse a blank-node name at `pos`; yields the name without its marker.
pub fn named_node(input: &[u8], pos: usize) -> (r: Result<(Vec<u8>, usize), ParseError>)
    requires
        pos <= input@.len(),
    ensures
        parse_result_matches(r, spec_named_node(input@, pos as int)),
{
    if pos == input.len() {
        return Err(ParseError { kind: ErrorKind::UnexpectedEndOfInput, offset: input.len() });
    }
    if input[pos] != UNDERSCORE {
        return Err(ParseError { kind: ErrorKind::UnrecognizedTerm, offset: pos });
    }
    if pos + 1 == input.len() {
        return Err(ParseError { kind: ErrorKind::UnexpectedEndOfInput, offset: input.len() });
    }
    if input[pos + 1] != COLON_MARK {
        return Err(ParseError { kind: ErrorKind::UnrecognizedTerm, offset: pos });
    }
    let e = alnum_run_end(input, pos + 2);
    if e == pos + 2 {
        return Err(ParseError { kind: ErrorKind::InvalidBlankNode, offset: pos });
    }
    let body = copy_range(input, pos + 2, e);
    Ok((body, e))
}

/// Parse a subject at `pos`.
pub fn subject(input: &[u8], pos: usize) -> (r: Result<(Subject, usize), ParseError>)
    requires
        pos <= input@.len(),
    ensures
        parse_result_matches(r, spec_subject(input@, pos as int)),
{
    if pos == input.len() {
        return Err(ParseError { kind: ErrorKind::UnexpectedEndOfInput, offset: input.len() });
    }
    if input[pos] == OPEN_DELIM {
        match iriref(input, pos) {
            Ok(p) => Ok((Subject::AbsoluteUri(p.0), p.1)),
            Err(e) => Err(e),
        }
    } else if input[pos] == UNDERSCORE {
        match named_node(input, pos) {
            Ok(p) => Ok((Subject::NamedNode(p.0), p.1)),
            Err(e) => Err(e),
        }
    } else {
        Err(ParseError { kind: ErrorKind::UnrecognizedTerm, offset: pos })
    }
}

/// Parse a predicate at `pos`.
pub fn predicate(input: &[u8], pos: usize) -> (r: Result<(Predicate, usize), ParseError>)
    requires
        pos <= input@.len(),
    ensures
        parse_result_matches(r, spec_predicate(input@, pos as int)),
{
    if pos == input.len() {
        return Err(ParseError { kind: ErrorKind::UnexpectedEndOfInput, offset: input.len() });
    }
    if input[pos] == OPEN_DELIM {
        match iriref(input, pos) {
            Ok(p) => Ok((Predicate::AbsoluteUri(p.0), p.1)),
            Err(e) => Err(e),
        }
    } else {
        Err(ParseError { kind: ErrorKind::UnrecognizedTerm, offset: pos })
    }
}

/// Parse a quoted literal value at `pos`; yields the bytes between the
/// quotes.
pub fn literal_value(input: &[u8], pos: usize) -> (r: Result<(Vec<u8>, usize), ParseError>)
    requires
        pos <= input@.len(),
    ensures
        parse_result_matches(r, spec_literal_value(input@, pos as int)),
{
    if pos == input.len() {
        return Err(ParseError { kind: ErrorKind::UnexpectedEndOfInput, offset: input.len() });
    }
    if input[pos] != QUOTE_MARK {
        return Err(ParseError { kind: ErrorKind::UnrecognizedTerm, offset: pos });
    }
    let j = find_byte(input, pos + 1, QUOTE_MARK);
    if j == input.len() {
        return Err(ParseError { kind: ErrorKind::UnterminatedLiteral, offset: pos });
    }
    let body = copy_range(input, pos + 1, j);
    Ok((body, j + 1))
}

/// Parse a literal at `pos`: a quoted value with at most one suffix.
pub fn literal(input: &[u8], pos: usize) -> (r: Result<(Object, usize), ParseError>)
    requires
        pos <= input@.len(),
    ensures
        parse_result_matches(r, spec_literal(input@, pos as int)),
{
    proof {
        lemma_literal_value_bounds(input@, pos as int);
    }
    let (value, k) = match literal_value(input, pos) {
        Ok(p) => p,
        Err(e) => {
            return Err(e);
        },
    };
    if k < input.len() && input[k] == LANGUAGE_MARK {
        let e = alnum_run_end(input, k + 1);
        if e > k + 1 {
            if input.len() - e >= 2 && input[e] == CARET_MARK && input[e + 1] == CARET_MARK {
                return Err(ParseError { kind: ErrorKind::ConflictingLiteralSuffix, offset: e });
            }
            let language = copy_range(input, k + 1, e);
            return Ok(
                (Object::Literal { value, datatype: Vec::new(), language }, e),
            );
        }
    }
    if input.len() - k >= 2 && input[k] == CARET_MARK && input[k + 1] == CARET_MARK {
        proof {
            lemma_iriref_bounds(input@, k as int + 2);
        }
        match iriref(input, k + 2) {
            Err(e) => {
                return Err(e);
            },
            Ok(dp) => {
                if dp.1 < input.len() && input[dp.1] == LANGUAGE_MARK {
                    return Err(
                        ParseError { kind: ErrorKind::ConflictingLiteralSuffix, offset: dp.1 },
                    );
                }
                return Ok(
                    (Object::Literal { value, datatype: dp.0, language: Vec::new() }, dp.1),
                );
            },
        }
    }
    Ok((Object::Literal { value, datatype: Vec::new(), language: Vec::new() }, k))
}

/// Parse an object at `pos`.
pub fn object(input: &[u8], pos: usize) -> (r: Result<(Object, usize), ParseError>)
    requires
        pos <= input@.len(),
    ensures
        parse_result_matches(r, spec_object(input@, pos as int)),
{
    if pos == input.len() {
        return Err(ParseError { kind: ErrorKind::UnexpectedEndOfInput, offset: input.len() });
    }
    if input[pos] == OPEN_DELIM {
        match iriref(input, pos) {
            Ok(p) => Ok((Object::AbsoluteUri(p.0), p.1)),
            Err(e) => Err(e),
        }
    } else if input[pos] == UNDERSCORE {
        match named_node(input, pos) {
            Ok(p) => Ok((Object::NamedNode(p.0), p.1)),
            Err(e) => Err(e),
        }
    } else if input[pos] == QUOTE_MARK {
        literal(input, pos)
    } else {
        Err(ParseError { kind: ErrorKind::UnrecognizedTerm, offset: pos })
    }
}

/// Parse one statement at `pos`: optional separator run, subject, mandatory
/// separator run, predicate, mandatory separator run, object, optional
/// separator run, terminator character. On success the result holds the
/// statement and the position just past the terminator.
pub fn parse_statement(input: &[u8], pos: usize) -> (r: Result<(Statement, usize), ParseError>)
    requires
        pos <= input@.len(),
    ensures
        parse_result_matches(r, spec_statement(input@, pos as int)),
{
    let p0 = skip_separators(input, pos);
    proof {
        lemma_subject_bounds(input@, p0 as int);
    }
    let (subject_term, p1) = match subject(input, p0) {
        Ok(p) => p,
        Err(e) => {
            return Err(e);
        },
    };
    let p2 = skip_separators(input, p1);
    if p2 == p1 {
        return Err(
            if p1 == input.len() {
                ParseError { kind: ErrorKind::UnexpectedEndOfInput, offset: input.len() }
            } else {
                ParseError { kind: ErrorKind::UnrecognizedTerm, offset: p1 }
            },
        );
    }
    proof {
        lemma_predicate_bounds(input@, p2 as int);
    }
    let (predicate_term, p3) = match predicate(input, p2) {
        Ok(p) => p,
        Err(e) => {
            return Err(e);
        },
    };
    let p4 = skip_separators(input, p3);
    if p4 == p3 {
        return Err(
            if p3 == input.len() {
                ParseError { kind: ErrorKind::UnexpectedEndOfInput, offset: input.len() }
            } else {
                ParseError { kind: ErrorKind::UnrecognizedTerm, offset: p3 }
            },
        );
    }
    proof {
        lemma_object_bounds(input@, p4 as int);
    }
    let (object_term, p5) = match object(input, p4) {
        Ok(p) => p,
        Err(e) => {
            return Err(e);
        },
    };
    let p6 = skip_separators(input, p5);
    if p6 < input.len() && input[p6] == STATEMENT_END {
        Ok(
            (
                Statement {
                    subject: subject_term,
                    predicate: predicate_term,
                    object: object_term,
                },
                p6 + 1,
            ),
        )
    } else {
        Err(ParseError { kind: ErrorKind::MissingTerminator, offset: p6 })
    }
}

/// The views of the statements collected so far.
pub open spec fn views_of(v: Seq<Statement>) -> Seq<StatementV> {
    v.map_values(|st: Statement| st@)
}

/// Parse the whole input: statements separated by separator runs, until the
/// input is exhausted. Succeeds with all statements in order, or stops at
/// the first failure; no resynchronization is attempted.
pub fn parse_document(input: &[u8]) -> (r: Result<Vec<Statement>, ParseError>)
    ensures
        (match r {
            Ok(v) => spec_document(input@, 0) == Ok::<Seq<StatementV>, ParseError>(views_of(v@)),
            Err(e) => spec_document(input@, 0) == Err::<Seq<StatementV>, ParseError>(e),
        }),
{
    let mut out: Vec<Statement> = Vec::new();
    let mut pos: usize = 0;
    proof {
        assert(views_of(out@) =~= Seq::<StatementV>::empty());
    }
    loop
        invariant
            pos <= input@.len(),
            (match spec_document(input@, pos as int) {
                Ok(rest) => spec_document(input@, 0) == Ok::<Seq<StatementV>, ParseError>(
                    views_of(out@) + rest,
                ),
                Err(e) => spec_document(input@, 0) == Err::<Seq<StatementV>, ParseError>(e),
            }),
        decreases input@.len() - pos,
    {
        let p = skip_separators(input, pos);
        if p == input.len() {
            proof {
                assert(spec_document(input@, pos as int) == Ok::<Seq<StatementV>, ParseError>(
                    Seq::empty(),
                ));
                assert(views_of(out@) + Seq::<StatementV>::empty() =~= views_of(out@));
            }
            return Ok(out);
        }
        proof {
            lemma_statement_bounds(input@, pos as int);
        }
        match parse_statement(input, pos) {
            Err(e) => {
                return Err(e);
            },
            Ok((st, q)) => {
                proof {
                    let ghost old_views = views_of(out@);
                    assert(spec_document(input@, pos as int) == (match spec_document(
                        input@,
                        q as int,
                    ) {
                        Err(e) => Err::<Seq<StatementV>, ParseError>(e),
                        Ok(rest) => Ok::<Seq<StatementV>, ParseError>(seq![st@] + rest),
                    }));
                }
                let ghost prev = out@;
                out.push(st);
                proof {
                    assert(views_of(out@) =~= views_of(prev) + seq![st@]);
                    if let Ok(rest) = spec_document(input@, q as int) {
                        assert((views_of(prev) + seq![st@]) + rest =~= views_of(prev) + (seq![st@]
                            + rest));
                    }
                }
                pos = q;
            },
        }
    }
}

} // verus!
