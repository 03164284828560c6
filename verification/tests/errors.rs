use ntriples::literal_value;
use ntriples::named_node;
use ntriples::object;
use ntriples::parse_document;
use ntriples::parse_statement;
use ntriples::ErrorKind;
use ntriples::ParseError;

#[test]
fn unterminated_identifier() {
    let input: &[u8] = b"<http://a";
    assert_eq!(
        parse_statement(input, 0),
        Err(ParseError {
            kind: ErrorKind::UnterminatedIdentifier,
            offset: 0
        })
    );
}

#[test]
fn identifier_body_runs_to_the_next_closing_delimiter() {
    // The identifier body accepts any byte but the closing delimiter, so the
    // first reference here swallows the second opening delimiter and closes
    // at the first closing one; the parse then stops where a predicate was
    // expected.
    let input: &[u8] = b"<http://a <http://b> \"c\" .";
    assert_eq!(
        parse_statement(input, 0),
        Err(ParseError {
            kind: ErrorKind::UnrecognizedTerm,
            offset: 21
        })
    );
}

#[test]
fn invalid_blank_node() {
    assert_eq!(
        named_node(b"_:", 0),
        Err(ParseError {
            kind: ErrorKind::InvalidBlankNode,
            offset: 0
        })
    );
    assert_eq!(
        named_node(b"_:!x", 0),
        Err(ParseError {
            kind: ErrorKind::InvalidBlankNode,
            offset: 0
        })
    );
}

#[test]
fn unterminated_literal() {
    assert_eq!(
        literal_value(b"\"abc", 0),
        Err(ParseError {
            kind: ErrorKind::UnterminatedLiteral,
            offset: 0
        })
    );
}

#[test]
fn conflicting_literal_suffixes() {
    // A language tag followed by the datatype marker.
    assert_eq!(
        object(b"\"v\"@en^^<d>", 0),
        Err(ParseError {
            kind: ErrorKind::ConflictingLiteralSuffix,
            offset: 6
        })
    );
    // A datatype followed by the language-tag marker.
    assert_eq!(
        object(b"\"v\"^^<d>@en", 0),
        Err(ParseError {
            kind: ErrorKind::ConflictingLiteralSuffix,
            offset: 8
        })
    );
}

#[test]
fn missing_terminator() {
    let input: &[u8] = b"<a> <b> <c>";
    assert_eq!(
        parse_statement(input, 0),
        Err(ParseError {
            kind: ErrorKind::MissingTerminator,
            offset: input.len()
        })
    );
    let input: &[u8] = b"<a> <b> <c> ;";
    assert_eq!(
        parse_statement(input, 0),
        Err(ParseError {
            kind: ErrorKind::MissingTerminator,
            offset: 12
        })
    );
}

#[test]
fn unexpected_end_of_input() {
    assert_eq!(
        parse_statement(b"", 0),
        Err(ParseError {
            kind: ErrorKind::UnexpectedEndOfInput,
            offset: 0
        })
    );
    let input: &[u8] = b"<a> ";
    assert_eq!(
        parse_statement(input, 0),
        Err(ParseError {
            kind: ErrorKind::UnexpectedEndOfInput,
            offset: input.len()
        })
    );
}

#[test]
fn unrecognized_term() {
    assert_eq!(
        parse_statement(b"xyz .", 0),
        Err(ParseError {
            kind: ErrorKind::UnrecognizedTerm,
            offset: 0
        })
    );
    // A predicate may not be a blank node.
    assert_eq!(
        parse_statement(b"<a> _:p <c> .", 0),
        Err(ParseError {
            kind: ErrorKind::UnrecognizedTerm,
            offset: 4
        })
    );
}

#[test]
fn separator_runs_between_terms_are_mandatory() {
    assert_eq!(
        parse_statement(b"<a><b> <c> .", 0),
        Err(ParseError {
            kind: ErrorKind::UnrecognizedTerm,
            offset: 3
        })
    );
}

#[test]
fn bare_carriage_return_does_not_terminate_a_comment() {
    // The comment fails at its marker, so the separator run ends there and
    // the statement parse stops on the marker.
    let input: &[u8] = b"#x\rxyz";
    assert_eq!(
        parse_statement(input, 0),
        Err(ParseError {
            kind: ErrorKind::UnrecognizedTerm,
            offset: 0
        })
    );
}

#[test]
fn document_stops_at_the_first_failure() {
    let input: &[u8] = b"<http://a> <http://b> \"c\" .\nxyz .";
    assert_eq!(
        parse_document(input),
        Err(ParseError {
            kind: ErrorKind::UnrecognizedTerm,
            offset: 28
        })
    );
}
