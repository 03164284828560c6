use ntriples::comment;
use ntriples::iriref;
use ntriples::named_node;
use ntriples::object;
use ntriples::parse_document;
use ntriples::parse_statement;
use ntriples::subject;
use ntriples::Object;
use ntriples::Predicate;
use ntriples::Statement;
use ntriples::Subject;

fn literal_statement() -> Statement {
    Statement {
        subject: Subject::AbsoluteUri(b"http://a".to_vec()),
        predicate: Predicate::AbsoluteUri(b"http://b".to_vec()),
        object: Object::Literal {
            value: b"c".to_vec(),
            datatype: vec![],
            language: vec![],
        },
    }
}

#[test]
fn end_to_end_literal() {
    let input: &[u8] = b"<http://a> <http://b> \"c\" .";
    assert_eq!(
        parse_statement(input, 0),
        Ok((literal_statement(), input.len()))
    );
}

#[test]
fn end_to_end_blank_nodes() {
    let input: &[u8] = b"_:s <http://b> _:o .";
    assert_eq!(
        parse_statement(input, 0),
        Ok((
            Statement {
                subject: Subject::NamedNode(b"s".to_vec()),
                predicate: Predicate::AbsoluteUri(b"http://b".to_vec()),
                object: Object::NamedNode(b"o".to_vec()),
            },
            input.len()
        ))
    );
}

#[test]
fn end_to_end_datatype() {
    let input: &[u8] = b"<http://a> <http://b> \"1\"^^<http://www.w3.org/2001/XMLSchema#integer> .";
    assert_eq!(
        parse_statement(input, 0),
        Ok((
            Statement {
                subject: Subject::AbsoluteUri(b"http://a".to_vec()),
                predicate: Predicate::AbsoluteUri(b"http://b".to_vec()),
                object: Object::Literal {
                    value: b"1".to_vec(),
                    datatype: b"http://www.w3.org/2001/XMLSchema#integer".to_vec(),
                    language: vec![],
                },
            },
            input.len()
        ))
    );
}

#[test]
fn whitespace_does_not_change_the_value() {
    let plain: &[u8] = b"<http://a> <http://b> \"c\" .";
    let spaced: &[u8] = b"  <http://a>\t\t<http://b>\n  \"c\"\n.";
    let commented: &[u8] = b"<http://a> #one\n <http://b> #two\n \"c\" .";
    let v1 = parse_statement(plain, 0).unwrap().0;
    let v2 = parse_statement(spaced, 0).unwrap().0;
    let v3 = parse_statement(commented, 0).unwrap().0;
    assert_eq!(v1, literal_statement());
    assert_eq!(v2, literal_statement());
    assert_eq!(v3, literal_statement());
}

#[test]
fn leading_comment_is_transparent() {
    let bare: &[u8] = b"<http://a> <http://b> \"c\" .";
    let with_comment: &[u8] = b"#a comment line\n<http://a> <http://b> \"c\" .";
    let bare_value = parse_statement(bare, 0).unwrap().0;
    let commented_value = parse_statement(with_comment, 0).unwrap().0;
    assert_eq!(bare_value, commented_value);
}

#[test]
fn parsing_twice_gives_equal_values() {
    let input: &[u8] = b"_:s <http://b> \"v\"@en .";
    let first = parse_statement(input, 0);
    let second = parse_statement(input, 0);
    assert_eq!(first, second);
    assert!(first.is_ok());
}

#[test]
fn iriref_consumes_exactly_its_span() {
    let input: &[u8] = b"<u> rest";
    assert_eq!(iriref(input, 0), Ok((b"u".to_vec(), 3)));
    let input: &[u8] = b"<>";
    assert_eq!(iriref(input, 0), Ok((vec![], 2)));
}

#[test]
fn blank_node_name_is_maximal_alphanumeric_run() {
    let input: &[u8] = b"_:n rest";
    assert_eq!(named_node(input, 0), Ok((b"n".to_vec(), 3)));
    let input: &[u8] = b"_:a1b2<";
    assert_eq!(named_node(input, 0), Ok((b"a1b2".to_vec(), 6)));
}

#[test]
fn literal_round_trip_forms() {
    let input: &[u8] = b"\"v\"";
    assert_eq!(
        object(input, 0),
        Ok((
            Object::Literal {
                value: b"v".to_vec(),
                datatype: vec![],
                language: vec![]
            },
            3
        ))
    );
    let input: &[u8] = b"\"v\"@en";
    assert_eq!(
        object(input, 0),
        Ok((
            Object::Literal {
                value: b"v".to_vec(),
                datatype: vec![],
                language: b"en".to_vec()
            },
            6
        ))
    );
    let input: &[u8] = b"\"v\"^^<d>";
    assert_eq!(
        object(input, 0),
        Ok((
            Object::Literal {
                value: b"v".to_vec(),
                datatype: b"d".to_vec(),
                language: vec![]
            },
            8
        ))
    );
}

#[test]
fn empty_quoted_value() {
    let input: &[u8] = b"<http://a> <http://b> \"\" .";
    let got = parse_statement(input, 0).unwrap().0;
    assert_eq!(
        got.object,
        Object::Literal {
            value: vec![],
            datatype: vec![],
            language: vec![]
        }
    );
}

#[test]
fn document_of_several_statements() {
    let input: &[u8] = b"#intro\n<http://a> <http://b> \"c\" .\n_:s <http://b> _:o .\n";
    let got = parse_document(input).unwrap();
    assert_eq!(got.len(), 2);
    assert_eq!(got[0], literal_statement());
    assert_eq!(
        got[1],
        Statement {
            subject: Subject::NamedNode(b"s".to_vec()),
            predicate: Predicate::AbsoluteUri(b"http://b".to_vec()),
            object: Object::NamedNode(b"o".to_vec()),
        }
    );
}

#[test]
fn empty_document_is_no_statements() {
    assert_eq!(parse_document(b""), Ok(vec![]));
    assert_eq!(parse_document(b"  \n\t #only a comment\n"), Ok(vec![]));
}

#[test]
fn comment_forms() {
    let input: &[u8] = b"#c\r\nx";
    assert_eq!(comment(input, 0), Some(4));
    // Unicode line separator terminates a comment; its encoding is 3 bytes.
    let input: &[u8] = "#c\u{2028}x".as_bytes();
    assert_eq!(comment(input, 0), Some(5));
    // Paragraph separator likewise.
    let input: &[u8] = "#c\u{2029}".as_bytes();
    assert_eq!(comment(input, 0), Some(input.len()));
    // A bare carriage return is not a recognized comment terminator.
    let input: &[u8] = b"#c\rx";
    assert_eq!(comment(input, 0), None);
    // Not a comment at all.
    assert_eq!(comment(b"x#", 0), None);
}

#[test]
fn subject_leading_characters_are_disjoint() {
    let input: &[u8] = b"<x>";
    assert_eq!(subject(input, 0), Ok((Subject::AbsoluteUri(b"x".to_vec()), 3)));
    let input: &[u8] = b"_:x";
    assert_eq!(subject(input, 0), Ok((Subject::NamedNode(b"x".to_vec()), 3)));
}
