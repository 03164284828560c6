use ntriples::absolute_uri;
use ntriples::comment;
use ntriples::iriref;
use ntriples::literal_value;
use ntriples::name;
use ntriples::named_node;
use ntriples::object;
use ntriples::parse_statement;
use ntriples::predicate;
use ntriples::subject;
use ntriples::Object;
use ntriples::Predicate;
use ntriples::Statement;
use ntriples::Subject;

#[test]
fn it_works() {
    let input = b"http://test";
    assert_eq!(absolute_uri(input, 0), (b"http://test".to_vec(), input.len()));
    let input = b"<http://test>";
    assert_eq!(iriref(input, 0), Ok((b"http://test".to_vec(), input.len())));
    let input = b"#test wie das geht \n";
    assert_eq!(comment(input, 0), Some(input.len()));
    let input = b"Der92Name";
    assert_eq!(name(input, 0), Some((b"Der92Name".to_vec(), input.len())));
    let input = b"_:name4Node";
    assert_eq!(named_node(input, 0), Ok((b"name4Node".to_vec(), input.len())));
}

#[test]
fn test_subject() {
    let input = b"_:name4Node";
    assert_eq!(
        subject(input, 0),
        Ok((Subject::NamedNode(b"name4Node".to_vec()), input.len()))
    );
    let input = b"<http://tv-laufach.de/Mitglieder>";
    assert_eq!(
        subject(input, 0),
        Ok((
            Subject::AbsoluteUri(b"http://tv-laufach.de/Mitglieder".to_vec()),
            input.len()
        ))
    );
}

#[test]
fn test_predicate() {
    let input = b"<http://tv-laufach.de/Mitglieder>";
    assert_eq!(
        predicate(input, 0),
        Ok((
            Predicate::AbsoluteUri(b"http://tv-laufach.de/Mitglieder".to_vec()),
            input.len()
        ))
    );
}

#[test]
fn test_literal_value() {
    let input = b"\"Hallo Welt\"";
    assert_eq!(
        literal_value(input, 0),
        Ok((b"Hallo Welt".to_vec(), input.len()))
    );
}

#[test]
fn test_object() {
    let input = b"_:Named";
    assert_eq!(
        object(input, 0),
        Ok((Object::NamedNode(b"Named".to_vec()), input.len()))
    );
    let input = b"<http://tv-laufach.de/Mitglieder>";
    assert_eq!(
        object(input, 0),
        Ok((
            Object::AbsoluteUri(b"http://tv-laufach.de/Mitglieder".to_vec()),
            input.len()
        ))
    );
    let input = b"\"Hallo Welt\"";
    assert_eq!(
        object(input, 0),
        Ok((
            Object::Literal {
                value: b"Hallo Welt".to_vec(),
                datatype: vec![],
                language: vec![]
            },
            input.len()
        ))
    );
    let input = b"\"That Seventies Show\"@en";
    assert_eq!(
        object(input, 0),
        Ok((
            Object::Literal {
                value: b"That Seventies Show".to_vec(),
                datatype: vec![],
                language: b"en".to_vec()
            },
            input.len()
        ))
    );
    let input = b"\"That Seventies Show\"^^<http://www.w3.org/2001/XMLSchema#string>";
    assert_eq!(
        object(input, 0),
        Ok((
            Object::Literal {
                value: b"That Seventies Show".to_vec(),
                datatype: b"http://www.w3.org/2001/XMLSchema#string".to_vec(),
                language: vec![]
            },
            input.len()
        ))
    );
}

#[test]
fn test_triple() {
    let input: &[u8] =
        b"<http://www.w3.org/2001/sw/RDFCore/ntriples/> <http://purl.org/dc/elements/1.1/creator> \"Dave Beckett\" .";
    assert_eq!(
        parse_statement(input, 0),
        Ok((
            Statement {
                subject: Subject::AbsoluteUri(b"http://www.w3.org/2001/sw/RDFCore/ntriples/".to_vec()),
                predicate: Predicate::AbsoluteUri(b"http://purl.org/dc/elements/1.1/creator".to_vec()),
                object: Object::Literal {
                    value: b"Dave Beckett".to_vec(),
                    language: vec![],
                    datatype: vec![]
                },
            },
            input.len()
        ))
    );
    let input: &[u8] =
        b"<http://www.w3.org/2001/sw/RDFCore/ntriples/>    <http://purl.org/dc/elements/1.1/creator> \"Dave Beckett\" .";
    assert_eq!(
        parse_statement(input, 0),
        Ok((
            Statement {
                subject: Subject::AbsoluteUri(b"http://www.w3.org/2001/sw/RDFCore/ntriples/".to_vec()),
                predicate: Predicate::AbsoluteUri(b"http://purl.org/dc/elements/1.1/creator".to_vec()),
                object: Object::Literal {
                    value: b"Dave Beckett".to_vec(),
                    language: vec![],
                    datatype: vec![]
                },
            },
            input.len()
        ))
    );
    let input: &[u8] =
        b"#Das ist ein Kommentar\n <http://www.w3.org/2001/sw/RDFCore/ntriples/>    <http://purl.org/dc/elements/1.1/creator> \"Dave Beckett\" .";
    assert_eq!(
        parse_statement(input, 0),
        Ok((
            Statement {
                subject: Subject::AbsoluteUri(b"http://www.w3.org/2001/sw/RDFCore/ntriples/".to_vec()),
                predicate: Predicate::AbsoluteUri(b"http://purl.org/dc/elements/1.1/creator".to_vec()),
                object: Object::Literal {
                    value: b"Dave Beckett".to_vec(),
                    language: vec![],
                    datatype: vec![]
                },
            },
            input.len()
        ))
    );
    let input: &[u8] =
        b"#Das ist ein Kommentar\n <http://www.w3.org/2001/sw/RDFCore/ntriples/>    <http://purl.org/dc/elements/1.1/creator> \"That Seventies Show\"^^<http://www.w3.org/2001/XMLSchema#string> .";
    assert_eq!(
        parse_statement(input, 0),
        Ok((
            Statement {
                subject: Subject::AbsoluteUri(b"http://www.w3.org/2001/sw/RDFCore/ntriples/".to_vec()),
                predicate: Predicate::AbsoluteUri(b"http://purl.org/dc/elements/1.1/creator".to_vec()),
                object: Object::Literal {
                    value: b"That Seventies Show".to_vec(),
                    language: vec![],
                    datatype: b"http://www.w3.org/2001/XMLSchema#string".to_vec()
                },
            },
            input.len()
        ))
    );
    let input: &[u8] =
        b"#Das ist ein Kommentar\n <http://www.w3.org/2001/sw/RDFCore/ntriples/>    <http://purl.org/dc/elements/1.1/creator> \"That Seventies Show\"@en .";
    assert_eq!(
        parse_statement(input, 0),
        Ok((
            Statement {
                subject: Subject::AbsoluteUri(b"http://www.w3.org/2001/sw/RDFCore/ntriples/".to_vec()),
                predicate: Predicate::AbsoluteUri(b"http://purl.org/dc/elements/1.1/creator".to_vec()),
                object: Object::Literal {
                    value: b"That Seventies Show".to_vec(),
                    language: b"en".to_vec(),
                    datatype: vec![]
                },
            },
            input.len()
        ))
    );
}
