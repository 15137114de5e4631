use metal_programming_language::identifier::{parse_identifier, Component, Error, Identifier};
use metal_programming_language::node::ErrorKind;
use metal_programming_language::number::{self, Number};
use metal_programming_language::traverser::Traverser;

#[test]
fn identifier_basic() {
    let mut tokens = Traverser::from("hello_world");
    let result = parse_identifier(&mut tokens).unwrap();
    assert_eq!(result.start_token(), 0);
    assert_eq!(result.end_token(), 1);
    assert_eq!(
        *result.data(),
        vec![Component::Identifier(Identifier("hello_world"))]
    );
}

#[test]
fn composite_components() {
    let mut tokens = Traverser::from("cats-15");
    let result = parse_identifier(&mut tokens).unwrap();
    assert_eq!(result.start_token(), 0);
    assert_eq!(result.end_token(), 4);
    let components = result.data();
    assert_eq!(components.len(), 2);
    assert_eq!(components[0], Component::Identifier(Identifier("cats")));
    match &components[1] {
        Component::Number(node) => {
            assert_eq!(node.start_token(), 1);
            assert_eq!(node.end_token(), 4);
            assert_eq!(*node.data(), Number::Signed(-15));
        },
        other => panic!("expected a number component, got {:?}", other),
    }
}

#[test]
fn escaped_digits() {
    // The escape marker lets an identifier start with digits.
    let mut tokens = Traverser::from("_15");
    let result = parse_identifier(&mut tokens).unwrap();
    assert_eq!(result.start_token(), 0);
    assert_eq!(result.end_token(), 3);
    let components = result.data();
    assert_eq!(components.len(), 1);
    match &components[0] {
        Component::Number(node) => assert_eq!(*node.data(), Number::UnSigned(15)),
        other => panic!("expected a number component, got {:?}", other),
    }
}

#[test]
fn invalid() {
    let mut tokens = Traverser::from("");
    let error = parse_identifier(&mut tokens).unwrap_err();
    assert_eq!(error.kind, ErrorKind::Other(Error::Expected));
    assert_eq!(error.start_token, 0);
}

#[test]
fn ambiguous_boundary_rejected() {
    // An escaped numeric run abutting identifier characters is rejected as
    // an ambiguous numeric/identifier boundary, not accepted as a shorter
    // number.
    let mut tokens = Traverser::from("_15cats");
    let error = parse_identifier(&mut tokens).unwrap_err();
    match error.kind {
        ErrorKind::Other(Error::Number(inner)) => {
            assert_eq!(
                inner.kind,
                ErrorKind::Other(number::Error::FoundIdentifier)
            );
            assert_eq!(inner.start_token, 3);
        },
        other => panic!("expected a number failure, got {:?}", other),
    }
    assert_eq!(error.start_token, 1);
    assert_eq!(tokens.token_offset(), 0);
    assert_eq!(tokens.byte_offset(), 0);
}
