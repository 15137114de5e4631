use metal_programming_language::node::{ErrorKind, Parsable};
use metal_programming_language::string::{Error, Node};
use metal_programming_language::token::Kind;
use metal_programming_language::traverser::Traverser;

#[test]
fn string_basic() {
    let mut tokens = Traverser::from("\"hello world\"");
    let result = <Node as Parsable>::parse(&mut tokens).unwrap();
    assert_eq!(result.start_token(), 0);
    assert_eq!(result.end_token(), 5);
    assert_eq!(result.data().as_str(), "hello world");
}

#[test]
fn escaping() {
    let mut tokens = Traverser::from("\"Quoted text: \\\"Text\\\"\"");
    let result = <Node as Parsable>::parse(&mut tokens).unwrap();
    assert_eq!(result.start_token(), 0);
    assert_eq!(result.end_token(), 12);
    assert_eq!(result.data().as_str(), "Quoted text: \"Text\"");
}

#[test]
fn escaped_backslash() {
    let mut tokens = Traverser::from("\"a\\\\b\"");
    let result = <Node as Parsable>::parse(&mut tokens).unwrap();
    assert_eq!(result.data().as_str(), "a\\b");
}

#[test]
fn missing_opening_quote() {
    let mut tokens = Traverser::from("hello\"");
    let error = <Node as Parsable>::parse(&mut tokens).unwrap_err();
    assert_eq!(error.kind, ErrorKind::Other(Error::ExpectedOpeningQuote));
    assert_eq!(error.start_token, 0);
    assert_eq!(tokens.token_offset(), 0);
}

#[test]
fn unterminated_string() {
    // Running out of input before the closing quote is an error, not a
    // silent truncation.
    let mut tokens = Traverser::from("\"hello world");
    let error = <Node as Parsable>::parse(&mut tokens).unwrap_err();
    assert_eq!(error.kind, ErrorKind::Other(Error::ExpectedClosingQuote));
    assert_eq!(error.start_token, 4);
    assert_eq!(tokens.token_offset(), 0);
    assert_eq!(tokens.byte_offset(), 0);
}

#[test]
fn cannot_escape_ordinary_token() {
    let mut tokens = Traverser::from("\"a\\b\"");
    let error = <Node as Parsable>::parse(&mut tokens).unwrap_err();
    match error.kind {
        ErrorKind::Other(Error::CannotEscape { symbol }) => {
            assert_eq!(symbol.kind(), &Kind::Identifier("b"));
        },
        other => panic!("expected an escape failure, got {:?}", other),
    }
    assert_eq!(tokens.token_offset(), 0);
}
