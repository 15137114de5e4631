use metal_programming_language::node::{ErrorKind, Parsable};
use metal_programming_language::traverser::Traverser;
use metal_programming_language::whitespace::{Node, WhiteSpace};

#[test]
fn basic() {
    let mut tokens = Traverser::from(" \n\t\n ");
    let result = <Node as Parsable>::parse(&mut tokens).unwrap();
    assert_eq!(result.start_token(), 0);
    assert_eq!(result.end_token(), 5);
    assert_eq!(
        *result.data(),
        vec![
            WhiteSpace::Space,
            WhiteSpace::NewLine,
            WhiteSpace::Tab,
            WhiteSpace::NewLine,
            WhiteSpace::Space,
        ]
    );
}

#[test]
fn interruption() {
    let mut tokens = Traverser::from(" \n\thello\n ");
    let result = <Node as Parsable>::parse(&mut tokens).unwrap();
    assert_eq!(result.start_token(), 0);
    assert_eq!(result.end_token(), 3);
    assert_eq!(
        *result.data(),
        vec![WhiteSpace::Space, WhiteSpace::NewLine, WhiteSpace::Tab]
    );
}

#[test]
fn requires_leading_whitespace() {
    let mut tokens = Traverser::from("hello \n");
    let error = <Node as Parsable>::parse(&mut tokens).unwrap_err();
    assert_eq!(error.kind, ErrorKind::Other(()));
    assert_eq!(error.start_token, 0);
    assert_eq!(tokens.token_offset(), 0);
}
