use metal_programming_language::node::{ErrorKind, Parsable};
use metal_programming_language::number::{self, Number};
use metal_programming_language::token::Kind;
use metal_programming_language::traverser::Traverser;

#[test]
fn expect_token() {
    let mut traverser = Traverser::from("\n\n\t");
    let result =
        traverser.expect_tokens::<()>(&[Kind::Space, Kind::Tab, Kind::NewLine]);
    let token = result.unwrap();
    assert_eq!(token.kind(), &Kind::NewLine);
    assert_eq!(traverser.token_offset(), 1);

    let mut traverser = Traverser::from("x");
    let result = traverser.expect_tokens::<()>(&[Kind::Space, Kind::Tab, Kind::NewLine]);
    let error = result.unwrap_err();
    assert_eq!(error.kind, ErrorKind::UnexpectedToken);
    assert_eq!(error.start_token, 0);
    assert_eq!(traverser.token_offset(), 0);
}

#[test]
fn parse_node() {
    let mut tokens = Traverser::from("10,100");
    let node = metal_programming_language::node::parse::<number::Node>(&mut tokens).unwrap();
    assert_eq!(node.start_token(), 0);
    assert_eq!(node.end_token(), 6);
    assert_eq!(
        *node.data(),
        Number::Float(metal_programming_language::number::FloatLiteral {
            negative: false,
            whole: 10,
            fraction: 100,
            fraction_digits: 3,
        })
    );
    assert_eq!(tokens.token_offset(), 6);
}

#[test]
fn fail_parse_node() {
    let mut tokens = Traverser::from("a10,100");
    let error = metal_programming_language::node::parse::<number::Node>(&mut tokens).unwrap_err();
    assert_eq!(
        error.kind,
        ErrorKind::Other(number::Error::ExpectedWholeNumberComponent)
    );
    assert_eq!(error.start_token, 0);
    assert_eq!(tokens.token_offset(), 0);
}

#[test]
fn offsets_track_consumption() {
    let mut traverser = Traverser::from("h\u{e9}llo, world");
    assert_eq!(traverser.source(), "h\u{e9}llo, world");
    assert_eq!(traverser.token_offset(), 0);
    assert_eq!(traverser.byte_offset(), 0);
    let first = traverser.next().unwrap();
    assert_eq!(first.kind(), &Kind::Identifier("h\u{e9}llo"));
    assert_eq!(traverser.token_offset(), 1);
    assert_eq!(traverser.byte_offset(), 6);
    let second = traverser.next().unwrap();
    assert_eq!(second.kind(), &Kind::Decimal);
    assert_eq!(traverser.byte_offset(), 7);
    assert_eq!(traverser.offset(), 2);
}

#[test]
fn snapshot_restores_offsets() {
    let mut traverser = Traverser::from("one two");
    let snapshot = traverser.as_restorable();
    let _ = traverser.next();
    let _ = traverser.next();
    assert_eq!(traverser.token_offset(), 2);
    assert_eq!(traverser.byte_offset(), 4);
    traverser.restore(snapshot);
    assert_eq!(traverser.token_offset(), 0);
    assert_eq!(traverser.byte_offset(), 0);
    assert_eq!(traverser.peek().unwrap().kind(), &Kind::Identifier("one"));
}

#[test]
fn failed_parse_leaves_offsets_untouched() {
    // Failure isolation: after an error both offsets observe their
    // pre-call values.
    let mut tokens = Traverser::from("abc -12x");
    let _ = tokens.next();
    let _ = tokens.next();
    let token_offset = tokens.token_offset();
    let byte_offset = tokens.byte_offset();
    let result = <number::Node as Parsable>::parse(&mut tokens);
    assert!(result.is_err());
    assert_eq!(tokens.token_offset(), token_offset);
    assert_eq!(tokens.byte_offset(), byte_offset);
}

#[test]
fn sequential_parses_do_not_overlap() {
    // Offset monotonicity: each successful parse starts where the previous
    // one ended.
    let mut tokens = Traverser::from(" 42 7");
    let first =
        <metal_programming_language::whitespace::Node as Parsable>::parse(&mut tokens).unwrap();
    let second = <number::Node as Parsable>::parse(&mut tokens).unwrap();
    assert!(first.end_token() >= first.start_token());
    assert!(second.end_token() >= second.start_token());
    assert_eq!(first.start_token(), 0);
    assert_eq!(first.end_token(), 1);
    assert_eq!(second.start_token(), 1);
    assert!(second.start_token() >= first.end_token());
}

#[test]
fn skip_token_consumes_only_matches() {
    let mut traverser = Traverser::from("-4");
    assert!(traverser.skip_token(&Kind::Decimal).is_none());
    assert_eq!(traverser.token_offset(), 0);
    let negate = traverser.skip_token(&Kind::Negate).unwrap();
    assert_eq!(negate.kind(), &Kind::Negate);
    assert_eq!(traverser.token_offset(), 1);
}

#[test]
fn expect_token_at_end_of_input() {
    let mut traverser = Traverser::from("");
    let error = traverser
        .expect_token::<()>(&Kind::StringQuote)
        .unwrap_err();
    assert_eq!(error.kind, ErrorKind::ReachedEndForToken);
    assert_eq!(error.start_token, 0);

    let mut traverser = Traverser::from("x");
    let _ = traverser.next();
    let error = traverser
        .expect_tokens::<()>(&[Kind::Space, Kind::Tab])
        .unwrap_err();
    assert_eq!(error.kind, ErrorKind::ReachedEndForToken);
    assert_eq!(error.start_token, 1);
}
