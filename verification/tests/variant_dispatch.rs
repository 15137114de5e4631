use metal_programming_language::node::NodeKind;
use metal_programming_language::number::Number;
use metal_programming_language::traverser::Traverser;
use metal_programming_language::variant::{NodeVariant, VariantError};

#[test]
fn ordered_choice_picks_first_match() {
    let mut tokens = Traverser::from(" x");
    let node = NodeVariant::parse(&mut tokens).unwrap();
    assert_eq!(node.kind(), NodeKind::WhiteSpace);

    let mut tokens = Traverser::from("\"s\"");
    let node = NodeVariant::parse(&mut tokens).unwrap();
    assert_eq!(node.kind(), NodeKind::String);

    let mut tokens = Traverser::from("42 ");
    let node = NodeVariant::parse(&mut tokens).unwrap();
    assert_eq!(node.kind(), NodeKind::Number);
    match node {
        NodeVariant::Number(n) => assert_eq!(*n.data(), Number::UnSigned(42)),
        other => panic!("expected a number node, got {:?}", other),
    }

    let mut tokens = Traverser::from("hello");
    let node = NodeVariant::parse(&mut tokens).unwrap();
    assert_eq!(node.kind(), NodeKind::Identifier);
}

#[test]
fn failure_surfaces_furthest_error() {
    // All productions fail on "12,," and the number error, raised past the
    // decimal separator, reaches the furthest token offset.
    let mut tokens = Traverser::from("12,,");
    let error = NodeVariant::parse(&mut tokens).unwrap_err();
    assert_eq!(error.position(), 3);
    assert!(matches!(error, VariantError::Number(_)));
    assert_eq!(tokens.token_offset(), 0);
    assert_eq!(tokens.byte_offset(), 0);
}

#[test]
fn failure_on_unparsable_token() {
    let mut tokens = Traverser::from("]");
    let error = NodeVariant::parse(&mut tokens).unwrap_err();
    assert_eq!(error.position(), 0);
    assert_eq!(tokens.token_offset(), 0);
}
