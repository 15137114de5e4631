use metal_programming_language::identifier::{Component, Identifier};
use metal_programming_language::node::Parsable;
use metal_programming_language::traverser::Traverser;
use metal_programming_language::types::{MainType, Modifier, Node, Numeric, NumericKind, Scale};

#[test]
fn primitive_keywords() {
    let mut tokens = Traverser::from("integer4");
    let result = <Node as Parsable>::parse(&mut tokens).unwrap();
    assert_eq!(
        result.data().main,
        MainType::Numeric(Numeric { kind: NumericKind::Integer, scale: Scale::X32 })
    );
    assert!(result.data().modifiers.is_empty());

    let mut tokens = Traverser::from("unsigned1");
    let result = <Node as Parsable>::parse(&mut tokens).unwrap();
    assert_eq!(
        result.data().main,
        MainType::Numeric(Numeric { kind: NumericKind::Unsigned, scale: Scale::X8 })
    );

    let mut tokens = Traverser::from("float8");
    let result = <Node as Parsable>::parse(&mut tokens).unwrap();
    assert_eq!(
        result.data().main,
        MainType::Numeric(Numeric { kind: NumericKind::Float, scale: Scale::X64 })
    );

    let mut tokens = Traverser::from("logical");
    let result = <Node as Parsable>::parse(&mut tokens).unwrap();
    assert_eq!(result.data().main, MainType::Bool);

    let mut tokens = Traverser::from("string");
    let result = <Node as Parsable>::parse(&mut tokens).unwrap();
    assert_eq!(result.data().main, MainType::String);
}

#[test]
fn opaque_type_name() {
    let mut tokens = Traverser::from("matrix");
    let result = <Node as Parsable>::parse(&mut tokens).unwrap();
    match &result.data().main {
        MainType::Other(inner) => {
            assert_eq!(
                *inner.data(),
                vec![Component::Identifier(Identifier("matrix"))]
            );
        },
        other => panic!("expected an opaque type name, got {:?}", other),
    }
}

#[test]
fn trailing_modifiers() {
    let mut tokens = Traverser::from("integer4 ref");
    let result = <Node as Parsable>::parse(&mut tokens).unwrap();
    assert_eq!(result.data().modifiers, vec![Modifier::Reference]);
    assert_eq!(result.end_token(), 3);

    let mut tokens = Traverser::from("string mut_ref ref");
    let result = <Node as Parsable>::parse(&mut tokens).unwrap();
    assert_eq!(
        result.data().modifiers,
        vec![Modifier::MutableReference, Modifier::Reference]
    );

    // A following identifier that is no modifier stays unconsumed.
    let mut tokens = Traverser::from("logical next");
    let result = <Node as Parsable>::parse(&mut tokens).unwrap();
    assert!(result.data().modifiers.is_empty());
    assert_eq!(result.end_token(), 1);
    assert_eq!(tokens.token_offset(), 1);
}

#[test]
fn type_error_wraps_identifier_error() {
    let mut tokens = Traverser::from("");
    let error = <Node as Parsable>::parse(&mut tokens).unwrap_err();
    assert_eq!(error.start_token, 0);
}
