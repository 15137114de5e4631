use metal_programming_language::node::{ErrorKind, Parsable};
use metal_programming_language::number::{Error, FloatLiteral, Node, Number};
use metal_programming_language::traverser::Traverser;

fn float_value(literal: &FloatLiteral) -> f64 {
    let magnitude = literal.whole as f64
        + literal.fraction as f64 / 10f64.powi(literal.fraction_digits as i32);
    if literal.negative {
        -magnitude
    } else {
        magnitude
    }
}

#[test]
fn integer() {
    let mut tokens = Traverser::from("-4096");
    let result = <Node as Parsable>::parse(&mut tokens).unwrap();
    assert_eq!(result.start_token(), 0);
    assert_eq!(result.end_token(), 5);
    assert_eq!(*result.data(), Number::Signed(-4096));

    let mut tokens = Traverser::from("-1000");
    let result = <Node as Parsable>::parse(&mut tokens).unwrap();
    assert_eq!(*result.data(), Number::Signed(-1000));

    let mut tokens = Traverser::from(" -477");
    let error = <Node as Parsable>::parse(&mut tokens).unwrap_err();
    assert_eq!(error.kind, ErrorKind::Other(Error::ExpectedWholeNumberComponent));
    assert_eq!(error.start_token, 0);
}

#[test]
fn unsigned_integer() {
    let mut tokens = Traverser::from("4096");
    let result = <Node as Parsable>::parse(&mut tokens).unwrap();
    assert_eq!(result.start_token(), 0);
    assert_eq!(result.end_token(), 4);
    assert_eq!(*result.data(), Number::UnSigned(4096));

    let mut tokens = Traverser::from("1000");
    let result = <Node as Parsable>::parse(&mut tokens).unwrap();
    assert_eq!(*result.data(), Number::UnSigned(1000));

    let mut tokens = Traverser::from(" 477");
    let error = <Node as Parsable>::parse(&mut tokens).unwrap_err();
    assert_eq!(error.kind, ErrorKind::Other(Error::ExpectedWholeNumberComponent));
    assert_eq!(error.start_token, 0);
}

#[test]
fn float() {
    let mut tokens = Traverser::from("10,9");
    let result = <Node as Parsable>::parse(&mut tokens).unwrap();
    assert_eq!(result.start_token(), 0);
    assert_eq!(result.end_token(), 4);
    let Number::Float(literal) = result.data() else {
        panic!("expected a float literal");
    };
    assert_eq!(
        *literal,
        FloatLiteral { negative: false, whole: 10, fraction: 9, fraction_digits: 1 }
    );
    assert_eq!(float_value(literal), 10.9);

    let mut tokens = Traverser::from("40000000077,12345");
    let result = <Node as Parsable>::parse(&mut tokens).unwrap();
    let Number::Float(literal) = result.data() else {
        panic!("expected a float literal");
    };
    assert_eq!(float_value(literal), 40000000077.12345);

    let mut tokens = Traverser::from("4044,");
    let error = <Node as Parsable>::parse(&mut tokens).unwrap_err();
    assert_eq!(
        error.kind,
        ErrorKind::Other(Error::ExpectedFractionalNumberComponent)
    );
    assert_eq!(error.start_token, 5);
    assert_eq!(tokens.token_offset(), 0);
}

#[test]
fn negative_float() {
    let mut tokens = Traverser::from("-10,9");
    let result = <Node as Parsable>::parse(&mut tokens).unwrap();
    assert_eq!(result.start_token(), 0);
    assert_eq!(result.end_token(), 5);
    let Number::Float(literal) = result.data() else {
        panic!("expected a float literal");
    };
    assert!(literal.negative);
    assert_eq!(float_value(literal), -10.9);

    let mut tokens = Traverser::from("-40000000077,12345");
    let result = <Node as Parsable>::parse(&mut tokens).unwrap();
    let Number::Float(literal) = result.data() else {
        panic!("expected a float literal");
    };
    assert_eq!(float_value(literal), -40000000077.12345);

    let mut tokens = Traverser::from("-4044,");
    let error = <Node as Parsable>::parse(&mut tokens).unwrap_err();
    assert_eq!(
        error.kind,
        ErrorKind::Other(Error::ExpectedFractionalNumberComponent)
    );
    assert_eq!(error.start_token, 6);
}

#[test]
fn becomes_identifier() {
    // A numeric run abutting identifier characters is an ambiguous boundary
    // and is rejected, not truncated.
    let mut tokens = Traverser::from("-4044something");
    let error = <Node as Parsable>::parse(&mut tokens).unwrap_err();
    assert_eq!(error.kind, ErrorKind::Other(Error::FoundIdentifier));
    assert_eq!(error.start_token, 5);
    assert_eq!(tokens.token_offset(), 0);

    let mut tokens = Traverser::from("-4044atoms");
    let error = <Node as Parsable>::parse(&mut tokens).unwrap_err();
    assert_eq!(error.kind, ErrorKind::Other(Error::FoundIdentifier));

    let mut tokens = Traverser::from("atoms-4044");
    let error = <Node as Parsable>::parse(&mut tokens).unwrap_err();
    assert_eq!(error.kind, ErrorKind::Other(Error::ExpectedWholeNumberComponent));
    assert_eq!(error.start_token, 0);
}

#[test]
fn whole_part_overflow() {
    // Twenty nines cannot fit the 64-bit accumulator.
    let mut tokens = Traverser::from("99999999999999999999");
    let error = <Node as Parsable>::parse(&mut tokens).unwrap_err();
    assert_eq!(error.kind, ErrorKind::Other(Error::Overflowing));
    assert_eq!(tokens.token_offset(), 0);

    // The unsigned maximum itself still fits.
    let mut tokens = Traverser::from("18446744073709551615");
    let result = <Node as Parsable>::parse(&mut tokens).unwrap();
    assert_eq!(*result.data(), Number::UnSigned(u64::MAX));
}

#[test]
fn signed_overflow() {
    // The negated magnitude must fit the signed 64-bit range.
    let mut tokens = Traverser::from("-9223372036854775808");
    let error = <Node as Parsable>::parse(&mut tokens).unwrap_err();
    assert_eq!(error.kind, ErrorKind::Other(Error::Overflowing));

    let mut tokens = Traverser::from("-9223372036854775807");
    let result = <Node as Parsable>::parse(&mut tokens).unwrap();
    assert_eq!(*result.data(), Number::Signed(-(i64::MAX)));
}

#[test]
fn fractional_overflow() {
    let mut tokens = Traverser::from("1,99999999999999999999");
    let error = <Node as Parsable>::parse(&mut tokens).unwrap_err();
    assert_eq!(error.kind, ErrorKind::Other(Error::Overflowing));
    assert_eq!(tokens.token_offset(), 0);
}
