use metal_programming_language::annotation::{Annotation, Kind};
use metal_programming_language::operator::Operator;
use metal_programming_language::parser::Parser;

#[test]
fn current_position_reporting() {
    let parser = Parser::new("ab");
    assert_eq!(parser.get_current(), Some(0));
    let parser = Parser::new("");
    assert_eq!(parser.get_current(), None);
}

#[test]
fn ident_chars_one_at_a_time() {
    let mut parser = Parser::new("a_1 x");
    assert_eq!(parser.parse_ident_char(), Some('a'));
    assert_eq!(parser.parse_ident_char(), Some('_'));
    assert_eq!(parser.parse_ident_char(), Some('1'));
    assert_eq!(parser.parse_ident_char(), None);
}

#[test]
fn identifiers_and_symbols() {
    let mut parser = Parser::new("hello_9 += x");
    assert_eq!(parser.parse_identifier(), Some(String::from("hello_9")));
    assert_eq!(parser.parse_identifier(), None);
    assert_eq!(parser.parse_symbol(), Some(String::from(" += ")));
    assert_eq!(parser.parse_symbol(), None);
}

#[test]
fn name_records_annotation() {
    let mut parser = Parser::new("total =");
    let name = parser.parse_name().unwrap();
    assert_eq!(name, "total");
    assert_eq!(parser.annotations.len(), 1);
    let annotation = &parser.annotations[0];
    assert_eq!(annotation.start_index, 0);
    assert_eq!(annotation.end_index, 4);
    assert_eq!(annotation.kind, Kind::Variable);
    assert!(annotation.error.is_none());
    assert!(annotation.warning.is_none());
}

#[test]
fn repeating_and_single_chars() {
    let mut parser = Parser::new("///x");
    assert_eq!(parser.parse_repeating_sequence('/'), Some(3));
    assert_eq!(parser.parse_repeating_sequence('/'), None);
    assert_eq!(parser.parse_char('x'), Some(()));
    assert_eq!(parser.parse_char('x'), None);
}

#[test]
fn blank_filler() {
    let mut parser = Parser::new(" \n\t three");
    parser.parse_empty();
    assert_eq!(parser.parse_identifier(), Some(String::from("three")));
}

#[test]
fn keyword_header() {
    let mut parser = Parser::new("var  counter;");
    let declaration = parser.parse_keyword_header().unwrap();
    assert_eq!(declaration.keyword, "var");
    assert_eq!(declaration.name, "counter");
    assert_eq!(parser.annotations.len(), 2);
    assert_eq!(parser.annotations[0].kind, Kind::Keyword);
    assert_eq!(parser.annotations[0].start_index, 0);
    assert_eq!(parser.annotations[0].end_index, 2);
    assert_eq!(parser.annotations[1].kind, Kind::Variable);
    assert_eq!(parser.annotations[1].start_index, 4);
    assert_eq!(parser.annotations[1].end_index, 11);
}

#[test]
fn integer_scanning() {
    let mut parser = Parser::new("4096 next");
    assert_eq!(parser.parse_integer(), Some(4096));
    assert_eq!(parser.parse_integer(), None);

    let mut parser = Parser::new("x1");
    assert_eq!(parser.parse_integer(), None);
}

#[test]
fn bool_scanning_case_folds() {
    let mut parser = Parser::new("TRUE");
    assert_eq!(parser.parse_bool(), Some(true));
    let mut parser = Parser::new("False");
    assert_eq!(parser.parse_bool(), Some(false));
    let mut parser = Parser::new("maybe");
    assert_eq!(parser.parse_bool(), None);
}

#[test]
fn operator_scanning() {
    let mut parser = Parser::new("<<");
    assert_eq!(parser.parse_operator(), Some(Operator::ShiftLeft));
    let mut parser = Parser::new("+");
    assert_eq!(parser.parse_operator(), Some(Operator::Add));
    let mut parser = Parser::new("word");
    assert_eq!(parser.parse_operator(), None);
}

#[test]
fn operator_catalogue() {
    assert_eq!(Operator::from_str("+"), Some(Operator::Add));
    assert_eq!(Operator::from_str("-"), Some(Operator::Subtract));
    assert_eq!(Operator::from_str("*"), Some(Operator::Multiply));
    assert_eq!(Operator::from_str("/"), Some(Operator::Divide));
    assert_eq!(Operator::from_str("&"), Some(Operator::And));
    assert_eq!(Operator::from_str("|"), Some(Operator::Or));
    assert_eq!(Operator::from_str("="), Some(Operator::Equal));
    assert_eq!(Operator::from_str("<<"), Some(Operator::ShiftLeft));
    assert_eq!(Operator::from_str(">>"), Some(Operator::ShiftRight));
    assert_eq!(Operator::from_str(">"), Some(Operator::GreaterThan));
    assert_eq!(Operator::from_str("<"), Some(Operator::LessThan));
    assert_eq!(Operator::from_str("=="), None);
    assert_eq!(Operator::from_str(""), None);
}

#[test]
fn line_comments() {
    let mut parser = Parser::new("// a note\nrest");
    let comment = parser.parse_line_comment().unwrap();
    assert_eq!(comment, "a note");

    let mut parser = Parser::new("/ not a comment");
    assert_eq!(parser.parse_line_comment(), None);
}

#[test]
fn path_scanning() {
    let mut parser = Parser::new("core/node/parse!");
    let parts = parser.parse_path().unwrap();
    assert_eq!(
        parts,
        vec![String::from("core"), String::from("node"), String::from("parse")]
    );

    let mut parser = Parser::new("/leading");
    assert_eq!(parser.parse_path(), None);

    let mut parser = Parser::new("!");
    assert_eq!(parser.parse_path(), None);
}

#[test]
fn comment_reference() {
    let mut parser = Parser::new("[core/token] more");
    let reference = parser.parse_comment_reference().unwrap();
    assert_eq!(reference.parts, vec![String::from("core"), String::from("token")]);
    assert_eq!(reference.start, 0);
    assert_eq!(reference.end, 11);

    let mut parser = Parser::new("(no bracket)");
    assert_eq!(parser.parse_comment_reference(), None);
}

#[test]
fn comment_notation() {
    let mut parser = Parser::new("");
    let (text, references) = parser.parse_comment_notation().unwrap();
    assert_eq!(text, "");
    assert!(references.is_empty());

    let mut parser = Parser::new("a]b]x");
    assert_eq!(parser.parse_comment_notation(), None);
}

#[test]
fn annotations_from_kind() {
    let annotation = Annotation::from_kind(3, 9, Kind::Keyword);
    assert_eq!(annotation.start_index, 3);
    assert_eq!(annotation.end_index, 9);
    assert_eq!(annotation.kind, Kind::Keyword);
    assert_eq!(annotation.error, None);
    assert_eq!(annotation.warning, None);
}
