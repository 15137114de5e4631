use metal_programming_language::token::{mapping_for, tokenize, Kind};

#[test]
fn test_basic() {
    let source = "hello world!";
    let tokens = tokenize(source);
    let kinds: Vec<&Kind> = tokens.iter().map(|t| t.kind()).collect();
    assert_eq!(
        kinds,
        vec![
            &Kind::Identifier("hello"),
            &Kind::Space,
            &Kind::Identifier("world"),
            &Kind::Other('!'),
        ]
    );
}

#[test]
fn number() {
    // Digits inside an alphanumeric run stay part of the identifier; only a
    // digit at the start of a token becomes a digit token.
    let source = "cats15";
    let tokens = tokenize(source);
    assert_eq!(tokens.len(), 1);
    assert_eq!(tokens[0].kind(), &Kind::Identifier("cats15"));

    let tokens = tokenize("15cats");
    let kinds: Vec<&Kind> = tokens.iter().map(|t| t.kind()).collect();
    assert_eq!(
        kinds,
        vec![&Kind::Digit(1), &Kind::Digit(5), &Kind::Identifier("cats")]
    );
}

#[test]
fn expression() {
    let source = "_x_x = 5 + 10;";
    let tokens = tokenize(source);
    let kinds: Vec<&Kind> = tokens.iter().map(|t| t.kind()).collect();
    assert_eq!(
        kinds,
        vec![
            &Kind::IdentifierEscape,
            &Kind::Identifier("x_x"),
            &Kind::Space,
            &Kind::Equal,
            &Kind::Space,
            &Kind::Digit(5),
            &Kind::Space,
            &Kind::Other('+'),
            &Kind::Space,
            &Kind::Digit(1),
            &Kind::Digit(0),
            &Kind::Other(';'),
        ]
    );
}

#[test]
fn byte_lengths_follow_utf8() {
    let tokens = tokenize("h\u{e9}llo \u{3b1}");
    assert_eq!(tokens.len(), 3);
    assert_eq!(tokens[0].kind(), &Kind::Identifier("h\u{e9}llo"));
    assert_eq!(tokens[0].byte_length(), 6);
    assert_eq!(tokens[1].byte_length(), 1);
    assert_eq!(tokens[2].kind(), &Kind::Identifier("\u{3b1}"));
    assert_eq!(tokens[2].byte_length(), 2);
}

#[test]
fn mapping_table_round() {
    let space = mapping_for(' ').unwrap();
    assert_eq!(space.character, ' ');
    assert_eq!(space.token, Kind::Space);
    let comma = mapping_for(',').unwrap();
    assert_eq!(comma.token, Kind::Decimal);
    assert!(mapping_for('q').is_none());
    assert!(mapping_for('+').is_none());
}

#[test]
fn round_trip_reconstructs_source() {
    // Concatenating the literal text of every token reproduces the source.
    let sources = [
        "hello world!",
        "_x_x = 5 + 10;",
        " \n\t\n ",
        "\"Quoted text: \\\"Text\\\"\"",
        "integer4 ref",
        "caf\u{e9} \u{3b1}\u{3b2}/42,7",
        "",
    ];
    for source in sources {
        let tokens = tokenize(source);
        let mut rebuilt = String::new();
        for token in &tokens {
            metal_programming_language::token::append_token_text(&mut rebuilt, token);
        }
        assert_eq!(rebuilt, source);
    }
}

#[test]
fn lazy_stream_matches_eager_lexer() {
    let source = "var x = 10";
    let mut stream = metal_programming_language::token::Iterator::from_str(source);
    assert_eq!(stream.source(), source);
    let mut collected = Vec::new();
    while let Some(token) = stream.next() {
        collected.push(token);
    }
    assert_eq!(collected, tokenize(source));
}
