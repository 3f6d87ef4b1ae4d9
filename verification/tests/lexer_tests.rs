use json_tree::Json;
use json_tree::LexicalToken;
use json_tree::ParseError;
use json_tree::SourceLocation;
use json_tree::Token;

fn lex_ok(src: &str) -> Vec<LexicalToken> {
    let mut j = Json::new();
    j.lex(src).expect("lexing should succeed")
}

#[test]
fn lex_empty_input_yields_no_tokens() {
    assert!(lex_ok("").is_empty());
}

#[test]
fn lex_structural_characters() {
    let toks = lex_ok("{}[]:,");
    let kinds: Vec<Token> = toks.iter().map(|t| t.token.clone()).collect();
    assert_eq!(
        kinds,
        vec![
            Token::OpenCurly,
            Token::CloseCurly,
            Token::OpenSquare,
            Token::CloseSquare,
            Token::Colon,
            Token::Comma,
        ]
    );
    assert_eq!(toks[0].from, SourceLocation { row: 0, col: 0 });
    assert_eq!(toks[0].to, SourceLocation { row: 0, col: 0 });
    assert_eq!(toks[5].from, SourceLocation { row: 0, col: 5 });
}

#[test]
fn lex_negative_decimal_number() {
    let toks = lex_ok("-12.0");
    assert_eq!(toks.len(), 1);
    assert_eq!(toks[0].token, Token::Number(String::from("-12.0")));
    assert_eq!(toks[0].from, SourceLocation { row: 0, col: 0 });
    assert_eq!(toks[0].to, SourceLocation { row: 0, col: 5 });
    match &toks[0].token {
        Token::Number(text) => assert_eq!(text.parse::<f32>().unwrap(), -12.0f32),
        other => panic!("expected a number token, got {:?}", other),
    }
}

#[test]
fn lex_integer_number() {
    let toks = lex_ok("30");
    assert_eq!(toks.len(), 1);
    assert_eq!(toks[0].token, Token::Number(String::from("30")));
    match &toks[0].token {
        Token::Number(text) => assert_eq!(text.parse::<f32>().unwrap(), 30.0f32),
        other => panic!("expected a number token, got {:?}", other),
    }
}

#[test]
fn lex_lone_minus_is_invalid_number() {
    let mut j = Json::new();
    let r = j.lex("-");
    assert_eq!(
        r,
        Err(ParseError::InvalidNumber(
            String::from("-"),
            SourceLocation { row: 0, col: 0 }
        ))
    );
}

#[test]
fn lex_number_does_not_swallow_delimiter() {
    // tokens without a natural terminator must leave the scan on the comma
    let toks = lex_ok("[1,2]");
    let kinds: Vec<Token> = toks.iter().map(|t| t.token.clone()).collect();
    assert_eq!(
        kinds,
        vec![
            Token::OpenSquare,
            Token::Number(String::from("1")),
            Token::Comma,
            Token::Number(String::from("2")),
            Token::CloseSquare,
        ]
    );
}

#[test]
fn lex_second_dot_ends_the_number() {
    let toks = lex_ok("1.2.3");
    assert_eq!(toks.len(), 3);
    assert_eq!(toks[0].token, Token::Number(String::from("1.2")));
    assert_eq!(toks[1].token, Token::Other(String::from(".")));
    assert_eq!(toks[2].token, Token::Number(String::from("3")));
}

#[test]
fn lex_identifiers_and_whitespace_spans() {
    let toks = lex_ok("ab cd9_x");
    assert_eq!(toks.len(), 2);
    assert_eq!(toks[0].token, Token::Identifier(String::from("ab")));
    assert_eq!(toks[0].from, SourceLocation { row: 0, col: 0 });
    assert_eq!(toks[0].to, SourceLocation { row: 0, col: 2 });
    assert_eq!(toks[1].token, Token::Identifier(String::from("cd9_x")));
    assert_eq!(toks[1].from, SourceLocation { row: 0, col: 3 });
    assert_eq!(toks[1].to, SourceLocation { row: 0, col: 8 });
}

#[test]
fn lex_rows_follow_newlines() {
    let toks = lex_ok("a\n  b");
    assert_eq!(toks.len(), 2);
    assert_eq!(toks[0].from, SourceLocation { row: 0, col: 0 });
    assert_eq!(toks[1].from, SourceLocation { row: 1, col: 2 });
}

#[test]
fn lex_string_spans_and_content() {
    let toks = lex_ok(" \"ab\" ");
    assert_eq!(toks.len(), 1);
    assert_eq!(toks[0].token, Token::String(String::from("ab")));
    assert_eq!(toks[0].from, SourceLocation { row: 0, col: 1 });
    assert_eq!(toks[0].to, SourceLocation { row: 0, col: 4 });
}

#[test]
fn lex_backslash_stays_verbatim() {
    let toks = lex_ok(r#""a\c""#);
    assert_eq!(toks.len(), 1);
    assert_eq!(toks[0].token, Token::String(String::from(r"a\c")));
}

#[test]
fn lex_unterminated_string_is_an_error() {
    let mut j = Json::new();
    assert_eq!(
        j.lex("\"abc"),
        Err(ParseError::UnterminatedString(SourceLocation { row: 0, col: 0 }))
    );
    // a newline ends the line, so the quote never closes
    assert_eq!(
        j.lex("\"ab\ncd\""),
        Err(ParseError::UnterminatedString(SourceLocation { row: 0, col: 0 }))
    );
}

#[test]
fn lex_unclassified_character_becomes_other() {
    let toks = lex_ok("@");
    assert_eq!(toks.len(), 1);
    assert_eq!(toks[0].token, Token::Other(String::from("@")));
}

#[test]
fn lex_unicode_character_classes() {
    // a no-break space is Unicode whitespace and is skipped
    let toks = lex_ok("\u{00a0}x");
    assert_eq!(toks.len(), 1);
    assert_eq!(toks[0].token, Token::Identifier(String::from("x")));
    assert_eq!(toks[0].from, SourceLocation { row: 0, col: 1 });

    // a letter beyond ascii cannot start an identifier...
    let toks = lex_ok("\u{e9}");
    assert_eq!(toks.len(), 1);
    assert_eq!(toks[0].token, Token::Other(String::from("\u{e9}")));

    // ...but, being alphanumeric, it can continue one
    let toks = lex_ok("a\u{e9}");
    assert_eq!(toks.len(), 1);
    assert_eq!(toks[0].token, Token::Identifier(String::from("a\u{e9}")));
    assert_eq!(toks[0].to, SourceLocation { row: 0, col: 2 });
}
