use json_tree::Datum;
use json_tree::Json;
use json_tree::ParseError;
use json_tree::SourceLocation;
use json_tree::Token;

fn parse_ok(src: &str) -> Json {
    let mut j = Json::new();
    let r = j.parse(src);
    assert!(r.is_ok(), "expected a successful parse, got {:?}", r);
    assert!(j.root.is_some());
    j
}

fn parse_err(src: &str) -> ParseError {
    let mut j = Json::new();
    let r = j.parse(src);
    assert!(j.root.is_none(), "no partial tree may be exposed on failure");
    match r {
        Ok(()) => panic!("expected {:?} to fail", src),
        Err(e) => e,
    }
}

#[test]
fn test_parser() {
    let mut json = Json::new();
    let src = r#"
        {
            "name": "John",
            "age": 30,
            "cars": {
                "car1": "Ford",
                "car2": "BMW",
                "car3": "Fiat"
            },
            "children": [
                "Ann",
                "Billy"
            ]
        }
        "#;
    let res = json.parse(src);
    assert!(res.is_ok());

    assert_eq!(json.get("name"), Some(&Datum::Str(String::from("John"))));
    match json.get("age") {
        Some(Datum::Number(text)) => {
            assert_eq!(text, "30");
            assert_eq!(text.parse::<f32>().unwrap(), 30.0f32);
        },
        other => panic!("expected a number for \"age\", got {:?}", other),
    }
    assert_eq!(
        json.get("cars"),
        Some(&Datum::Object(vec![
            (String::from("car1"), Datum::Str(String::from("Ford"))),
            (String::from("car2"), Datum::Str(String::from("BMW"))),
            (String::from("car3"), Datum::Str(String::from("Fiat"))),
        ]))
    );
    assert_eq!(
        json.get("children"),
        Some(&Datum::Array(vec![
            Datum::Str(String::from("Ann")),
            Datum::Str(String::from("Billy")),
        ]))
    );
}

#[test]
fn wrong_roots_fail_without_panicking() {
    assert_eq!(parse_err(""), ParseError::UnexpectedEof);
    match parse_err("[]") {
        ParseError::UnexpectedToken(t) => assert_eq!(t.token, Token::OpenSquare),
        other => panic!("expected the bracket to be rejected, got {:?}", other),
    }
    // the hyphen starts a number that never gets a digit, so the lexer
    // rejects this input before any parsing
    match parse_err("not-json") {
        ParseError::InvalidNumber(text, _) => assert_eq!(text, "-"),
        other => panic!("expected an invalid number, got {:?}", other),
    }
}

#[test]
fn nested_containers_round_trip() {
    let json = parse_ok(r#"{"a":[1,"x",null,[true]]}"#);
    assert_eq!(
        json.get("a"),
        Some(&Datum::Array(vec![
            Datum::Number(String::from("1")),
            Datum::Str(String::from("x")),
            Datum::Null,
            Datum::Array(vec![Datum::Boolean(true)]),
        ]))
    );
}

#[test]
fn array_as_object_value_and_array_in_array() {
    // both value-dispatch sites must recurse into arrays the same way
    let json = parse_ok(r#"{"outer":[[ ]],"inner":[[1],[2,3]]}"#);
    assert_eq!(json.get("outer"), Some(&Datum::Array(vec![Datum::Array(vec![])])));
    assert_eq!(
        json.get("inner"),
        Some(&Datum::Array(vec![
            Datum::Array(vec![Datum::Number(String::from("1"))]),
            Datum::Array(vec![
                Datum::Number(String::from("2")),
                Datum::Number(String::from("3")),
            ]),
        ]))
    );
}

#[test]
fn malformed_documents_report_structured_errors() {
    match parse_err(r#"{"a": "b}"#) {
        ParseError::UnterminatedString(loc) => {
            assert_eq!(loc, SourceLocation { row: 0, col: 6 });
        },
        other => panic!("expected an unterminated string, got {:?}", other),
    }
    match parse_err(r#"{"a" 1}"#) {
        ParseError::UnexpectedToken(t) => {
            assert_eq!(t.token, Token::Number(String::from("1")));
        },
        other => panic!("expected the missing colon to be caught, got {:?}", other),
    }
    match parse_err(r#"{"a":1,}"#) {
        ParseError::UnexpectedToken(t) => assert_eq!(t.token, Token::CloseCurly),
        other => panic!("expected the trailing comma to be caught, got {:?}", other),
    }
    match parse_err(r#"{"a":1 "b":2}"#) {
        ParseError::UnexpectedToken(t) => {
            assert_eq!(t.token, Token::String(String::from("b")));
        },
        other => panic!("expected the missing comma to be caught, got {:?}", other),
    }
    assert_eq!(parse_err(r#"{"a":1"#), ParseError::UnexpectedEof);
}

#[test]
fn parsing_twice_yields_equal_trees() {
    let src = r#"{"b": [1, 2], "a": {"x": null}, "c": false}"#;
    let first = parse_ok(src);
    let second = parse_ok(src);
    assert_eq!(first.root, second.root);
}

#[test]
fn empty_containers_parse_to_empty_collections() {
    let json = parse_ok("{}");
    assert_eq!(json.root, Some(vec![]));
    assert_eq!(json.get("anything"), None);

    let json = parse_ok(r#"{"a":[]}"#);
    assert_eq!(json.get("a"), Some(&Datum::Array(vec![])));
}

#[test]
fn values_of_every_kind() {
    let json = parse_ok(
        r#"{"s": "text", "n": -0.5, "t": true, "f": false, "z": null, "o": {}, "l": []}"#,
    );
    assert_eq!(json.get("s"), Some(&Datum::Str(String::from("text"))));
    match json.get("n") {
        Some(Datum::Number(text)) => {
            assert_eq!(text, "-0.5");
            assert_eq!(text.parse::<f32>().unwrap(), -0.5f32);
        },
        other => panic!("expected a number for \"n\", got {:?}", other),
    }
    assert_eq!(json.get("t"), Some(&Datum::Boolean(true)));
    assert_eq!(json.get("f"), Some(&Datum::Boolean(false)));
    assert_eq!(json.get("z"), Some(&Datum::Null));
    assert_eq!(json.get("o"), Some(&Datum::Object(vec![])));
    assert_eq!(json.get("l"), Some(&Datum::Array(vec![])));
    assert_eq!(json.get("missing"), None);
}

#[test]
fn duplicate_keys_keep_the_last_value() {
    let json = parse_ok(r#"{"k": 1, "k": 2}"#);
    assert_eq!(json.root, Some(vec![(String::from("k"), Datum::Number(String::from("2")))]));
}

#[test]
fn unresolved_identifier_is_rejected() {
    match parse_err(r#"{"a": tru}"#) {
        ParseError::UnexpectedToken(t) => {
            assert_eq!(t.token, Token::Identifier(String::from("tru")));
        },
        other => panic!("expected the near-miss literal to be rejected, got {:?}", other),
    }
}

#[test]
fn invalid_number_inside_document() {
    match parse_err(r#"{"a": -}"#) {
        ParseError::InvalidNumber(text, loc) => {
            assert_eq!(text, "-");
            assert_eq!(loc, SourceLocation { row: 0, col: 6 });
        },
        other => panic!("expected an invalid number, got {:?}", other),
    }
}

#[test]
fn trailing_tokens_are_rejected() {
    match parse_err("{} {}") {
        ParseError::UnexpectedToken(t) => assert_eq!(t.token, Token::OpenCurly),
        other => panic!("expected the trailing token to be rejected, got {:?}", other),
    }
}

#[test]
fn whitespace_everywhere_is_skipped() {
    let json = parse_ok("  {\n\t\"a\" :\r true ,\n \"b\": 2 }\n");
    assert_eq!(json.get("a"), Some(&Datum::Boolean(true)));
    assert_eq!(json.get("b"), Some(&Datum::Number(String::from("2"))));
}
