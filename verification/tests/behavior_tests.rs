use json_parser::parse_json;
use json_parser::JsonError;
use json_parser::JsonValue;
use json_parser::lexer::Lexer;
use json_parser::lexer::Token;

/// The numeric value of a `Number` leaf: its lexeme read as a double.
fn num(v: &JsonValue) -> f64 {
    match v {
        JsonValue::Number(s) => s.parse::<f64>().unwrap(),
        _ => panic!("Expected number"),
    }
}

#[test]
fn test_empty_containers() {
    if let JsonValue::Object(obj) = parse_json("{}").unwrap() {
        assert_eq!(obj.len(), 0);
    } else {
        panic!("Expected object");
    }
    if let JsonValue::Array(arr) = parse_json("[]").unwrap() {
        assert_eq!(arr.len(), 0);
    } else {
        panic!("Expected array");
    }
}

#[test]
fn test_repeated_keys_keep_last() {
    let input = r#"{"a": 1, "b": 2, "a": 3}"#;
    if let JsonValue::Object(obj) = parse_json(input).unwrap() {
        assert_eq!(obj.len(), 2);
        assert_eq!(num(obj.get("a").unwrap()), 3.0);
        assert_eq!(num(obj.get("b").unwrap()), 2.0);
    } else {
        panic!("Expected object");
    }
}

#[test]
fn test_number_grammar() {
    assert_eq!(num(&parse_json("0").unwrap()), 0.0);
    assert_eq!(num(&parse_json("-0").unwrap()), 0.0);
    assert_eq!(num(&parse_json("12300").unwrap()), 12300.0);
    assert_eq!(num(&parse_json("1e10").unwrap()), 1e10);
    assert_eq!(num(&parse_json("1E+2").unwrap()), 100.0);
    assert_eq!(num(&parse_json("1.5e-2").unwrap()), 0.015);
    assert_eq!(num(&parse_json("-123.456").unwrap()), -123.456);
    // The stored lexeme is the exact source text.
    assert_eq!(parse_json("1.23e4").unwrap(), JsonValue::Number("1.23e4".to_string()));
}

#[test]
fn test_invalid_numbers() {
    for input in ["-", "1.", "-.", "1e", "1e+", "2.e1", "--1"] {
        match parse_json(input) {
            Err(JsonError::InvalidNumber(msg)) => {
                assert_eq!(msg, "Expected at least one digit");
            }
            other => panic!("expected InvalidNumber for {:?}, got {:?}", input, other),
        }
    }
}

#[test]
fn test_string_escapes() {
    let input = r#""a\"b\\c\/d\be\ff\ng\rh\ti""#;
    let expected = "a\"b\\c/d\u{0008}e\u{000C}f\ng\rh\ti";
    assert_eq!(parse_json(input).unwrap(), JsonValue::String(expected.to_string()));
}

#[test]
fn test_unicode_escapes() {
    // An ASCII letter, a Latin-1 letter and a CJK character, all by escape.
    assert_eq!(
        parse_json("\"\\u0041\\u00e9\\u4e16\"").unwrap(),
        JsonValue::String("A\u{00e9}\u{4e16}".to_string())
    );
    // Unescaped characters outside ASCII pass through unchanged.
    assert_eq!(
        parse_json("\"A\u{00e9}\"").unwrap(),
        JsonValue::String("A\u{00e9}".to_string())
    );
    // Hex digits may be upper case.
    assert_eq!(
        parse_json("\"\\u004A\"").unwrap(),
        JsonValue::String("J".to_string())
    );
}

#[test]
fn test_invalid_escape() {
    match parse_json(r#""\x""#) {
        Err(JsonError::InvalidEscapeSequence(s)) => assert_eq!(s, "x"),
        other => panic!("expected InvalidEscapeSequence, got {:?}", other),
    }
}

#[test]
fn test_invalid_unicode_sequences() {
    // An unpaired surrogate half is not a scalar value.
    match parse_json(r#""\ud800""#) {
        Err(JsonError::InvalidUnicodeSequence(s)) => assert_eq!(s, "d800"),
        other => panic!("expected InvalidUnicodeSequence, got {:?}", other),
    }
    // Non-hexadecimal digits.
    match parse_json(r#""\u12g4""#) {
        Err(JsonError::InvalidUnicodeSequence(s)) => assert_eq!(s, "12g4"),
        other => panic!("expected InvalidUnicodeSequence, got {:?}", other),
    }
    // Input ends inside the four digits: the error reports what was there.
    match parse_json("\"\\u12") {
        Err(JsonError::InvalidUnicodeSequence(s)) => assert_eq!(s, "12"),
        other => panic!("expected InvalidUnicodeSequence, got {:?}", other),
    }
}

#[test]
fn test_unterminated_structures_fail_with_eof() {
    match parse_json("{") {
        Err(JsonError::UnexpectedEof) => {}
        other => panic!("expected UnexpectedEof, got {:?}", other),
    }
    match parse_json("\"abc") {
        Err(JsonError::UnexpectedEof) => {}
        other => panic!("expected UnexpectedEof, got {:?}", other),
    }
    match parse_json("[1, 2") {
        Err(JsonError::UnexpectedEof) => {}
        other => panic!("expected UnexpectedEof, got {:?}", other),
    }
    match parse_json(r#"{"a": 1"#) {
        Err(JsonError::UnexpectedEof) => {}
        other => panic!("expected UnexpectedEof, got {:?}", other),
    }
}

#[test]
fn test_missing_colon_message() {
    match parse_json(r#"{"name" "John"}"#) {
        Err(JsonError::UnexpectedToken(msg)) => {
            assert_eq!(msg, "Expected ':', got String(\"John\")");
        }
        other => panic!("expected UnexpectedToken, got {:?}", other),
    }
}

#[test]
fn test_trailing_content_fails() {
    // Trailing tokens after a complete value are rejected.
    match parse_json("null true") {
        Err(JsonError::UnexpectedToken(msg)) => {
            assert_eq!(msg, "Expected end of input");
        }
        other => panic!("expected UnexpectedToken, got {:?}", other),
    }
    match parse_json("[1] [2]") {
        Err(JsonError::UnexpectedToken(msg)) => {
            assert_eq!(msg, "Expected end of input");
        }
        other => panic!("expected UnexpectedToken, got {:?}", other),
    }
    // Trailing text that is no token fails already in the lexer, with the
    // offending character named.
    match parse_json("null extra") {
        Err(JsonError::UnexpectedToken(msg)) => assert_eq!(msg, "e"),
        other => panic!("expected UnexpectedToken, got {:?}", other),
    }
}

#[test]
fn test_trailing_commas_rejected() {
    match parse_json("[1, 2, 3,]") {
        Err(JsonError::UnexpectedToken(msg)) => assert_eq!(msg, "Trailing comma in array"),
        other => panic!("expected UnexpectedToken, got {:?}", other),
    }
    match parse_json(r#"{"a":1,}"#) {
        Err(JsonError::UnexpectedToken(msg)) => assert_eq!(msg, "Trailing comma in object"),
        other => panic!("expected UnexpectedToken, got {:?}", other),
    }
}

#[test]
fn test_whitespace_is_insignificant() {
    let dense = r#"{"a":[1,{"b":2}],"c":true}"#;
    let spaced = "  {\t\"a\" :\n [ 1 ,\r\n { \"b\" : 2 } ] , \"c\" : true }  ";
    assert_eq!(parse_json(dense).unwrap(), parse_json(spaced).unwrap());
    // Unicode whitespace between tokens is skipped too.
    let exotic = "\u{00A0}[\u{2028}1\u{3000},\u{2003}2\u{1680}]\u{2029}";
    assert_eq!(parse_json(exotic).unwrap(), parse_json("[1,2]").unwrap());
}

#[test]
fn test_nested_combination() {
    let input = r#"{"a":[1,{"b":2}]}"#;
    if let JsonValue::Object(obj) = parse_json(input).unwrap() {
        if let Some(JsonValue::Array(arr)) = obj.get("a") {
            assert_eq!(arr.len(), 2);
            assert_eq!(num(&arr[0]), 1.0);
            if let JsonValue::Object(inner) = &arr[1] {
                assert_eq!(num(inner.get("b").unwrap()), 2.0);
            } else {
                panic!("Expected inner object");
            }
        } else {
            panic!("Expected array under a");
        }
    } else {
        panic!("Expected object");
    }
}

#[test]
fn test_deep_nesting() {
    let input = "[[[[[[[[[[42]]]]]]]]]]";
    let mut v = parse_json(input).unwrap();
    for _ in 0..10 {
        v = match v {
            JsonValue::Array(mut arr) => {
                assert_eq!(arr.len(), 1);
                arr.remove(0)
            }
            _ => panic!("Expected array"),
        };
    }
    assert_eq!(num(&v), 42.0);
}

#[test]
fn test_unexpected_characters() {
    match parse_json("@") {
        Err(JsonError::UnexpectedToken(msg)) => assert_eq!(msg, "@"),
        other => panic!("expected UnexpectedToken, got {:?}", other),
    }
    match parse_json("nul") {
        Err(JsonError::UnexpectedEof) => {}
        other => panic!("expected UnexpectedEof, got {:?}", other),
    }
    match parse_json("nuXl") {
        Err(JsonError::UnexpectedToken(msg)) => assert_eq!(msg, "X"),
        other => panic!("expected UnexpectedToken, got {:?}", other),
    }
    match parse_json("trye") {
        Err(JsonError::UnexpectedToken(msg)) => assert_eq!(msg, "y"),
        other => panic!("expected UnexpectedToken, got {:?}", other),
    }
    match parse_json("falsy") {
        Err(JsonError::UnexpectedToken(msg)) => assert_eq!(msg, "y"),
        other => panic!("expected UnexpectedToken, got {:?}", other),
    }
}

#[test]
fn test_error_descriptions() {
    assert_eq!(parse_json("{").unwrap_err().describe(), "Unexpected end of file");
    assert_eq!(parse_json("@").unwrap_err().describe(), "Unexpected token: @");
    assert_eq!(
        parse_json("1e").unwrap_err().describe(),
        "Invalid number: Expected at least one digit"
    );
    assert_eq!(
        parse_json(r#""\q""#).unwrap_err().describe(),
        "Invalid escape sequence: q"
    );
    assert_eq!(
        parse_json(r#""\udfff""#).unwrap_err().describe(),
        "Invalid unicode sequence: dfff"
    );
}

#[test]
fn test_lexer_token_stream() {
    let mut lexer = Lexer::new(" [1, \"a\"] ");
    assert_eq!(lexer.next_token().unwrap(), Some(Token::LeftBracket));
    assert_eq!(lexer.next_token().unwrap(), Some(Token::Number("1".to_string())));
    assert_eq!(lexer.next_token().unwrap(), Some(Token::Comma));
    assert_eq!(lexer.next_token().unwrap(), Some(Token::String("a".to_string())));
    assert_eq!(lexer.next_token().unwrap(), Some(Token::RightBracket));
    assert_eq!(lexer.next_token().unwrap(), None);
    assert_eq!(lexer.next_token().unwrap(), None);
}

#[test]
fn test_lexer_punctuation_and_literals() {
    let mut lexer = Lexer::new("{}:,null true false");
    assert_eq!(lexer.next_token().unwrap(), Some(Token::LeftBrace));
    assert_eq!(lexer.next_token().unwrap(), Some(Token::RightBrace));
    assert_eq!(lexer.next_token().unwrap(), Some(Token::Colon));
    assert_eq!(lexer.next_token().unwrap(), Some(Token::Comma));
    assert_eq!(lexer.next_token().unwrap(), Some(Token::Null));
    assert_eq!(lexer.next_token().unwrap(), Some(Token::Boolean(true)));
    assert_eq!(lexer.next_token().unwrap(), Some(Token::Boolean(false)));
    assert_eq!(lexer.next_token().unwrap(), None);
}

#[test]
fn test_object_key_must_be_string() {
    match parse_json("{1: 2}") {
        Err(JsonError::UnexpectedToken(msg)) => {
            assert_eq!(msg, "Expected string key, got Number(1)");
        }
        other => panic!("expected UnexpectedToken, got {:?}", other),
    }
}

#[test]
fn test_array_separator_message() {
    match parse_json("[1 2]") {
        Err(JsonError::UnexpectedToken(msg)) => {
            assert_eq!(msg, "Expected ',' or ']', got Number(2)");
        }
        other => panic!("expected UnexpectedToken, got {:?}", other),
    }
    match parse_json(r#"{"a":1 "b":2}"#) {
        Err(JsonError::UnexpectedToken(msg)) => {
            assert_eq!(msg, "Expected ',' or '}', got String(\"b\")");
        }
        other => panic!("expected UnexpectedToken, got {:?}", other),
    }
}

#[test]
fn test_value_in_value_position() {
    match parse_json("[,]") {
        Err(JsonError::UnexpectedToken(msg)) => assert_eq!(msg, "Comma"),
        other => panic!("expected UnexpectedToken, got {:?}", other),
    }
    match parse_json(":") {
        Err(JsonError::UnexpectedToken(msg)) => assert_eq!(msg, "Colon"),
        other => panic!("expected UnexpectedToken, got {:?}", other),
    }
}

#[test]
fn test_empty_input_fails() {
    match parse_json("") {
        Err(JsonError::UnexpectedEof) => {}
        other => panic!("expected UnexpectedEof, got {:?}", other),
    }
    match parse_json("   \t\n") {
        Err(JsonError::UnexpectedEof) => {}
        other => panic!("expected UnexpectedEof, got {:?}", other),
    }
}

#[test]
fn test_to_text_rendering() {
    assert_eq!(parse_json("null").unwrap().to_text(), "null");
    assert_eq!(parse_json("true").unwrap().to_text(), "true");
    assert_eq!(parse_json("false").unwrap().to_text(), "false");
    assert_eq!(parse_json("1.23e4").unwrap().to_text(), "1.23e4");
    assert_eq!(parse_json("\"hi\"").unwrap().to_text(), "\"hi\"");
    assert_eq!(parse_json("[]").unwrap().to_text(), "[]");
    assert_eq!(parse_json("{}").unwrap().to_text(), "{}");
    assert_eq!(parse_json("[ 1 , 2 , 3 ]").unwrap().to_text(), "[1, 2, 3]");
    assert_eq!(
        parse_json("{ \"a\" : 1 , \"b\" : [ true , null ] }").unwrap().to_text(),
        "{\"a\": 1, \"b\": [true, null]}"
    );
}
