use alexdb::calc::{parse_i64, Lexer, Parser, TokenKind, TokenValue};

#[test]
fn mod_produce_first() {
    let test_input: String = "4 + 5".to_string();
    let mut test_lexer: Lexer = Lexer::new(test_input);
    let next_token = test_lexer.produce().unwrap();
    assert_eq!(next_token.kind, TokenKind::Integer);
}

#[test]
fn mod_produce_second() {
    let test_input: String = "45 + 53".to_string();
    let mut test_lexer: Lexer = Lexer::new(test_input);
    test_lexer.produce().unwrap();
    let next_token = test_lexer.produce().unwrap();
    assert_eq!(next_token.kind, TokenKind::PlusKw);
}

#[test]
fn mod_produce_int_value() {
    let test_input: String = "432 + 5".to_string();
    let mut test_lexer: Lexer = Lexer::new(test_input);
    let next_token = test_lexer.produce().unwrap();
    match next_token.value {
        TokenValue::Integer(x) => assert_eq!(x, 432),
        _ => assert!(false),
    }
}

#[test]
fn mod_produce_bool_value() {
    let test_input: String = "false".to_string();
    let mut test_lexer: Lexer = Lexer::new(test_input);
    let next_token = test_lexer.produce().unwrap();
    assert_eq!(next_token.kind, TokenKind::Boolean);
    match next_token.value {
        TokenValue::Boolean(x) => assert_eq!(x, false),
        _ => assert!(false),
    }
}

#[test]
fn mod_produce_ident_value() {
    let test_input: String = "x".to_string();
    let mut test_lexer: Lexer = Lexer::new(test_input);
    let next_token = test_lexer.produce().unwrap();
    assert_eq!(next_token.kind, TokenKind::Identifier);
    match next_token.value {
        TokenValue::String(x) => assert_eq!(x, "x"),
        _ => assert!(false),
    }
}

#[test]
fn mod_produce_string_value() {
    let test_input: String = "'I love cats!'".to_string();
    let mut test_lexer: Lexer = Lexer::new(test_input);
    let next_token = test_lexer.produce().unwrap();
    match &next_token.value {
        TokenValue::String(x) => assert_eq!(x, "I love cats!"),
        _ => assert!(false),
    }
    assert_eq!(next_token.kind, TokenKind::String);
}

#[test]
fn mod_produce_eof() {
    let test_input: String = "45 + 53".to_string();
    let mut test_lexer: Lexer = Lexer::new(test_input);
    for _ in 0..3 {
        test_lexer.produce().unwrap();
    }
    let next_token = test_lexer.produce().unwrap();
    assert_eq!(next_token.kind, TokenKind::EOF);
}

#[test]
fn mod_lexer_reset() {
    let test_input: String = "45 + 53".to_string();
    let mut test_lexer: Lexer = Lexer::new(test_input);
    test_lexer.produce().unwrap();
    test_lexer.reset();
    let next_token = test_lexer.produce().unwrap();
    assert_eq!(next_token.kind, TokenKind::Integer);
}

#[test]
fn calc_negative_and_decimal_numbers() {
    let mut test_lexer = Lexer::new("-12 3.5 x1".to_string());
    let t = test_lexer.produce().unwrap();
    assert_eq!(t.value, TokenValue::Integer(-12));
    let t = test_lexer.produce().unwrap();
    assert_eq!(t.kind, TokenKind::Float);
    assert_eq!(t.value, TokenValue::Float("3.5".to_string()));
    let t = test_lexer.produce().unwrap();
    assert_eq!(t.value, TokenValue::String("x1".to_string()));
}

#[test]
fn calc_integer_out_of_range() {
    let mut test_lexer = Lexer::new("99999999999999999999".to_string());
    match test_lexer.produce() {
        Err(e) => assert_eq!(e, "number too large to fit in target type"),
        Ok(_) => assert!(false),
    }
    let mut test_lexer = Lexer::new("# 1".to_string());
    match test_lexer.produce() {
        Err(e) => assert_eq!(e, "Lexing error"),
        Ok(_) => assert!(false),
    }
}

#[test]
fn calc_parse_i64_like_std() {
    for s in ["0", "-0", "+7", "9223372036854775807", "-9223372036854775808", "9223372036854775808",
              "-9223372036854775809", "", "-", "+", "12a", "1 2", "007"] {
        let mine = parse_i64(s);
        let theirs = s.parse::<i64>().map_err(|e| e.to_string());
        assert_eq!(mine, theirs, "on {:?}", s);
    }
}

#[test]
fn calc_parser_cursor() {
    let mut p = Parser::new("x = 4;".to_string()).unwrap();
    assert_eq!(p.peek().kind, TokenKind::Identifier);
    assert!(p.peek_expect(TokenKind::Identifier).is_ok());
    assert_eq!(p.peek_expect(TokenKind::SemiKw).err(), Some("Parsing error".to_string()));
    let t = p.pop_expect(TokenKind::Identifier).unwrap();
    assert_eq!(t.value, TokenValue::String("x".to_string()));
    assert_eq!(p.pop_expect(TokenKind::SemiKw).err(), Some("Parsing error".to_string()));
    assert_eq!(p.peek().kind, TokenKind::Integer);
    assert_eq!(p.pop().unwrap().value, TokenValue::Integer(4));
    assert_eq!(p.pop().unwrap().kind, TokenKind::SemiKw);
    assert_eq!(p.peek().kind, TokenKind::EOF);
    assert!(Parser::new("$".to_string()).is_err());
}

#[test]
fn calc_positions_are_bytes() {
    let mut l = Lexer::new("'ü' 7".to_string());
    let t = l.produce().unwrap();
    assert_eq!(t.kind, TokenKind::String);
    assert_eq!((t.start, t.end), (0, 4));
    let t = l.produce().unwrap();
    assert_eq!((t.start, t.end), (5, 6));
    let t = l.produce().unwrap();
    assert_eq!(t.kind, TokenKind::EOF);
    assert_eq!((t.start, t.end), (6, 6));
}
