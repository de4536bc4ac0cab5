use alexdb::lexer::{Lexer, TokenKind, TokenValue};

fn number(v: &TokenValue) -> f64 {
    match v {
        TokenValue::Number(x) => x.parse::<f64>().unwrap(),
        _ => panic!("not a number"),
    }
}

#[test]
fn test_produce_first() {
    let test_input: String = "4 + 5".to_string();
    let mut test_lexer: Lexer = Lexer::new(test_input);
    let next_token = test_lexer.produce().unwrap();
    assert_eq!(next_token.kind, TokenKind::Number);
}

#[test]
fn test_produce_second() {
    let test_input: String = "45 + 53".to_string();
    let mut test_lexer: Lexer = Lexer::new(test_input);
    test_lexer.produce().unwrap();
    let next_token = test_lexer.produce().unwrap();
    assert_eq!(next_token.kind, TokenKind::PlusKw);
}

#[test]
fn test_produce_int_value() {
    let test_input: String = "432 + 5".to_string();
    let mut test_lexer: Lexer = Lexer::new(test_input);
    let next_token = test_lexer.produce().unwrap();
    match next_token.value {
        TokenValue::Number(_) => assert_eq!(number(&next_token.value), 432.0),
        _ => assert!(false),
    }
}

#[test]
fn test_produce_bool_value() {
    let test_input: String = "false".to_string();
    let mut test_lexer: Lexer = Lexer::new(test_input);
    let next_token = test_lexer.produce().unwrap();
    assert_eq!(next_token.kind, TokenKind::Boolean);
    match next_token.value {
        TokenValue::Boolean(x) => assert_eq!(x, false),
        _ => assert!(false),
    }
}

#[test]
fn produce_bool_value_2() {
    let test_input: String = "true".to_string();
    let mut test_lexer: Lexer = Lexer::new(test_input);
    let next_token = test_lexer.produce().unwrap();
    assert_eq!(next_token.kind, TokenKind::Boolean);
    match next_token.value {
        TokenValue::Boolean(x) => assert_eq!(x, true),
        _ => assert!(false),
    }
}

#[test]
fn test_produce_ident_value() {
    let test_input: String = "x".to_string();
    let mut test_lexer: Lexer = Lexer::new(test_input);
    let next_token = test_lexer.produce().unwrap();
    assert_eq!(next_token.kind, TokenKind::Identifier);
    match next_token.value {
        TokenValue::String(x) => assert_eq!(x, "x"),
        _ => assert!(false),
    }
}

#[test]
fn produce_ident_value_underscore() {
    let test_input: String = "field_two".to_string();
    let mut test_lexer: Lexer = Lexer::new(test_input);
    let next_token = test_lexer.produce().unwrap();
    assert_eq!(next_token.kind, TokenKind::Identifier);
    match next_token.value {
        TokenValue::String(x) => assert_eq!(x, "field_two"),
        _ => assert!(false),
    }
}

#[test]
fn produce_ident_value_number() {
    let test_input: String = "field2".to_string();
    let mut test_lexer: Lexer = Lexer::new(test_input);
    let next_token = test_lexer.produce().unwrap();
    assert_eq!(next_token.kind, TokenKind::Identifier);
    match next_token.value {
        TokenValue::String(x) => assert_eq!(x, "field2"),
        _ => assert!(false),
    }
}

#[test]
fn test_produce_string_value() {
    let test_input: String = "'I love cats!'".to_string();
    let mut test_lexer: Lexer = Lexer::new(test_input);
    let next_token = test_lexer.produce().unwrap();
    match &next_token.value {
        TokenValue::String(x) => assert_eq!(x, "I love cats!"),
        _ => assert!(false),
    }
    assert_eq!(next_token.kind, TokenKind::String);
}

#[test]
fn test_produce_eof() {
    let test_input: String = "45 + 53".to_string();
    let mut test_lexer: Lexer = Lexer::new(test_input);
    for _ in 0..3 {
        test_lexer.produce().unwrap();
    }
    let next_token = test_lexer.produce().unwrap();
    assert_eq!(next_token.kind, TokenKind::EOF);
}

#[test]
fn produce_paren() {
    let test_input: String = "( )".to_string();
    let mut test_lexer: Lexer = Lexer::new(test_input);
    let next_token = test_lexer.produce().unwrap();
    let next_next_token = test_lexer.produce().unwrap();
    assert_eq!(next_token.kind, TokenKind::LParen);
    assert_eq!(next_next_token.kind, TokenKind::RParen);
}

#[test]
fn produce_int_after_plus() {
    let test_input: String = "5 + 15".to_string();
    let mut test_lexer: Lexer = Lexer::new(test_input);
    test_lexer.produce().unwrap();
    test_lexer.produce().unwrap();
    let next_token = test_lexer.produce().unwrap();
    match next_token.value {
        TokenValue::Number(_) => assert_eq!(number(&next_token.value), 15.0),
        _ => assert!(false),
    }
}

#[test]
fn produce_if_kw() {
    let test_input: String = "if true".to_string();
    let mut test_lexer: Lexer = Lexer::new(test_input);
    let next_token = test_lexer.produce().unwrap();
    match next_token.kind {
        TokenKind::IfKw => assert!(true),
        _ => assert!(false),
    }
}

#[test]
fn test_lexer_reset() {
    let test_input: String = "45 + 53".to_string();
    let mut test_lexer: Lexer = Lexer::new(test_input);
    test_lexer.produce().unwrap();
    test_lexer.reset();
    let next_token = test_lexer.produce().unwrap();
    assert_eq!(next_token.kind, TokenKind::Number);
}

#[test]
fn lexer_sort_type() {
    let test_input: String = "ASC".to_string();
    let mut test_lexer: Lexer = Lexer::new(test_input);
    let next_token = test_lexer.produce().unwrap();
    assert_eq!(next_token.kind, TokenKind::SortType);
}

#[test]
fn lexer_positions_count_characters() {
    let mut test_lexer: Lexer = Lexer::new("  ab + 'x y'".to_string());
    let t1 = test_lexer.produce().unwrap();
    assert_eq!((t1.start, t1.end), (2, 4));
    assert_eq!(test_lexer.get_pos(), 4);
    let t2 = test_lexer.produce().unwrap();
    assert_eq!(t2.kind, TokenKind::PlusKw);
    let t3 = test_lexer.produce().unwrap();
    assert_eq!((t3.start, t3.end), (7, 12));
    assert_eq!(test_lexer.remaining_stream(), "");
    let t4 = test_lexer.produce().unwrap();
    assert_eq!(t4.kind, TokenKind::EOF);
    assert_eq!((t4.start, t4.end), (12, 12));
}

#[test]
fn lexer_error_does_not_move() {
    let mut test_lexer: Lexer = Lexer::new("a $".to_string());
    test_lexer.produce().unwrap();
    match test_lexer.produce() {
        Err(e) => assert_eq!(e, "Lexing error"),
        Ok(_) => assert!(false),
    }
    test_lexer.set_pos(0);
    assert_eq!(test_lexer.produce().unwrap().kind, TokenKind::Identifier);
}

#[test]
fn lexer_longest_match_wins() {
    let mut test_lexer: Lexer = Lexer::new("=== == = COMPRESS COMP 3.25 iffy".to_string());
    assert_eq!(test_lexer.produce().unwrap().kind, TokenKind::StrEq);
    assert_eq!(test_lexer.produce().unwrap().kind, TokenKind::Eq);
    assert_eq!(test_lexer.produce().unwrap().kind, TokenKind::AssignKw);
    assert_eq!(test_lexer.produce().unwrap().kind, TokenKind::CompressKw);
    assert_eq!(test_lexer.produce().unwrap().kind, TokenKind::CompKw);
    let n = test_lexer.produce().unwrap();
    assert_eq!(n.value, TokenValue::Number("3.25".to_string()));
    let id = test_lexer.produce().unwrap();
    assert_eq!(id.kind, TokenKind::Identifier);
    assert_eq!(id.value, TokenValue::String("iffy".to_string()));
}

#[test]
fn lexer_positions_are_bytes() {
    let mut l = Lexer::new("'é' x".to_string());
    let t = l.produce().unwrap();
    assert_eq!(t.kind, TokenKind::String);
    assert_eq!((t.start, t.end), (0, 4));
    assert_eq!(l.get_pos(), 4);
    let t = l.produce().unwrap();
    assert_eq!((t.start, t.end), (5, 6));
    assert_eq!(l.get_pos(), 6);
    let t = l.produce().unwrap();
    assert_eq!(t.kind, TokenKind::EOF);
    assert_eq!((t.start, t.end), (6, 6));
    l.set_pos(5);
    assert_eq!(l.get_pos(), 5);
    let t = l.produce().unwrap();
    assert_eq!((t.start, t.end), (5, 6));
    l.set_pos(40);
    assert_eq!(l.get_pos(), 40);
    assert_eq!(l.produce().unwrap().kind, TokenKind::EOF);
    assert_eq!(l.get_pos(), 40);
}
