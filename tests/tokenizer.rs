use json_parser::token::tokenizer::{Token, Tokenizer};
use json_parser::types::Decimal;

#[test]
fn it_should_return_next_basic_token() {
    let json = r#" { } [ ]  ,"#;
    let mut tokenizer = Tokenizer::new(json);

    assert_eq!(Token::OpenCurlybracket, tokenizer.next().unwrap().unwrap());
    assert_eq!(Token::CloseCurlybracket, tokenizer.next().unwrap().unwrap());
    assert_eq!(Token::OpenBracket, tokenizer.next().unwrap().unwrap());
    assert_eq!(Token::CloseBracket, tokenizer.next().unwrap().unwrap());
    assert_eq!(Token::Comma, tokenizer.next().unwrap().unwrap());
    assert_eq!(None, tokenizer.next());
}

#[test]
fn it_should_return_next_token() {
    let json = r#"
{ 
    "key1": "value1",
    "key2": 5,
    "key3": 1.1,
    "key4": 15.13,
    "key5": false,
    "key6": true
}"#;
    let mut tokenizer = Tokenizer::new(json);

    assert_eq!(Token::OpenCurlybracket, tokenizer.next().unwrap().unwrap());

    assert_eq!(Token::Str("key1".to_string()), tokenizer.next().unwrap().unwrap());
    assert_eq!(Token::Colon, tokenizer.next().unwrap().unwrap());
    assert_eq!(Token::Str("value1".to_string()), tokenizer.next().unwrap().unwrap());
    assert_eq!(Token::Comma, tokenizer.next().unwrap().unwrap());

    assert_eq!(Token::Str("key2".to_string()), tokenizer.next().unwrap().unwrap());
    assert_eq!(Token::Colon, tokenizer.next().unwrap().unwrap());
    assert_eq!(Token::Int(5), tokenizer.next().unwrap().unwrap());
    assert_eq!(Token::Comma, tokenizer.next().unwrap().unwrap());

    assert_eq!(Token::Str("key3".to_string()), tokenizer.next().unwrap().unwrap());
    assert_eq!(Token::Colon, tokenizer.next().unwrap().unwrap());
    assert_eq!(Token::Float(Decimal::new("1", "1")), tokenizer.next().unwrap().unwrap());
    assert_eq!(Token::Comma, tokenizer.next().unwrap().unwrap());

    assert_eq!(Token::Str("key4".to_string()), tokenizer.next().unwrap().unwrap());
    assert_eq!(Token::Colon, tokenizer.next().unwrap().unwrap());
    assert_eq!(Token::Float(Decimal::new("15", "13")), tokenizer.next().unwrap().unwrap());
    assert_eq!(Token::Comma, tokenizer.next().unwrap().unwrap());

    assert_eq!(Token::Str("key5".to_string()), tokenizer.next().unwrap().unwrap());
    assert_eq!(Token::Colon, tokenizer.next().unwrap().unwrap());
    assert_eq!(Token::Bool(false), tokenizer.next().unwrap().unwrap());
    assert_eq!(Token::Comma, tokenizer.next().unwrap().unwrap());

    assert_eq!(Token::Str("key6".to_string()), tokenizer.next().unwrap().unwrap());
    assert_eq!(Token::Colon, tokenizer.next().unwrap().unwrap());
    assert_eq!(Token::Bool(true), tokenizer.next().unwrap().unwrap());

    assert_eq!(Token::CloseCurlybracket, tokenizer.next().unwrap().unwrap());

    assert_eq!(None, tokenizer.next());
}

#[test]
fn it_should_tokenize_object() {
    let json = r#"
{ 
    "key1": 5,
    "key2": {
        "key21": 15,
        "key22": false
    }
}"#;
    let mut tokenizer = Tokenizer::new(json);

    assert_eq!(Token::OpenCurlybracket, tokenizer.next().unwrap().unwrap());

    assert_eq!(Token::Str("key1".to_string()), tokenizer.next().unwrap().unwrap());
    assert_eq!(Token::Colon, tokenizer.next().unwrap().unwrap());
    assert_eq!(Token::Int(5), tokenizer.next().unwrap().unwrap());
    assert_eq!(Token::Comma, tokenizer.next().unwrap().unwrap());

    assert_eq!(Token::Str("key2".to_string()), tokenizer.next().unwrap().unwrap());
    assert_eq!(Token::Colon, tokenizer.next().unwrap().unwrap());

    assert_eq!(Token::OpenCurlybracket, tokenizer.next().unwrap().unwrap());

    assert_eq!(Token::Str("key21".to_string()), tokenizer.next().unwrap().unwrap());
    assert_eq!(Token::Colon, tokenizer.next().unwrap().unwrap());
    assert_eq!(Token::Int(15), tokenizer.next().unwrap().unwrap());
    assert_eq!(Token::Comma, tokenizer.next().unwrap().unwrap());

    assert_eq!(Token::Str("key22".to_string()), tokenizer.next().unwrap().unwrap());
    assert_eq!(Token::Colon, tokenizer.next().unwrap().unwrap());
    assert_eq!(Token::Bool(false), tokenizer.next().unwrap().unwrap());

    assert_eq!(Token::CloseCurlybracket, tokenizer.next().unwrap().unwrap());
    assert_eq!(Token::CloseCurlybracket, tokenizer.next().unwrap().unwrap());

    assert_eq!(None, tokenizer.next());
}

#[test]
fn it_should_tokenize_array() {
    let json = r#"
{ 
    "key1": 5,
    "key2": [1, 2, 3]
}"#;
    let mut tokenizer = Tokenizer::new(json);

    assert_eq!(Token::OpenCurlybracket, tokenizer.next().unwrap().unwrap());

    assert_eq!(Token::Str("key1".to_string()), tokenizer.next().unwrap().unwrap());
    assert_eq!(Token::Colon, tokenizer.next().unwrap().unwrap());
    assert_eq!(Token::Int(5), tokenizer.next().unwrap().unwrap());
    assert_eq!(Token::Comma, tokenizer.next().unwrap().unwrap());

    assert_eq!(Token::Str("key2".to_string()), tokenizer.next().unwrap().unwrap());
    assert_eq!(Token::Colon, tokenizer.next().unwrap().unwrap());

    assert_eq!(Token::OpenBracket, tokenizer.next().unwrap().unwrap());
    assert_eq!(Token::Int(1), tokenizer.next().unwrap().unwrap());
    assert_eq!(Token::Comma, tokenizer.next().unwrap().unwrap());
    assert_eq!(Token::Int(2), tokenizer.next().unwrap().unwrap());
    assert_eq!(Token::Comma, tokenizer.next().unwrap().unwrap());
    assert_eq!(Token::Int(3), tokenizer.next().unwrap().unwrap());

    assert_eq!(Token::CloseBracket, tokenizer.next().unwrap().unwrap());
    assert_eq!(Token::CloseCurlybracket, tokenizer.next().unwrap().unwrap());

    assert_eq!(None, tokenizer.next());
}

#[test]
fn peeking_a_closing_brace_consumes_nothing() {
    let mut tokenizer = Tokenizer::new(" \n }]");
    assert!(tokenizer.is_next_token_closing_curly_bracket());
    assert!(!tokenizer.is_next_token_closing_bracket());
    assert_eq!(Token::CloseCurlybracket, tokenizer.next().unwrap().unwrap());
    assert!(tokenizer.is_next_token_closing_bracket());
    assert!(!tokenizer.is_next_token_closing_curly_bracket());
}

#[test]
fn loose_boolean_word_is_a_string_token() {
    let mut tokenizer = Tokenizer::new("tru fals truex");
    assert_eq!(Token::Str("tru".to_string()), tokenizer.next().unwrap().unwrap());
    assert_eq!(Token::Str("fals".to_string()), tokenizer.next().unwrap().unwrap());
    assert_eq!(Token::Bool(true), tokenizer.next().unwrap().unwrap());
}

#[test]
fn largest_integer_is_scanned() {
    let mut tokenizer = Tokenizer::new("9223372036854775807 0 007");
    assert_eq!(Token::Int(i64::MAX), tokenizer.next().unwrap().unwrap());
    assert_eq!(Token::Int(0), tokenizer.next().unwrap().unwrap());
    assert_eq!(Token::Int(7), tokenizer.next().unwrap().unwrap());
    assert_eq!(None, tokenizer.next());
}

#[test]
fn float_keeps_its_digits() {
    let mut tokenizer = Tokenizer::new("5.0 1. 0.25");
    assert_eq!(Token::Float(Decimal::new("5", "0")), tokenizer.next().unwrap().unwrap());
    assert_eq!(Token::Float(Decimal::new("1", "")), tokenizer.next().unwrap().unwrap());
    assert_eq!(Token::Float(Decimal::new("0", "25")), tokenizer.next().unwrap().unwrap());
}
