use json_parser::error::JsonError;
use json_parser::parser::Parser;
use json_parser::token::tokenizer::{Token, Tokenizer};
use json_parser::types::{Decimal, Num};
use json_parser::JsonType;

#[test]
fn it_should_parse_one_depth_json() {
    let json = r#"
{ 
    "key1": "value1",
    "key2": 5,
    "key3": 15.13,
    "key4": false,
    "key5": true
}"#;
    let tokenizer = Tokenizer::new(json);
    let mut parser = Parser::new(tokenizer);
    let json = parser.parse_tokens().unwrap();
    assert_eq!(*json.key("key1"), JsonType::Str("value1".to_string()));
    assert_eq!(*json.key("key2"), JsonType::Num(Num::Integer(5)));
    assert_eq!(*json.key("key3"), JsonType::Num(Num::Float(Decimal::new("15", "13"))));
    assert_eq!(*json.key("key4"), JsonType::Bool(false));
    assert_eq!(*json.key("key5"), JsonType::Bool(true));
}

#[test]
fn it_should_parse_nested_object_json() {
    let json = r#"
{ 
    "key1": "value1",
    "key2": {
        "key21": "Hello",
        "key22": "World"
    }
}"#;
    let tokenizer = Tokenizer::new(json);
    let mut parser = Parser::new(tokenizer);
    let json = parser.parse_tokens().unwrap();
    assert_eq!(*json.key("key1"), JsonType::Str("value1".to_string()));
    let nested_object = json.key("key2");
    if let JsonType::Object(nested_object) = nested_object {
        println!("obj: {:?}", nested_object);
        assert_eq!(*nested_object.key("key21"), JsonType::Str("Hello".to_string()));
        assert_eq!(*nested_object.key("key22"), JsonType::Str("World".to_string()));
    } else {
        panic!("json[\"key2\"] should be an object");
    }
}

#[test]
fn it_should_return_an_error_when_not_starting_from_curbly_bracket() {
    let json = "\"a\"{";
    let tokenizer = Tokenizer::new(json);
    let mut parser = Parser::new(tokenizer);
    let json = parser.parse_tokens();
    if let Err(error) = json {
        assert_eq!(error, JsonError::UnexpectedToken(Token::Str("a".to_string())));
    } else {
        panic!("Expect error")
    }
}

#[test]
fn parsing_starts_at_the_tokenizer_position() {
    let mut tokenizer = Tokenizer::new("[1] [2]");
    for _ in 0..3 {
        tokenizer.next();
    }
    let mut parser = Parser::new(tokenizer);
    let json = parser.parse_tokens().unwrap();
    assert_eq!(json, JsonType::Array(vec![JsonType::Num(Num::Integer(2))]));
}
