use json_parser::error::JsonError;
use json_parser::token::tokenizer::Token;
use json_parser::types::{Decimal, Num, Object};
use json_parser::{from_string, parse, to_string, Deserialize, JsonType, Serialize};

struct Person {
    name: String,
}

impl Deserialize for Person {
    fn deserialize(data: JsonType) -> Result<Person, JsonError> {
        if let JsonType::Object(obj) = &data {
            for (key, value) in &obj.data {
                if key == "name" {
                    if let JsonType::Str(name) = value {
                        return Ok(Person { name: name.to_string() });
                    }
                }
            }
        }
        Err(JsonError::DeserializationError("Cannot find field string name in Json".to_string()))
    }
}

impl Serialize for Person {
    fn serialize(&self) -> JsonType {
        let v = vec![("name".to_string(), JsonType::Str(self.name.clone()))];
        JsonType::Object(Box::new(Object::new(v)))
    }
}

#[test]
fn flat_object_lookups() {
    let json: JsonType =
        from_string(r#"{"key1":"value1","key2":5,"key3":1.1,"key5":false,"key6":true}"#).unwrap();
    assert_eq!(*json.key("key1"), JsonType::Str("value1".to_string()));
    assert_eq!(*json.key("key2"), JsonType::Num(Num::Integer(5)));
    assert_eq!(*json.key("key3"), JsonType::Num(Num::Float(Decimal::new("1", "1"))));
    assert_eq!(*json.key("key5"), JsonType::Bool(false));
    assert_eq!(*json.key("key6"), JsonType::Bool(true));
}

#[test]
fn flat_object_reads_back_after_writing() {
    let text = "{ \"a\" : \"x\",\n\t\"b\": 12, \"c\": 3.50, \"d\": true }";
    let json = parse(text).unwrap();
    let written = to_string(json.clone()).unwrap();
    assert_eq!(written, "{\"a\":\"x\",\"b\":12,\"c\":3.50,\"d\":true}");
    let again = parse(&written).unwrap();
    assert_eq!(again, json);
    for key in ["a", "b", "c", "d"] {
        assert_eq!(again.key(key), json.key(key));
    }
}

#[test]
fn written_tree_parses_to_itself() {
    let tree = JsonType::Array(vec![
        JsonType::Object(Box::new(Object::new(vec![
            ("k".to_string(), JsonType::Num(Num::Float(Decimal::new("5", "0")))),
            ("e".to_string(), JsonType::Object(Box::new(Object::new(vec![])))),
        ]))),
        JsonType::Num(Num::Integer(0)),
        JsonType::Array(vec![]),
        JsonType::Str("true".to_string()),
    ]);
    let text = to_string(tree.clone()).unwrap();
    let back: JsonType = from_string(&text).unwrap();
    assert_eq!(back, tree);
}

#[test]
fn duplicate_keys_find_the_first() {
    let json = parse(r#"{"a":1,"a":2}"#).unwrap();
    assert_eq!(*json.key("a"), JsonType::Num(Num::Integer(1)));
}

#[test]
fn integer_and_float_stay_apart() {
    let five = parse("[5]").unwrap();
    let five_point_zero = parse("[5.0]").unwrap();
    assert_eq!(*five.item(0), JsonType::Num(Num::Integer(5)));
    assert_eq!(*five_point_zero.item(0), JsonType::Num(Num::Float(Decimal::new("5", "0"))));
    assert_ne!(five, five_point_zero);
}

#[test]
fn trailing_comma_in_object_fails() {
    assert_eq!(parse(r#"{"a":1,}"#), Err(JsonError::InvalidComaEndObjectError));
    assert_eq!(parse("{\"a\":1,  \n}"), Err(JsonError::InvalidComaEndObjectError));
}

#[test]
fn trailing_comma_in_array_fails() {
    assert_eq!(parse("[1,2,]"), Err(JsonError::InvalidComaEndObjectError));
    assert_eq!(parse(r#"{"a":[true, ]}"#), Err(JsonError::InvalidComaEndObjectError));
}

#[test]
fn empty_input_fails() {
    assert_eq!(parse(""), Err(JsonError::EmptyInput));
    assert_eq!(parse(" \n\t"), Err(JsonError::EmptyInput));
}

#[test]
fn bare_string_root_fails() {
    assert_eq!(parse("\"a\"{"), Err(JsonError::UnexpectedToken(Token::Str("a".to_string()))));
    assert_eq!(parse("5"), Err(JsonError::UnexpectedToken(Token::Int(5))));
}

#[test]
fn nested_object_parses_to_nested_tree() {
    let json = parse(r#"{"a":{"b":1}}"#).unwrap();
    let inner = Object::new(vec![("b".to_string(), JsonType::Num(Num::Integer(1)))]);
    let outer = Object::new(vec![("a".to_string(), JsonType::Object(Box::new(inner)))]);
    assert_eq!(json, JsonType::Object(Box::new(outer)));
    assert_eq!(*json.key("a").key("b"), JsonType::Num(Num::Integer(1)));
}

#[test]
fn array_lookup_by_index() {
    let json = parse(r#"{"items":[1,2,3]}"#).unwrap();
    assert_eq!(*json.key("items").item(0), JsonType::Num(Num::Integer(1)));
    assert_eq!(*json.key("items").item(2), JsonType::Num(Num::Integer(3)));
}

#[test]
fn empty_containers_parse() {
    assert_eq!(parse("{}"), Ok(JsonType::Object(Box::new(Object::new(vec![])))));
    assert_eq!(parse("[ ]"), Ok(JsonType::Array(vec![])));
    assert_eq!(parse(r#"{"a":[],"b":{}}"#).unwrap().key("a"), &JsonType::Array(vec![]));
}

#[test]
fn trailing_text_after_root_is_not_read() {
    assert_eq!(parse("[1] garbage @"), Ok(JsonType::Array(vec![JsonType::Num(Num::Integer(1))])));
}

#[test]
fn malformed_inputs_give_their_errors() {
    assert_eq!(parse("{1:2}"), Err(JsonError::KeyError(Token::Int(1))));
    assert_eq!(parse(r#"{"a" 1}"#), Err(JsonError::CollonError(Token::Int(1))));
    assert_eq!(parse(r#"{"a":}"#), Err(JsonError::ValueError(Token::CloseCurlybracket)));
    assert_eq!(parse("[1 2]"), Err(JsonError::ComaError(Token::Int(2))));
    assert_eq!(parse(r#"{"a":1 "b":2}"#), Err(JsonError::EndObjectError(Token::Str("b".to_string()))));
    assert_eq!(parse(r#"{"a":1"#), Err(JsonError::UnexpectedEndOfJson));
    assert_eq!(parse("[1,"), Err(JsonError::UnexpectedEndOfJson));
    assert_eq!(parse(r#"{"a"#), Err(JsonError::UnterminatedStringError));
    assert_eq!(parse("[1.2.3]"), Err(JsonError::NumberError("1.2.3".to_string())));
    assert_eq!(
        parse("[9223372036854775808]"),
        Err(JsonError::NumberError("9223372036854775808".to_string()))
    );
    assert_eq!(parse("[-1]"), Err(JsonError::UnknownCharError('-')));
    assert_eq!(parse("[nul]"), Err(JsonError::UnknownCharError('n')));
}

#[test]
fn user_type_round_trip() {
    let person: Person = from_string("{ \n    \"name\": \"Hello World\"\n}").unwrap();
    assert_eq!(person.name, "Hello World");
    let serialized = to_string(person).unwrap();
    assert_eq!(serialized, "{\"name\":\"Hello World\"}");
}

#[test]
fn user_type_rejects_missing_field() {
    let r: Result<Person, JsonError> = from_string(r#"{"age":30}"#);
    assert_eq!(
        r.err(),
        Some(JsonError::DeserializationError("Cannot find field string name in Json".to_string()))
    );
    let r: Result<Person, JsonError> = from_string("[");
    assert_eq!(r.err(), Some(JsonError::UnexpectedEndOfJson));
}

#[test]
fn error_messages_name_the_token() {
    assert_eq!(
        JsonError::UnexpectedToken(Token::Int(-12)).message(),
        "Unexpected token, got: Num: -12"
    );
    assert_eq!(JsonError::EmptyInput.message(), "Empty input string");
    assert_eq!(
        JsonError::CollonError(Token::Float(Decimal::new("1", "5"))).message(),
        "Expected collon ':' but got: Num: 1.5"
    );
    assert_eq!(JsonError::UnknownCharError('x').message(), "Unknown character: x");
}
