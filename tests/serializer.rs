use json_parser::serializer::serialize_json;
use json_parser::types::{Decimal, Num, Object};
use json_parser::{to_string, JsonType};

#[test]
fn it_should_serialize_string() {
    let input = JsonType::Str("Hello, World".to_string());
    let result = serialize_json(&input).unwrap();

    assert_eq!("\"Hello, World\"", result);
}

#[test]
fn it_should_serialize_num() {
    let input = JsonType::Num(Num::Integer(54));
    let result = serialize_json(&input).unwrap();

    assert_eq!("54", result);
}

#[test]
fn it_should_serialize_bool() {
    let input = JsonType::Bool(true);
    let result = serialize_json(&input).unwrap();

    assert_eq!("true", result);
}

#[test]
fn it_should_serialize_array() {
    let v = vec![JsonType::Str("hello".to_string()), JsonType::Bool(true)];
    let input = JsonType::Array(v);
    let result = serialize_json(&input).unwrap();

    assert_eq!("[\"hello\",true]", result);
}

#[test]
fn it_should_serialize_object() {
    let v = Object {
        data: vec![
            ("key1".to_string(), JsonType::Str("hello".to_string())),
            ("key2".to_string(), JsonType::Bool(true)),
        ],
    };
    let input = JsonType::Object(Box::new(v));
    let result = serialize_json(&input).unwrap();

    assert_eq!("{\"key1\":\"hello\",\"key2\":true}", result);
}

#[test]
fn it_should_serialize_jsontype() {
    let v = Object {
        data: vec![
            ("key1".to_string(), JsonType::Str("hello".to_string())),
            ("key2".to_string(), JsonType::Bool(true)),
        ],
    };
    let input = JsonType::Object(Box::new(v));
    let result: String = to_string(input).unwrap();

    assert_eq!("{\"key1\":\"hello\",\"key2\":true}", result);
}

#[test]
fn integers_are_written_in_decimal() {
    let cases = [
        (0i64, "0"),
        (7, "7"),
        (10, "10"),
        (1234567890, "1234567890"),
        (-42, "-42"),
        (i64::MAX, "9223372036854775807"),
        (i64::MIN, "-9223372036854775808"),
    ];
    for (n, text) in cases {
        assert_eq!(serialize_json(&JsonType::Num(Num::Integer(n))).unwrap(), text);
    }
}

#[test]
fn floats_keep_their_point() {
    let input = JsonType::Num(Num::Float(Decimal::new("5", "0")));
    assert_eq!(serialize_json(&input).unwrap(), "5.0");
    let input = JsonType::Num(Num::Float(Decimal::new("15", "13")));
    assert_eq!(serialize_json(&input).unwrap(), "15.13");
}

#[test]
fn empty_containers_are_written_as_brackets() {
    assert_eq!(serialize_json(&JsonType::Array(vec![])).unwrap(), "[]");
    let empty = JsonType::Object(Box::new(Object::new(vec![])));
    assert_eq!(serialize_json(&empty).unwrap(), "{}");
    assert_eq!(serialize_json(&JsonType::Bool(false)).unwrap(), "false");
}

#[test]
fn nested_containers_are_written_in_order() {
    let inner = Object::new(vec![
        ("b".to_string(), JsonType::Num(Num::Integer(1))),
        ("a".to_string(), JsonType::Array(vec![JsonType::Bool(false), JsonType::Array(vec![])])),
    ]);
    let outer = JsonType::Array(vec![
        JsonType::Object(Box::new(inner)),
        JsonType::Str("x y".to_string()),
    ]);
    assert_eq!(serialize_json(&outer).unwrap(), "[{\"b\":1,\"a\":[false,[]]},\"x y\"]");
}

#[test]
fn number_text() {
    assert_eq!(Num::Integer(-3).serialize(), "-3");
    assert_eq!(Num::Integer(54).serialize(), "54");
    assert_eq!(Num::Float(Decimal::new("0", "125")).serialize(), "0.125");
}

#[test]
fn cloned_tree_is_equal() {
    let tree = JsonType::Object(Box::new(Object::new(vec![
        ("a".to_string(), JsonType::Array(vec![JsonType::Num(Num::Integer(1))])),
        ("b".to_string(), JsonType::Num(Num::Float(Decimal::new("2", "5")))),
    ])));
    let copy = tree.clone();
    assert_eq!(copy, tree);
    assert_eq!(serialize_json(&copy).unwrap(), "{\"a\":[1],\"b\":2.5}");
}
