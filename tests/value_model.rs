use bloggo::{parse_yaml_data, Error, Number, Value, ValueMap};

fn string_of(m: &ValueMap, k: &str) -> Option<String> {
    m.get(k).and_then(|v| v.as_string())
}

fn keys_of(m: &ValueMap) -> Vec<String> {
    m.entries().iter().map(|(k, _)| k.clone()).collect()
}

fn mapping(v: Value) -> ValueMap {
    match v {
        Value::Mapping(m) => m,
        other => panic!("not a mapping: {:?}", other),
    }
}

#[test]
fn as_string_gives_the_string_or_none() {
    let string = Value::String("a string".to_string());
    let boolean = Value::Boolean(true);
    assert_eq!(Some("a string".to_string()), string.as_string());
    assert_eq!(None, boolean.as_string());
}

#[test]
fn map_keeps_keys_sorted_and_unique() {
    let mut m = ValueMap::new();
    m.insert("b".to_string(), Value::Boolean(true));
    m.insert("a".to_string(), Value::String("x".to_string()));
    m.insert("c".to_string(), Value::Null);
    m.insert("a".to_string(), Value::String("y".to_string()));
    assert_eq!(keys_of(&m), vec!["a", "b", "c"]);
    assert_eq!(m.len(), 3);
    assert_eq!(string_of(&m, "a"), Some("y".to_string()));
    assert!(m.contains_key("c"));
    assert!(!m.contains_key("d"));
    assert!(m.get("d").is_none());
}

#[test]
fn map_orders_keys_by_code_point() {
    let mut m = ValueMap::new();
    for k in ["é", "z", "Z", "", "ab", "a"] {
        m.insert(k.to_string(), Value::Null);
    }
    assert_eq!(keys_of(&m), vec!["", "Z", "a", "ab", "z", "é"]);
}

#[test]
fn yaml_scalars_convert() {
    let m = mapping(parse_yaml_data("n: 7\nneg: -3\nf: 3.5\nb: true\ns: hi\nz: ~\n").unwrap());
    assert!(matches!(m.get("n"), Some(Value::Number(Number::Integer(7)))));
    assert!(matches!(m.get("neg"), Some(Value::Number(Number::Integer(-3)))));
    match m.get("f") {
        Some(Value::Number(Number::Float(x))) => assert_eq!(x.as_f64(), Some(3.5)),
        other => panic!("not a float: {:?}", other),
    }
    assert!(matches!(m.get("b"), Some(Value::Boolean(true))));
    assert_eq!(string_of(&m, "s"), Some("hi".to_string()));
    assert!(matches!(m.get("z"), Some(Value::Null)));
}

#[test]
fn yaml_integer_beyond_i64_is_a_float() {
    let m = mapping(parse_yaml_data("big: 18446744073709551615\n").unwrap());
    match m.get("big") {
        Some(Value::Number(Number::Float(x))) => assert_eq!(x.as_f64(), Some(18446744073709551615u64 as f64)),
        other => panic!("not a float: {:?}", other),
    }
}

#[test]
fn yaml_sequences_and_nested_maps_convert() {
    let m = mapping(parse_yaml_data("tags: [a, b, 3]\nmeta:\n  z: 1\n  y: two\n").unwrap());
    match m.get("tags") {
        Some(Value::Array(items)) => {
            assert_eq!(items.len(), 3);
            assert_eq!(items[0].as_string(), Some("a".to_string()));
            assert_eq!(items[1].as_string(), Some("b".to_string()));
            assert!(matches!(items[2], Value::Number(Number::Integer(3))));
        }
        other => panic!("not an array: {:?}", other),
    }
    match m.get("meta") {
        Some(Value::Mapping(inner)) => {
            assert_eq!(keys_of(inner), vec!["y", "z"]);
            assert_eq!(string_of(inner, "y"), Some("two".to_string()));
        }
        other => panic!("not a mapping: {:?}", other),
    }
}

#[test]
fn yaml_keys_come_out_sorted() {
    let m = mapping(parse_yaml_data("b: 1\nc: 2\na: 3\n").unwrap());
    assert_eq!(keys_of(&m), vec!["a", "b", "c"]);
}

#[test]
fn yaml_non_string_keys_are_dropped() {
    let m = mapping(parse_yaml_data("1: one\ntrue: yes\nname: x\n").unwrap());
    assert_eq!(keys_of(&m), vec!["name"]);
}

#[test]
fn yaml_tag_is_unwrapped() {
    let m = mapping(parse_yaml_data("x: !Thing 7\ny: !Other [1]\n").unwrap());
    assert!(matches!(m.get("x"), Some(Value::Number(Number::Integer(7)))));
    assert!(matches!(m.get("y"), Some(Value::Array(v)) if v.len() == 1));
}

#[test]
fn yaml_decode_failure_is_reported() {
    match parse_yaml_data("a: [1, 2\n") {
        Err(Error::Other(m)) => assert!(m.starts_with("YAML deserialization failure: ")),
        other => panic!("unexpected: {:?}", other),
    }
}

#[test]
fn value_to_json_keeps_shape() {
    let m = mapping(parse_yaml_data("title: Hi\ncount: 2\ntags: [a]\nnone: ~\nok: false\n").unwrap());
    let j = Value::Mapping(m).to_json();
    assert_eq!(
        j.to_string(),
        r#"{"count":2,"none":null,"ok":false,"tags":["a"],"title":"Hi"}"#
    );
}

#[test]
fn float_to_json_keeps_the_value() {
    let m = mapping(parse_yaml_data("f: 2.5\nn: .nan\n").unwrap());
    let j = Value::Mapping(m).to_json();
    assert_eq!(j.to_string(), r#"{"f":2.5,"n":null}"#);
}

#[test]
fn error_messages() {
    assert_eq!(Error::Other("boom".to_string()).message(), "boom");
    assert_eq!(
        Error::UnexpectedEOF("posts/a.md".to_string()).message(),
        "Unexpected end of file: posts/a.md"
    );
}

#[test]
fn decoded_value_survives_reserializing_and_decoding() {
    let first = parse_yaml_data("title: T\ncount: 3\nratio: 0.25\ntags: [a, b]\nmeta: {k: v}\nflag: true\n").unwrap();
    let text = first.to_json().to_string();
    let second = parse_yaml_data(&text).unwrap();
    assert_eq!(second.to_json().to_string(), text);
    let m = mapping(second);
    assert!(matches!(m.get("count"), Some(Value::Number(Number::Integer(3)))));
    assert!(matches!(m.get("ratio"), Some(Value::Number(Number::Float(_)))));
}

#[test]
fn big_integer_to_json_keeps_the_value() {
    let m = mapping(parse_yaml_data("big: 18446744073709551615\ninf: .inf\n").unwrap());
    assert_eq!(Value::Mapping(m).to_json().to_string(), r#"{"big":18446744073709551615,"inf":null}"#);
}
