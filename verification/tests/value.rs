use jasn::{Binary, Entries, Float, Timestamp, Value};

fn float(text: &str) -> Value {
    Value::Float(Float::from_text(text).unwrap())
}

#[test]
fn test_is_methods() {
    let mut map = Entries::new();
    map.insert("k".to_string(), Value::Null);
    let cases = vec![
        (Value::Null, "null"),
        (Value::Bool(true), "bool"),
        (Value::Int(42), "int"),
        (float("3.14"), "float"),
        (Value::String("hello".to_string()), "string"),
        (Value::Binary(Binary(vec![1, 2, 3])), "binary"),
        (Value::List(vec![Value::Null]), "list"),
        (Value::Mapping(Entries::new()), "map"),
        (Value::Mapping(map), "map"),
        (Value::Timestamp(Timestamp::from_unix_timestamp(0).unwrap()), "timestamp"),
    ];
    for (value, value_type) in cases {
        assert_eq!(value.is_null(), value_type == "null");
        assert_eq!(value.is_bool(), value_type == "bool");
        assert_eq!(value.is_int(), value_type == "int");
        assert_eq!(value.is_float(), value_type == "float");
        assert_eq!(value.is_string(), value_type == "string");
        assert_eq!(value.is_binary(), value_type == "binary");
        assert_eq!(value.is_list(), value_type == "list");
        assert_eq!(value.is_map(), value_type == "map");
        assert_eq!(value.is_timestamp(), value_type == "timestamp");
    }
}

#[test]
fn test_as_bool() {
    assert_eq!(Value::Bool(true).as_bool(), Some(true));
    assert_eq!(Value::Null.as_bool(), None);
}

#[test]
fn test_as_int() {
    assert_eq!(Value::Int(42).as_int(), Some(42));
    assert_eq!(float("3.14").as_int(), None);
}

#[test]
fn test_as_float() {
    let value = float("3.14");
    let held: f64 = value.as_float().unwrap().as_str().parse().unwrap();
    assert_eq!(held, 3.14);
    assert_eq!(Value::Int(42).as_float(), None);
}

#[test]
fn test_as_string() {
    assert_eq!(
        Value::String("hello".to_string()).as_string(),
        Some("hello")
    );
    assert_eq!(Value::Null.as_string(), None);
}

#[test]
fn test_as_binary() {
    let binary = Binary(vec![1, 2, 3]);
    let binary_val = Value::Binary(binary.clone());
    assert_eq!(binary_val.as_binary(), Some(&binary));
    assert_eq!(Value::Null.as_binary(), None);
}

#[test]
fn test_as_list() {
    let list = vec![Value::Int(1), Value::Int(2)];
    let list_val = Value::List(list.clone());
    assert_eq!(list_val.as_list().map(|l| l.as_slice()), Some(list.as_slice()));
    assert_eq!(Value::Null.as_list(), None);
}

#[test]
fn test_as_map() {
    let mut map = Entries::new();
    map.insert("key".to_string(), Value::Int(42));
    let map_val = Value::Mapping(map.clone());
    assert_eq!(map_val.as_map(), Some(&map));
    assert_eq!(Value::Null.as_map(), None);
}

#[test]
fn test_from_primitives() {
    assert_eq!(Value::from(()), Value::Null);
    assert_eq!(Value::from(true), Value::Bool(true));
    assert_eq!(Value::from(42i64), Value::Int(42));
    assert_eq!(Value::from(Float::from_text("3.14").unwrap()), float("3.14"));
    assert_eq!(
        Value::from("hello".to_string()),
        Value::String("hello".to_string())
    );
    assert_eq!(Value::from("world"), Value::String("world".to_string()));
}

#[test]
fn test_from_conversions() {
    // From Binary
    let binary = Binary(vec![1, 2, 3]);
    assert_eq!(Value::from(binary.clone()), Value::Binary(binary));

    // Value::Binary from byte literal
    let value = Value::Binary(b"data".into());
    assert_eq!(value, Value::Binary(Binary(b"data".to_vec())));

    // From Vec
    let vec = vec![Value::from(1i64), Value::from(2i64), Value::from(3i64)];
    let list_val = Value::from(vec);
    assert_eq!(
        list_val,
        Value::List(vec![Value::Int(1), Value::Int(2), Value::Int(3)])
    );

    // From entries
    let mut entries = Entries::new();
    entries.insert("b".to_string(), Value::Int(2));
    entries.insert("a".to_string(), Value::Int(1));
    let map_val = Value::from(entries);
    let mut expected_map = Entries::new();
    expected_map.insert("a".to_string(), Value::Int(1));
    expected_map.insert("b".to_string(), Value::Int(2));
    assert_eq!(map_val, Value::Mapping(expected_map));

    // From a timestamp
    let ts = Timestamp::from_unix_timestamp(1).unwrap();
    assert_eq!(Value::from(ts), Value::Timestamp(ts));
}

#[test]
fn test_default() {
    assert_eq!(Value::default(), Value::Null);
}

#[test]
fn test_mutable_accessors() {
    // as_list_mut
    let mut list_val = Value::List(vec![Value::Int(1), Value::Int(2)]);
    if let Some(list) = list_val.as_list_mut() {
        list.push(Value::Int(3));
        list[0] = Value::Int(10);
    }
    assert_eq!(
        list_val,
        Value::List(vec![Value::Int(10), Value::Int(2), Value::Int(3)])
    );

    // as_list_mut returns None for non-list
    let mut int_val = Value::Int(42);
    assert_eq!(int_val.as_list_mut(), None);

    // as_map_mut
    let mut map_val = Value::Mapping(Entries::new());
    if let Some(map) = map_val.as_map_mut() {
        map.insert("key".to_string(), Value::Int(42));
        let previous = map.insert("key".to_string(), Value::Int(99));
        assert_eq!(previous, Some(Value::Int(42)));
    }
    let mut expected = Entries::new();
    expected.insert("key".to_string(), Value::Int(99));
    assert_eq!(map_val, Value::Mapping(expected));

    // as_map_mut returns None for non-map
    assert_eq!(int_val.as_map_mut(), None);
}

#[test]
fn test_take() {
    let mut value = Value::Int(42);
    let taken = value.take();
    assert_eq!(taken, Value::Int(42));
    assert_eq!(value, Value::Null);

    let mut list = Value::List(vec![Value::Int(1), Value::Int(2)]);
    let taken = list.take();
    assert_eq!(taken, Value::List(vec![Value::Int(1), Value::Int(2)]));
    assert_eq!(list, Value::Null);

    // Taking from Null leaves Null
    let mut null = Value::Null;
    let taken = null.take();
    assert_eq!(taken, Value::Null);
    assert_eq!(null, Value::Null);
}

#[test]
fn test_partial_eq_string() {
    let string_val = Value::String("hello".to_string());
    assert_eq!(string_val, "hello");
    assert_eq!(string_val, "hello".to_string());
    assert_ne!(string_val, "world");
}

#[test]
fn test_partial_eq_int() {
    let int_val = Value::Int(42);
    assert_eq!(int_val, 42i64);
    assert_ne!(int_val, 43i64);
}

#[test]
fn test_partial_eq_float() {
    let float_val = float("3.14");
    let held: f64 = float_val.as_float().unwrap().as_str().parse().unwrap();
    assert_eq!(held, 3.14f64);
    assert_ne!(held, 2.71f64);
    assert_eq!(float_val, float("3.14"));
    assert_ne!(float_val, float("2.71"));
}

#[test]
fn test_partial_eq_bool() {
    let bool_val = Value::Bool(true);
    assert_eq!(bool_val, true);
    assert_ne!(bool_val, false);
}

#[test]
fn test_partial_eq_mismatched_types() {
    let int_val = Value::Int(42);
    let string_val = Value::String("hello".to_string());
    assert_ne!(int_val, "42");
    assert_ne!(string_val, 42i64);
}

#[test]
fn entries_stay_in_key_order_whatever_the_insertion_order() {
    let mut map = Entries::new();
    assert!(map.is_empty());
    assert_eq!(map.insert("zebra".to_string(), Value::Int(1)), None);
    assert_eq!(map.insert("apple".to_string(), Value::Int(2)), None);
    assert_eq!(map.insert("banana".to_string(), Value::Int(3)), None);
    assert_eq!(map.insert("apple".to_string(), Value::Int(4)), Some(Value::Int(2)));
    assert_eq!(map.len(), 3);
    assert_eq!(map.key_at(0), "apple");
    assert_eq!(map.key_at(1), "banana");
    assert_eq!(map.key_at(2), "zebra");
    assert_eq!(map.value_at(0), &Value::Int(4));
    assert_eq!(map.get("banana"), Some(&Value::Int(3)));
    assert_eq!(map.get("cherry"), None);
    assert!(map.contains_key("zebra"));
    assert!(!map.contains_key("zebr"));
    assert!(!map.contains_key("zebras"));
}

#[test]
fn entries_order_keys_by_their_bytes() {
    let mut map = Entries::new();
    map.insert("b".to_string(), Value::Null);
    map.insert("B".to_string(), Value::Null);
    map.insert("\u{e9}".to_string(), Value::Null);
    map.insert("".to_string(), Value::Null);
    map.insert("ab".to_string(), Value::Null);
    map.insert("a".to_string(), Value::Null);
    let keys: Vec<String> = (0..map.len()).map(|i| map.key_at(i).clone()).collect();
    let mut sorted = keys.clone();
    sorted.sort();
    assert_eq!(keys, sorted);
    assert_eq!(keys, vec!["", "B", "a", "ab", "b", "\u{e9}"]);
}

#[test]
fn clone_copies_the_whole_tree() {
    let mut map = Entries::new();
    map.insert("list".to_string(), Value::List(vec![Value::Int(1), float("2.5")]));
    map.insert("bin".to_string(), Value::Binary(Binary(vec![1, 2])));
    let value = Value::Mapping(map);
    let copy = value.clone();
    assert_eq!(copy, value);
    assert_eq!(value.duplicate(), value);
}

#[test]
fn float_spellings() {
    assert_eq!(Float::from_text("+2.5").unwrap().as_str(), "2.5");
    assert_eq!(Float::from_text("-2.5").unwrap().as_str(), "-2.5");
    assert_eq!(Float::from_text("1e10").unwrap().as_str(), "1e10");
    assert_eq!(Float::from_text("1.5E-3").unwrap().as_str(), "1.5E-3");
    assert_eq!(Float::from_text(".5").unwrap().as_str(), ".5");
    assert_eq!(Float::from_text("5.").unwrap().as_str(), "5.");
    assert_eq!(Float::from_text("INF").unwrap().as_str(), "inf");
    assert_eq!(Float::from_text("+Inf").unwrap().as_str(), "inf");
    assert_eq!(Float::from_text("-iNf").unwrap().as_str(), "-inf");
    assert_eq!(Float::from_text("-NaN").unwrap().as_str(), "nan");
    assert_eq!(Float::from_text("+nan").unwrap().as_str(), "nan");
    assert!(Float::from_text("nan").unwrap().is_nan());
    assert!(Float::from_text("-inf").unwrap().is_infinite());
    assert!(Float::from_text("-inf").unwrap().is_sign_negative());
    assert!(!Float::from_text("inf").unwrap().is_sign_negative());
    assert!(Float::infinity().is_infinite());
    assert!(Float::neg_infinity().is_sign_negative());
    assert!(Float::nan().is_nan());
    for bad in ["", ".", "1", "42", "e5", "1e", "1e+", "1.5.2", "--1.5", "1_0.5", "infinity", "0x1.8", "+", "1.0 "] {
        assert!(Float::from_text(bad).is_none(), "{:?}", bad);
    }
}

#[test]
fn timestamps_hold_instant_and_offset() {
    let ts = Timestamp::new(1_234_567_890_123_456_789, 3600).unwrap();
    assert_eq!(ts.unix_timestamp_nanos(), 1_234_567_890_123_456_789);
    assert_eq!(ts.offset_seconds(), 3600);
    assert_eq!(ts.to_rfc3339(), "2009-02-14T00:31:30.123456789+01:00");
    assert!(Timestamp::new(i128::MAX, 0).is_none());
    assert!(Timestamp::new(0, 100 * 3600).is_none());
    let parsed = Timestamp::parse("2024-01-15T12:30:45-05:00").unwrap();
    assert_eq!(parsed.offset_seconds(), -5 * 3600);
    assert_eq!(parsed.unix_timestamp_nanos(), 1_705_339_845_000_000_000);
    assert!(Timestamp::parse("2024-01-15 12:30:45").is_err());
    assert!(Timestamp::parse("2024-01-15T12:30:45").is_err());
    assert_eq!(Timestamp::from_unix_timestamp_nanos(5).unwrap().unix_timestamp_nanos(), 5);
}
