use confmap::store::ConfigStore;
use confmap::value::{ConfigNum, ConfigValue};

fn loaded(doc: &str) -> ConfigStore {
    let mut store = ConfigStore::new();
    store.load_str(doc);
    store
}

#[test]
fn it_works() {
    let data = r#"
    {
        "testGetString": "YesMan",
        "testGetInt64": 43,
        "testGetStringArray": [
            "+44 1234567",
            "+44 2345678"
        ]
    }"#;
    let store = loaded(data);
    assert_eq!(Some("YesMan".to_string()), store.get_string("testGetString"));
    assert_eq!(Some(43), store.get_int64("testGetInt64"));
    assert_eq!(
        Some(vec!["+44 1234567".to_string(), "+44 2345678".to_string()]),
        store.get_string_array("testGetStringArray")
    );
}

#[test]
fn typed_accessors_on_well_formed_object() {
    let store = loaded(r#"{"a": "x", "b": 43, "c": ["p","q"]}"#);
    assert_eq!(store.get_string("a"), Some("x".to_string()));
    assert_eq!(store.get_int64("b"), Some(43));
    assert_eq!(
        store.get_string_array("c"),
        Some(vec!["p".to_string(), "q".to_string()])
    );
}

#[test]
fn wrong_accessor_returns_absent() {
    let store = loaded(r#"{"a": "x", "b": 43, "t": true}"#);
    assert_eq!(store.get_string("b"), None);
    assert_eq!(store.get_int64("a"), None);
    assert_eq!(store.get_bool("b"), None);
    assert_eq!(store.get_string_array("a"), None);
    assert_eq!(store.get_int64_array("b"), None);
    assert!(store.get_map("t").is_none());
    assert!(store.get_array("t").is_none());
}

#[test]
fn missing_key_returns_absent() {
    let store = loaded(r#"{"a": "x"}"#);
    assert!(store.get("nope").is_none());
    assert_eq!(store.get_string("nope"), None);
    assert_eq!(store.get_bool("nope"), None);
    assert_eq!(store.get_int64("nope"), None);
    assert_eq!(store.get_i32("nope"), None);
    assert_eq!(store.get_i16("nope"), None);
    assert_eq!(store.get_int8("nope"), None);
    assert_eq!(store.get_string_array("nope"), None);
    assert_eq!(store.get_int64_array("nope"), None);
    assert!(store.get_number("nope").is_none());
    assert!(store.get_number_array("nope").is_none());
    assert!(store.get_array("nope").is_none());
    assert!(store.get_map("nope").is_none());
}

#[test]
fn mixed_array_keeps_strings_in_order() {
    let store = loaded(r#"{"c": ["p", 1, "q"]}"#);
    assert_eq!(
        store.get_string_array("c"),
        Some(vec!["p".to_string(), "q".to_string()])
    );
}

#[test]
fn mixed_array_keeps_ints_in_order() {
    let store = loaded(r#"{"c": [1, "p", 2, 3.5, 4]}"#);
    assert_eq!(store.get_int64_array("c"), Some(vec![1, 2, 4]));
}

#[test]
fn narrowing_in_range_is_identity() {
    let store = loaded(r#"{"n": 300, "m": -1}"#);
    assert_eq!(store.get_i32("n"), Some(300));
    assert_eq!(store.get_i16("n"), Some(300));
    assert_eq!(store.get_i32("m"), Some(-1));
    assert_eq!(store.get_i16("m"), Some(-1));
    assert_eq!(store.get_int8("m"), Some(-1));
}

#[test]
fn narrowing_out_of_range_truncates() {
    let store = loaded(r#"{"n": 300, "big": 9223372036854775807}"#);
    assert_eq!(store.get_int8("n"), Some(300i64 as i8));
    assert_eq!(store.get_int8("n"), Some(44));
    assert_eq!(store.get_int8("big"), Some(-1));
    assert_eq!(store.get_i32("big"), Some(-1));
    assert_eq!(store.get_i16("big"), Some(-1));
}

#[test]
fn int64_bounds() {
    let store = loaded(r#"{"u": 18446744073709551615, "min": -9223372036854775808}"#);
    assert_eq!(store.get_int64("u"), None);
    match store.get_number("u") {
        Some(ConfigNum::UInt(u)) => assert_eq!(u, 18446744073709551615),
        other => panic!("expected an unsigned number, got {:?}", other.is_some()),
    }
    assert_eq!(store.get_int64("min"), Some(i64::MIN));
}

#[test]
fn float_numbers_carry_decimal_text() {
    let store = loaded(r#"{"f": 1.5}"#);
    assert_eq!(store.get_int64("f"), None);
    match store.get_number("f") {
        Some(ConfigNum::Float(s)) => {
            assert_eq!(s, "1.5");
            assert_eq!(s.parse::<f64>().unwrap(), 1.5f64);
        },
        _ => panic!("expected a floating-point number"),
    }
}

#[test]
fn number_array_keeps_numbers_in_order() {
    let store = loaded(r#"{"arr": [1, 2.5, "x", -3]}"#);
    let nums = store.get_number_array("arr").expect("array expected");
    assert_eq!(nums.len(), 3);
    assert!(matches!(nums[0], ConfigNum::Int(1)));
    assert!(matches!(&nums[1], ConfigNum::Float(s) if s == "2.5"));
    assert!(matches!(nums[2], ConfigNum::Int(-3)));
}

#[test]
fn get_returns_the_stored_value() {
    let store = loaded(r#"{"a": null, "b": true}"#);
    assert!(matches!(store.get("a"), Some(ConfigValue::Null)));
    assert!(matches!(store.get("b"), Some(ConfigValue::Bool(true))));
    assert!(store.get("c").is_none());
}

#[test]
fn get_array_keeps_only_objects() {
    let store = loaded(r#"{"a": [{"x": 1}, 2, "s", {"y": 2}]}"#);
    let objs = store.get_array("a").expect("array expected");
    assert_eq!(objs.len(), 2);
    assert!(matches!(objs[0], ConfigValue::Obj(_)));
    assert!(matches!(objs[1], ConfigValue::Obj(_)));
}

#[test]
fn get_map_returns_object_entries() {
    let store = loaded(r#"{"m": {"k1": 1, "k2": "v"}}"#);
    let entries = store.get_map("m").expect("object expected");
    assert_eq!(entries.len(), 2);
    assert_eq!(entries[0].0, "k1");
    assert!(matches!(entries[0].1, ConfigValue::Num(ConfigNum::Int(1))));
    assert_eq!(entries[1].0, "k2");
    assert!(matches!(&entries[1].1, ConfigValue::Str(s) if s == "v"));
}

#[test]
fn nested_values_survive_the_round_trip() {
    let store = loaded(r#"{"deep": {"inner": [true, {"leaf": "end"}]}}"#);
    let entries = store.get_map("deep").expect("object expected");
    assert_eq!(entries[0].0, "inner");
    match &entries[0].1 {
        ConfigValue::Arr(items) => {
            assert!(matches!(items[0], ConfigValue::Bool(true)));
            match &items[1] {
                ConfigValue::Obj(inner) => {
                    assert_eq!(inner[0].0, "leaf");
                    assert!(matches!(&inner[0].1, ConfigValue::Str(s) if s == "end"));
                },
                _ => panic!("expected an object"),
            }
        },
        _ => panic!("expected an array"),
    }
}

#[test]
fn unicode_keys_and_values() {
    let store = loaded("{\"caf\u{e9}\": \"\u{fc}ber\"}");
    assert_eq!(store.get_string("caf\u{e9}"), Some("\u{fc}ber".to_string()));
}
