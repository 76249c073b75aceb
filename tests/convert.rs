use lua_ui::convert::{is_admissible, json_to_lua, lua_value_to_json, ConversionError};
use lua_ui::value::{JsonValue, LuaKey, LuaValue};

fn text(s: &str) -> LuaValue {
    LuaValue::Text(s.to_string())
}

fn jstr(s: &str) -> JsonValue {
    JsonValue::String(s.to_string())
}

fn key(s: &str) -> LuaKey {
    LuaKey::Text(s.to_string())
}

fn same(a: &JsonValue, b: &JsonValue) -> bool {
    match (a, b) {
        (JsonValue::Null, JsonValue::Null) => true,
        (JsonValue::Bool(x), JsonValue::Bool(y)) => x == y,
        (JsonValue::Int(x), JsonValue::Int(y)) => x == y,
        (JsonValue::Float(x), JsonValue::Float(y)) => x == y,
        (JsonValue::String(x), JsonValue::String(y)) => x == y,
        (JsonValue::Array(x), JsonValue::Array(y)) => {
            x.len() == y.len() && x.iter().zip(y.iter()).all(|(p, q)| same(p, q))
        }
        (JsonValue::Object(x), JsonValue::Object(y)) => {
            x.len() == y.len()
                && x.iter().zip(y.iter()).all(|(p, q)| p.0 == q.0 && same(&p.1, &q.1))
        }
        _ => false,
    }
}

fn convert(v: &LuaValue) -> JsonValue {
    match lua_value_to_json(v) {
        Ok(j) => j,
        Err(_) => panic!("conversion failed"),
    }
}

#[test]
fn sparse_table_pads_with_null() {
    let t = LuaValue::Table(vec![
        (LuaKey::Int(1), text("a")),
        (LuaKey::Int(2), text("b")),
        (LuaKey::Int(4), text("d")),
    ]);
    let expected = JsonValue::Array(vec![jstr("a"), jstr("b"), JsonValue::Null, jstr("d")]);
    assert!(same(&convert(&t), &expected));
}

#[test]
fn array_order_follows_keys_not_iteration() {
    let t = LuaValue::Table(vec![
        (LuaKey::Int(3), text("c")),
        (LuaKey::Int(1), text("a")),
        (LuaKey::Int(2), text("b")),
    ]);
    let expected = JsonValue::Array(vec![jstr("a"), jstr("b"), jstr("c")]);
    assert!(same(&convert(&t), &expected));
}

#[test]
fn mixed_table_keeps_integer_entry_under_decimal_name() {
    let t = LuaValue::Table(vec![(LuaKey::Int(1), text("a")), (key("x"), text("y"))]);
    let expected = JsonValue::Object(vec![
        ("1".to_string(), jstr("a")),
        ("x".to_string(), jstr("y")),
    ]);
    assert!(same(&convert(&t), &expected));
}

#[test]
fn empty_table_is_empty_object() {
    let t = LuaValue::Table(vec![]);
    assert!(same(&convert(&t), &JsonValue::Object(vec![])));
}

#[test]
fn zero_key_makes_table_object_like() {
    let t = LuaValue::Table(vec![(LuaKey::Int(0), text("z")), (LuaKey::Int(1), text("a"))]);
    let expected = JsonValue::Object(vec![
        ("0".to_string(), jstr("z")),
        ("1".to_string(), jstr("a")),
    ]);
    assert!(same(&convert(&t), &expected));
}

#[test]
fn negative_key_renders_with_sign() {
    let t = LuaValue::Table(vec![(LuaKey::Int(-42), LuaValue::Boolean(true))]);
    let expected = JsonValue::Object(vec![("-42".to_string(), JsonValue::Bool(true))]);
    assert!(same(&convert(&t), &expected));
}

#[test]
fn colliding_names_last_write_wins_in_place() {
    let t = LuaValue::Table(vec![
        (LuaKey::Int(7), text("first")),
        (key("k"), text("kept")),
        (key("7"), text("second")),
    ]);
    let expected = JsonValue::Object(vec![
        ("7".to_string(), jstr("second")),
        ("k".to_string(), jstr("kept")),
    ]);
    assert!(same(&convert(&t), &expected));
}

#[test]
fn other_key_kinds_use_their_diagnostic_text() {
    let t = LuaValue::Table(vec![(LuaKey::Other("Boolean(true)".to_string()), LuaValue::Integer(3))]);
    let expected = JsonValue::Object(vec![("Boolean(true)".to_string(), JsonValue::Int(3))]);
    assert!(same(&convert(&t), &expected));
}

#[test]
fn scalars_convert() {
    assert!(same(&convert(&LuaValue::Nil), &JsonValue::Null));
    assert!(same(&convert(&LuaValue::Boolean(false)), &JsonValue::Bool(false)));
    assert!(same(&convert(&LuaValue::Integer(-5)), &JsonValue::Int(-5)));
    assert!(same(&convert(&text("hi")), &jstr("hi")));
    assert!(same(&convert(&LuaValue::Opaque("function: 0x1".to_string())), &JsonValue::Null));
    let f = 1.5f64.to_bits();
    assert!(same(&convert(&LuaValue::Number(f)), &JsonValue::Float(f)));
}

#[test]
fn non_finite_float_becomes_zero() {
    let zero = JsonValue::Float(0.0f64.to_bits());
    assert!(same(&convert(&LuaValue::Number(f64::NAN.to_bits())), &zero));
    assert!(same(&convert(&LuaValue::Number(f64::INFINITY.to_bits())), &zero));
    assert!(same(&convert(&LuaValue::Number(f64::NEG_INFINITY.to_bits())), &zero));
}

#[test]
fn invalid_text_fails() {
    let r = lua_value_to_json(&LuaValue::Bytes(vec![0xff, 0xfe]));
    assert!(matches!(r, Err(ConversionError::InvalidText)));
    let nested = LuaValue::Table(vec![(LuaKey::Int(1), LuaValue::Bytes(vec![0xc3]))]);
    assert!(matches!(lua_value_to_json(&nested), Err(ConversionError::InvalidText)));
    let bad_key = LuaValue::Table(vec![(LuaKey::Bytes(vec![0xff]), LuaValue::Integer(1))]);
    assert!(matches!(lua_value_to_json(&bad_key), Err(ConversionError::InvalidText)));
}

#[test]
fn to_dynamic_keys_arrays_from_one_and_drops_nulls() {
    let arr = JsonValue::Array(vec![jstr("a"), JsonValue::Null, JsonValue::Int(3)]);
    match json_to_lua(&arr) {
        LuaValue::Table(es) => {
            assert_eq!(es.len(), 2);
            assert!(matches!(es[0], (LuaKey::Int(1), LuaValue::Text(ref s)) if s == "a"));
            assert!(matches!(es[1], (LuaKey::Int(3), LuaValue::Integer(3))));
        }
        _ => panic!("expected a table"),
    }
}

#[test]
fn to_dynamic_objects_use_string_keys_in_order() {
    let obj = JsonValue::Object(vec![
        ("b".to_string(), JsonValue::Bool(true)),
        ("a".to_string(), JsonValue::Null),
        ("1".to_string(), JsonValue::Int(1)),
    ]);
    match json_to_lua(&obj) {
        LuaValue::Table(es) => {
            assert_eq!(es.len(), 2);
            assert!(matches!(es[0], (LuaKey::Text(ref k), LuaValue::Boolean(true)) if k == "b"));
            assert!(matches!(es[1], (LuaKey::Text(ref k), LuaValue::Integer(1)) if k == "1"));
        }
        _ => panic!("expected a table"),
    }
}

#[test]
fn metadata_round_trip() {
    let doc = JsonValue::Object(vec![
        ("a".to_string(), JsonValue::Int(1)),
        (
            "b".to_string(),
            JsonValue::Array(vec![JsonValue::Bool(true), JsonValue::Null, jstr("x")]),
        ),
    ]);
    let back = convert(&json_to_lua(&doc));
    assert!(same(&back, &doc));
}

#[test]
fn round_trip_on_nested_values() {
    let doc = JsonValue::Array(vec![
        JsonValue::Object(vec![("k".to_string(), JsonValue::Float(2.5f64.to_bits()))]),
        JsonValue::Array(vec![JsonValue::Int(i64::MIN), JsonValue::Int(i64::MAX)]),
        jstr("ü"),
        JsonValue::Bool(false),
    ]);
    assert!(same(&convert(&json_to_lua(&doc)), &doc));
    assert!(same(&convert(&json_to_lua(&jstr("plain"))), &jstr("plain")));
    assert!(same(&convert(&json_to_lua(&JsonValue::Int(-9))), &JsonValue::Int(-9)));
}

#[test]
fn admissibility_of_structured_values() {
    let ok = JsonValue::Object(vec![
        ("a".to_string(), JsonValue::Float(1.25f64.to_bits())),
        ("b".to_string(), JsonValue::Array(vec![JsonValue::Null])),
    ]);
    assert!(is_admissible(&ok));
    let nan = JsonValue::Array(vec![JsonValue::Float(f64::NAN.to_bits())]);
    assert!(!is_admissible(&nan));
    let dup = JsonValue::Object(vec![
        ("k".to_string(), JsonValue::Int(1)),
        ("k".to_string(), JsonValue::Int(2)),
    ]);
    assert!(!is_admissible(&dup));
}

#[test]
fn whole_number_floats_become_integers() {
    let to_int = |f: f64| match json_to_lua(&JsonValue::Float(f.to_bits())) {
        LuaValue::Integer(i) => Some(i),
        LuaValue::Number(bits) => {
            assert_eq!(bits, f.to_bits());
            None
        }
        _ => panic!("expected a number"),
    };
    assert_eq!(to_int(2.0), Some(2));
    assert_eq!(to_int(-7.0), Some(-7));
    assert_eq!(to_int(0.0), Some(0));
    assert_eq!(to_int(-0.0), Some(0));
    assert_eq!(to_int(1e15), Some(1_000_000_000_000_000));
    assert_eq!(to_int(-9223372036854775808.0), Some(i64::MIN));
    assert_eq!(to_int(9223372036854775808.0), None);
    assert_eq!(to_int(2.5), None);
    assert_eq!(to_int(0.5), None);
    assert_eq!(to_int(1e300), None);
    assert_eq!(to_int(f64::MIN_POSITIVE / 4.0), None);
}
