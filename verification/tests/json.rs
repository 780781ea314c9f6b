use prompt_cache::json::{get_member, insert_member, remove_member, Number, Value};
use prompt_cache::stable_json::{add_member, render_object, stable_json};

fn text(s: &str) -> Value {
    Value::String(s.to_string())
}

fn object(members: Vec<(&str, Value)>) -> Value {
    Value::Object(members.into_iter().map(|(k, v)| (k.to_string(), v)).collect())
}

#[test]
fn scalars_are_rendered() {
    assert_eq!(stable_json(&Value::Null), "null");
    assert_eq!(stable_json(&Value::Bool(true)), "true");
    assert_eq!(stable_json(&Value::Bool(false)), "false");
    assert_eq!(stable_json(&Value::Number(Number::PosInt(u64::MAX))), "18446744073709551615");
    assert_eq!(stable_json(&Value::Number(Number::NegInt(i64::MIN))), "-9223372036854775808");
    assert_eq!(stable_json(&Value::Number(Number::NegInt(5))), "5");
    assert_eq!(stable_json(&Value::Number(Number::Float("1.5e-7".to_string()))), "1.5e-7");
    assert_eq!(stable_json(&Value::integer(0)), "0");
    assert_eq!(stable_json(&Value::integer(-17)), "-17");
}

#[test]
fn strings_are_escaped() {
    let all: String = (0u8..128).map(|b| b as char).collect();
    assert_eq!(stable_json(&text(&all)), serde_json::to_string(&all).unwrap());
    assert_eq!(
        stable_json(&text("q\" b\\ \u{8}\u{c}\n\r\t \u{1}\u{1f} é \u{1f600}/")),
        "\"q\\\" b\\\\ \\b\\f\\n\\r\\t \\u0001\\u001f é \u{1f600}/\""
    );
    assert_eq!(stable_json(&text("")), "\"\"");
}

#[test]
fn members_are_rendered_in_order_of_key() {
    let value = object(vec![
        ("b", Value::Array(vec![Value::integer(1), Value::Null, object(vec![])])),
        ("", text("empty")),
        ("a\"", object(vec![("z", Value::integer(2)), ("y", Value::integer(-3))])),
        ("B", Value::Array(vec![])),
        ("ab", Value::Bool(true)),
    ]);
    assert_eq!(
        stable_json(&value),
        "{\"\":\"empty\",\"B\":[],\"a\\\"\":{\"y\":-3,\"z\":2},\"ab\":true,\"b\":[1,null,{}]}"
    );
}

#[test]
fn rendering_ignores_the_order_of_members() {
    let one = object(vec![
        ("x", Value::Array(vec![object(vec![("p", Value::Null), ("q", Value::integer(1))])])),
        ("y", text("t")),
    ]);
    let other = object(vec![
        ("y", text("t")),
        ("x", Value::Array(vec![object(vec![("q", Value::integer(1)), ("p", Value::Null)])])),
    ]);
    assert_ne!(one, other);
    assert_eq!(stable_json(&one), stable_json(&other));
}

#[test]
fn items_keep_their_order() {
    let one = Value::Array(vec![Value::integer(1), Value::integer(2)]);
    let other = Value::Array(vec![Value::integer(2), Value::integer(1)]);
    assert_eq!(stable_json(&one), "[1,2]");
    assert_eq!(stable_json(&other), "[2,1]");
}

#[test]
fn rendered_members_make_an_object() {
    let mut members = Vec::new();
    add_member(&mut members, "type", "\"text\"".to_string());
    add_member(&mut members, "index", "3".to_string());
    assert_eq!(render_object(&members), "{\"index\":3,\"type\":\"text\"}");
    assert_eq!(render_object(&Vec::new()), "{}");
}

#[test]
fn members_are_looked_up_set_and_taken_out() {
    let mut value = object(vec![("a", Value::integer(1)), ("b", text("two"))]);
    assert_eq!(value.get("a").and_then(|v| v.as_i64()), Some(1));
    assert_eq!(value.get_str("b"), Some("two"));
    assert_eq!(value.get_str("a"), None);
    assert_eq!(value.get("c"), None);
    assert_eq!(text("a").get("a"), None);
    if let Value::Object(members) = &mut value {
        insert_member(members, "a", Value::Null);
        insert_member(members, "c", Value::Bool(true));
        remove_member(members, "b");
        remove_member(members, "missing");
        assert_eq!(get_member(members, "c"), Some(&Value::Bool(true)));
    }
    assert_eq!(value, object(vec![("a", Value::Null), ("c", Value::Bool(true))]));
}

#[test]
fn whole_numbers_are_read_within_64_bits() {
    assert_eq!(Value::Number(Number::PosInt(i64::MAX as u64)).as_i64(), Some(i64::MAX));
    assert_eq!(Value::Number(Number::PosInt(i64::MAX as u64 + 1)).as_i64(), None);
    assert_eq!(Value::Number(Number::NegInt(-5)).as_i64(), Some(-5));
    assert_eq!(Value::Number(Number::Float("1.0".to_string())).as_i64(), None);
    assert_eq!(text("1").as_i64(), None);
    assert_eq!(text("1").as_str(), Some("1"));
    assert_eq!(Value::Null.as_str(), None);
}

#[test]
fn different_values_are_rendered_differently() {
    let number = |n: i64| Value::integer(n);
    let values = vec![
        Value::Null,
        Value::Bool(true),
        Value::Bool(false),
        text("null"),
        text("true"),
        text(""),
        text("\u{1}"),
        text("\\u0001"),
        text("a\",\"b"),
        number(0),
        number(1),
        number(-1),
        number(12),
        text("12"),
        Value::Number(Number::Float("12.0".to_string())),
        Value::Array(vec![]),
        Value::Array(vec![number(12)]),
        Value::Array(vec![number(1), number(2)]),
        Value::Array(vec![number(2), number(1)]),
        Value::Array(vec![Value::Array(vec![number(1)]), number(2)]),
        Value::Array(vec![Value::Array(vec![number(1), number(2)])]),
        Value::Array(vec![text("a"), text("b")]),
        object(vec![]),
        object(vec![("a", Value::Null)]),
        object(vec![("a", object(vec![]))]),
        object(vec![("a", Value::Null), ("b", Value::Null)]),
        object(vec![("a", object(vec![("b", Value::Null)]))]),
        object(vec![("a\":null,\"b", Value::Null)]),
    ];
    for (i, a) in values.iter().enumerate() {
        for (j, b) in values.iter().enumerate() {
            assert_eq!(stable_json(a) == stable_json(b), i == j, "{a:?} {b:?}");
        }
    }
}

#[test]
fn a_rendering_is_parsed_back() {
    let value = object(vec![
        ("z", Value::Array(vec![Value::integer(-3), text("q\"\\\n\u{1}é"), Value::Null])),
        ("a", object(vec![("n", Value::Number(Number::PosInt(u64::MAX))), ("b", Value::Bool(true))])),
    ]);
    let parsed: serde_json::Value = serde_json::from_str(&stable_json(&value)).unwrap();
    let mut inner = serde_json::Map::new();
    inner.insert("b".to_string(), true.into());
    inner.insert("n".to_string(), u64::MAX.into());
    let mut outer = serde_json::Map::new();
    outer.insert(
        "z".to_string(),
        serde_json::Value::Array(vec![
            (-3).into(),
            "q\"\\\n\u{1}é".into(),
            serde_json::Value::Null,
        ]),
    );
    outer.insert("a".to_string(), serde_json::Value::Object(inner));
    assert_eq!(parsed, serde_json::Value::Object(outer));
}
