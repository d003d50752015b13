use openapi_mcp_bridge::json::{fix_value, JsonNumber, JsonValue};

fn s(x: &str) -> JsonValue {
    JsonValue::String(x.to_string())
}

fn num(text: &str, nonzero: bool) -> JsonValue {
    JsonValue::Number(JsonNumber { text: text.to_string(), nonzero })
}

fn obj(entries: Vec<(&str, JsonValue)>) -> JsonValue {
    JsonValue::Object(entries.into_iter().map(|(k, v)| (k.to_string(), v)).collect())
}

fn same(a: &JsonValue, b: &JsonValue) -> bool {
    match (a, b) {
        (JsonValue::Null, JsonValue::Null) => true,
        (JsonValue::Bool(x), JsonValue::Bool(y)) => x == y,
        (JsonValue::Number(x), JsonValue::Number(y)) => x.text == y.text && x.nonzero == y.nonzero,
        (JsonValue::String(x), JsonValue::String(y)) => x == y,
        (JsonValue::Array(x), JsonValue::Array(y)) => {
            x.len() == y.len() && x.iter().zip(y.iter()).all(|(p, q)| same(p, q))
        }
        (JsonValue::Object(x), JsonValue::Object(y)) => {
            x.len() == y.len()
                && x.iter().zip(y.iter()).all(|(p, q)| p.0 == q.0 && same(&p.1, &q.1))
        }
        _ => false,
    }
}

#[test]
fn parameter_flags_become_booleans() {
    let mut v = obj(vec![
        ("in", s("query")),
        ("name", s("limit")),
        ("required", num("1.0", true)),
        ("deprecated", num("0.0", false)),
        ("nullable", num("0", false)),
    ]);
    fix_value(&mut v);
    let expected = obj(vec![
        ("in", s("query")),
        ("name", s("limit")),
        ("required", JsonValue::Bool(true)),
        ("deprecated", JsonValue::Bool(false)),
        ("nullable", num("0", false)),
    ]);
    assert!(same(&v, &expected), "{:?}", v);
}

#[test]
fn schema_flags_become_booleans() {
    let mut v = obj(vec![
        ("type", s("object")),
        ("required", num("1", true)),
        ("nullable", num("0.0", false)),
        ("readOnly", num("2", true)),
        ("writeOnly", num("0", false)),
        ("uniqueItems", num("1", true)),
        ("exclusiveMinimum", num("1", true)),
        ("exclusiveMaximum", num("0", false)),
        ("allowEmptyValue", num("1", true)),
        ("deprecated", num("1", true)),
        ("minimum", num("0", false)),
    ]);
    fix_value(&mut v);
    let expected = obj(vec![
        ("type", s("object")),
        ("required", num("1", true)),
        ("nullable", JsonValue::Bool(false)),
        ("readOnly", JsonValue::Bool(true)),
        ("writeOnly", JsonValue::Bool(false)),
        ("uniqueItems", JsonValue::Bool(true)),
        ("exclusiveMinimum", JsonValue::Bool(true)),
        ("exclusiveMaximum", JsonValue::Bool(false)),
        ("allowEmptyValue", JsonValue::Bool(true)),
        ("deprecated", JsonValue::Bool(true)),
        ("minimum", num("0", false)),
    ]);
    assert!(same(&v, &expected), "{:?}", v);
}

#[test]
fn repair_reaches_every_depth() {
    let mut v = obj(vec![(
        "paths",
        JsonValue::Array(vec![
            obj(vec![("in", s("path")), ("name", s("id")), ("required", num("1.0", true))]),
            obj(vec![("schema", obj(vec![("nullable", num("1", true))]))]),
            num("0", false),
        ]),
    )]);
    fix_value(&mut v);
    let expected = obj(vec![(
        "paths",
        JsonValue::Array(vec![
            obj(vec![("in", s("path")), ("name", s("id")), ("required", JsonValue::Bool(true))]),
            obj(vec![("schema", obj(vec![("nullable", JsonValue::Bool(true))]))]),
            num("0", false),
        ]),
    )]);
    assert!(same(&v, &expected), "{:?}", v);
}

#[test]
fn non_numeric_flags_are_left_alone() {
    let mut v = obj(vec![
        ("nullable", s("yes")),
        ("readOnly", JsonValue::Bool(false)),
        ("deprecated", JsonValue::Null),
    ]);
    fix_value(&mut v);
    let expected = obj(vec![
        ("nullable", s("yes")),
        ("readOnly", JsonValue::Bool(false)),
        ("deprecated", JsonValue::Null),
    ]);
    assert!(same(&v, &expected));
}

#[test]
fn repair_twice_is_repair_once() {
    let mut once = obj(vec![
        ("in", s("header")),
        ("name", s("X")),
        ("deprecated", num("3", true)),
        ("items", JsonValue::Array(vec![obj(vec![("nullable", num("0", false))])])),
    ]);
    fix_value(&mut once);
    let mut twice = once.deep_copy();
    fix_value(&mut twice);
    assert!(same(&once, &twice));
}

#[test]
fn deep_copy_is_equal() {
    let v = obj(vec![("a", JsonValue::Array(vec![num("1.5", true), s("x"), JsonValue::Null]))]);
    assert!(same(&v, &v.deep_copy()));
}
