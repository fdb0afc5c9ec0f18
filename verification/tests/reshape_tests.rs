use reshape::error::ReshapeError;
use reshape::error::Shape;
use reshape::error::PathNotFound;
use reshape::error::WrongValueAtPath;
use reshape::reshape::apply;
use reshape::reshape::apply_dotted;
use reshape::reshape::expect_array;
use reshape::reshape::expect_object;
use reshape::reshape::navigate;
use reshape::reshape::to_array;
use reshape::reshape::to_dict;
use reshape::reshape::Operation;
use reshape::reshape::ToArrayStrategy;
use reshape::Value;

fn s(x: &str) -> String {
    x.to_string()
}

fn num(x: &str) -> Value {
    Value::Number(s(x))
}

fn text(x: &str) -> Value {
    Value::Text(s(x))
}

fn obj(entries: Vec<(&str, Value)>) -> Value {
    Value::Object(entries.into_iter().map(|(k, v)| (s(k), v)).collect())
}

fn boxed(key_field: &str, value_field: &str) -> ToArrayStrategy {
    ToArrayStrategy::Boxed { key_field: s(key_field), value_field: s(value_field) }
}

fn integrate(key_field: &str) -> ToArrayStrategy {
    ToArrayStrategy::Integrate { key_field: s(key_field) }
}

#[test]
fn boxed_emits_one_element_per_entry() {
    let d = obj(vec![("a", num("1")), ("b", Value::Bool(true))]);
    let r = to_array(d, &boxed("key", "value")).unwrap();
    let expected = Value::Array(vec![
        obj(vec![("key", text("a")), ("value", num("1"))]),
        obj(vec![("key", text("b")), ("value", Value::Bool(true))]),
    ]);
    assert_eq!(r, expected);
}

#[test]
fn boxed_on_empty_object_is_empty_array() {
    let r = to_array(obj(vec![]), &boxed("k", "v")).unwrap();
    assert_eq!(r, Value::Array(vec![]));
}

#[test]
fn boxed_with_equal_field_names_keeps_the_value() {
    // With one field name for both, the later field wins, as an object
    // insert would make it.
    let d = obj(vec![("a", num("1"))]);
    let r = to_array(d, &boxed("x", "x")).unwrap();
    assert_eq!(r, Value::Array(vec![obj(vec![("x", num("1"))])]));
}

#[test]
fn integrate_injects_the_key() {
    let d = obj(vec![
        ("x", obj(vec![("p", num("1"))])),
        ("y", obj(vec![("q", num("2"))])),
    ]);
    let r = to_array(d, &integrate("id")).unwrap();
    let expected = Value::Array(vec![
        obj(vec![("p", num("1")), ("id", text("x"))]),
        obj(vec![("q", num("2")), ("id", text("y"))]),
    ]);
    assert_eq!(r, expected);
}

#[test]
fn integrate_then_to_dict_round_trips() {
    let d = obj(vec![
        ("x", obj(vec![("p", num("1"))])),
        ("y", obj(vec![("q", num("2")), ("r", text("z"))])),
    ]);
    let d_again = obj(vec![
        ("x", obj(vec![("p", num("1"))])),
        ("y", obj(vec![("q", num("2")), ("r", text("z"))])),
    ]);
    let arr = to_array(d, &integrate("id")).unwrap();
    let back = to_dict(arr, &s("id")).unwrap();
    assert_eq!(back, d_again);
}

#[test]
fn integrate_rejects_a_colliding_key_field() {
    let d = obj(vec![("a", obj(vec![("id", num("1"))]))]);
    let r = to_array(d, &integrate("id"));
    assert_eq!(r, Err(ReshapeError::KeyFieldCollision { key: s("a") }));
}

#[test]
fn integrate_rejects_a_non_object_value() {
    let d = obj(vec![("a", num("5"))]);
    let r = to_array(d, &integrate("id"));
    assert_eq!(
        r,
        Err(ReshapeError::WrongShape { expected: Shape::Object, at_path: s("a") })
    );
}

#[test]
fn navigate_descends_nested_objects() {
    let d = obj(vec![("a", obj(vec![("b", num("5"))]))]);
    let r = navigate(d, &vec![s("a"), s("b")]);
    assert_eq!(r, Ok(num("5")));
}

#[test]
fn navigate_reports_a_missing_segment() {
    let d = obj(vec![("a", obj(vec![("b", num("5"))]))]);
    let r = navigate(d, &vec![s("a"), s("c")]);
    assert_eq!(
        r,
        Err(ReshapeError::PathNotFound(PathNotFound { at_path: s("c") }))
    );
}

#[test]
fn navigate_reports_a_non_object_on_the_way() {
    let d = obj(vec![("a", num("5"))]);
    let r = navigate(d, &vec![s("a"), s("b")]);
    assert_eq!(
        r,
        Err(ReshapeError::NotAnObject(WrongValueAtPath { at_path: s("b") }))
    );
}

#[test]
fn navigate_with_no_segments_returns_the_value() {
    let r = navigate(num("7"), &vec![]);
    assert_eq!(r, Ok(num("7")));
}

#[test]
fn to_array_rejects_a_non_object_target() {
    let r = to_array(text("hello"), &boxed("k", "v"));
    assert_eq!(
        r,
        Err(ReshapeError::WrongShape { expected: Shape::Object, at_path: s("") })
    );
}

#[test]
fn to_array_rejects_an_array_target() {
    let r = to_array(Value::Array(vec![num("1")]), &boxed("k", "v"));
    assert_eq!(
        r,
        Err(ReshapeError::WrongShape { expected: Shape::Object, at_path: s("") })
    );
}

#[test]
fn to_array_on_null_reports_the_wrong_shape() {
    // With no input source the document is null, and reshaping it fails.
    let r = apply(Value::Null, &Operation::ToArray { strategy: boxed("k", "v") }, &None);
    assert_eq!(
        r,
        Err(ReshapeError::WrongShape { expected: Shape::Object, at_path: s("") })
    );
}

#[test]
fn to_dict_keys_elements_by_the_extracted_field() {
    let arr = Value::Array(vec![
        obj(vec![("id", text("x")), ("p", num("1"))]),
        obj(vec![("id", text("y")), ("q", num("2"))]),
    ]);
    let r = to_dict(arr, &s("id")).unwrap();
    let expected = obj(vec![
        ("x", obj(vec![("p", num("1"))])),
        ("y", obj(vec![("q", num("2"))])),
    ]);
    assert_eq!(r, expected);
}

#[test]
fn to_dict_rejects_duplicate_keys() {
    let arr = Value::Array(vec![
        obj(vec![("id", text("a")), ("p", num("1"))]),
        obj(vec![("id", text("a")), ("q", num("2"))]),
    ]);
    let r = to_dict(arr, &s("id"));
    assert_eq!(r, Err(ReshapeError::DuplicateKey { key: s("a") }));
}

#[test]
fn to_dict_rejects_a_missing_key_field() {
    let arr = Value::Array(vec![obj(vec![("p", num("1"))])]);
    let r = to_dict(arr, &s("id"));
    assert_eq!(r, Err(ReshapeError::MissingKeyField { field: s("id") }));
}

#[test]
fn to_dict_rejects_a_non_string_key() {
    let arr = Value::Array(vec![obj(vec![("id", num("3"))])]);
    let r = to_dict(arr, &s("id"));
    assert_eq!(r, Err(ReshapeError::NonStringKey { field: s("id") }));
}

#[test]
fn to_dict_rejects_a_non_object_element() {
    let arr = Value::Array(vec![num("1")]);
    let r = to_dict(arr, &s("id"));
    assert_eq!(
        r,
        Err(ReshapeError::WrongShape { expected: Shape::Object, at_path: s("") })
    );
}

#[test]
fn to_dict_rejects_a_non_array_target() {
    let r = to_dict(obj(vec![]), &s("id"));
    assert_eq!(
        r,
        Err(ReshapeError::WrongShape { expected: Shape::Array, at_path: s("") })
    );
}

#[test]
fn expect_object_hands_the_entries_out() {
    let r = expect_object(obj(vec![("a", num("1"))]));
    assert_eq!(r, Ok(vec![(s("a"), num("1"))]));
    let r = expect_object(Value::Null);
    assert_eq!(
        r,
        Err(ReshapeError::WrongShape { expected: Shape::Object, at_path: s("") })
    );
}

#[test]
fn expect_array_hands_the_elements_out() {
    let r = expect_array(Value::Array(vec![num("1"), text("x")]));
    assert_eq!(r, Ok(vec![num("1"), text("x")]));
    let r = expect_array(obj(vec![]));
    assert_eq!(
        r,
        Err(ReshapeError::WrongShape { expected: Shape::Array, at_path: s("") })
    );
}

#[test]
fn apply_navigates_before_reshaping() {
    let d = obj(vec![(
        "a",
        obj(vec![("b", obj(vec![("k", num("1"))]))]),
    )]);
    let r = apply(
        d,
        &Operation::ToArray { strategy: boxed("key", "value") },
        &Some(vec![s("a"), s("b")]),
    )
    .unwrap();
    assert_eq!(
        r,
        Value::Array(vec![obj(vec![("key", text("k")), ("value", num("1"))])])
    );
}

#[test]
fn apply_propagates_navigation_errors() {
    let d = obj(vec![("a", num("1"))]);
    let r = apply(
        d,
        &Operation::ToDict { key_field: s("id") },
        &Some(vec![s("b")]),
    );
    assert_eq!(
        r,
        Err(ReshapeError::PathNotFound(PathNotFound { at_path: s("b") }))
    );
}

#[test]
fn apply_dotted_splits_the_path_on_dots() {
    let d = obj(vec![("a", obj(vec![("b", obj(vec![("k", num("1"))]))]))]);
    let path = s("a.b");
    let r = apply_dotted(d, &Operation::ToArray { strategy: boxed("key", "value") }, Some(&path))
        .unwrap();
    assert_eq!(
        r,
        Value::Array(vec![obj(vec![("key", text("k")), ("value", num("1"))])])
    );
}

#[test]
fn apply_dotted_without_a_path_uses_the_whole_document() {
    let d = obj(vec![("a", num("1"))]);
    let r = apply_dotted(d, &Operation::ToArray { strategy: boxed("k", "v") }, None).unwrap();
    assert_eq!(r, Value::Array(vec![obj(vec![("k", text("a")), ("v", num("1"))])]));
}
