use reverse_flat::error::{DecodeError, LeafError};
use reverse_flat::schema::{FieldSchema, LeafKind, RecordSchema};
use reverse_flat::value::Value;

fn root(name: &str, kind: LeafKind) -> FieldSchema {
    FieldSchema::Root { name: name.to_string(), kind }
}

fn nested(name: &str, prefix: &str, optional: bool, schema: RecordSchema) -> FieldSchema {
    FieldSchema::Nested { name: name.to_string(), prefix: prefix.to_string(), optional, schema }
}

fn record(fields: Vec<FieldSchema>) -> RecordSchema {
    RecordSchema { fields }
}

fn obj(entries: Vec<(&str, Value)>) -> Value {
    Value::Obj(entries.into_iter().map(|(k, v)| (k.to_string(), v)).collect())
}

fn s(text: &str) -> Value {
    Value::Str(text.to_string())
}

#[test]
fn normal() {
    let schema = record(vec![root("content", LeafKind::Str)]);
    let data = obj(vec![("content", s("Hello, world!"))]);

    let processed = schema.decode(&data);
    assert!(processed.is_ok());
    assert_eq!(processed.unwrap().get("content"), Some(&s("Hello, world!")));
}

#[test]
fn simple_flat() {
    let flatted = record(vec![root("content", LeafKind::Str)]);
    let schema = record(vec![nested("flatted", "flatted", false, flatted)]);
    let data = obj(vec![("flatted_content", s("Hello, world!"))]);

    let processed = schema.decode(&data);
    assert!(processed.is_ok());
    let data = processed.unwrap();
    let inner = data.get("flatted").unwrap();
    assert_eq!(inner.get("content"), Some(&s("Hello, world!")));
}

#[test]
fn flat_with_root_properties() {
    let flatted = record(vec![root("content", LeafKind::Str)]);
    let schema = record(vec![
        nested("flatted", "flatted", false, flatted),
        root("root", LeafKind::Str),
    ]);
    let data = obj(vec![
        ("flatted_content", s("Hello, world!")),
        ("root", s("Hello, root!")),
    ]);

    let processed = schema.decode(&data);
    assert!(processed.is_ok());
    let processed = processed.unwrap();

    assert_eq!(processed.get("flatted").unwrap().get("content"), Some(&s("Hello, world!")));
    assert_eq!(processed.get("root"), Some(&s("Hello, root!")));
}

#[test]
fn flat_recursive() {
    let second = record(vec![root("message", LeafKind::Str)]);
    let flatted = record(vec![nested("content", "content", false, second)]);
    let schema = record(vec![nested("flatted", "flatted", false, flatted)]);
    let data = obj(vec![("flatted_content_message", s("Hello, world!"))]);

    let processed = schema.decode(&data);
    assert!(processed.is_ok());
    let processed = processed.unwrap();
    let inner = processed.get("flatted").unwrap().get("content").unwrap();
    assert_eq!(inner.get("message"), Some(&s("Hello, world!")));
}

#[test]
fn root_only_projection_keeps_values() {
    let schema = record(vec![
        root("first", LeafKind::Str),
        root("second", LeafKind::Int),
        root("third", LeafKind::Bool),
    ]);
    let data = obj(vec![
        ("third", Value::Bool(true)),
        ("first", s("one")),
        ("second", Value::Int(2)),
        ("ignored", s("extra")),
    ]);

    let decoded = schema.decode(&data).unwrap();
    assert_eq!(
        decoded,
        obj(vec![
            ("first", s("one")),
            ("second", Value::Int(2)),
            ("third", Value::Bool(true)),
        ])
    );
}

#[test]
fn declaration_order_does_not_matter_for_values() {
    let data = obj(vec![
        ("flatted_content", s("Hello, world!")),
        ("root", s("Hello, root!")),
    ]);

    let forward = record(vec![
        nested("flatted", "flatted", false, record(vec![root("content", LeafKind::Str)])),
        root("root", LeafKind::Str),
    ]);
    let backward = record(vec![
        root("root", LeafKind::Str),
        nested("flatted", "flatted", false, record(vec![root("content", LeafKind::Str)])),
    ]);

    let a = forward.decode(&data).unwrap();
    let b = backward.decode(&data).unwrap();
    assert_eq!(a.get("root"), b.get("root"));
    assert_eq!(a.get("flatted"), b.get("flatted"));
}

#[test]
fn required_nested_without_matching_keys_fails() {
    let flatted = record(vec![root("content", LeafKind::Str)]);
    let schema = record(vec![nested("flatted", "flatted", false, flatted)]);
    let data = obj(vec![("unrelated", s("value"))]);

    assert_eq!(
        schema.decode(&data),
        Err(DecodeError::NestedDecodeFailed {
            field: "flatted".to_string(),
            cause: Box::new(DecodeError::LeafDecodeFailed {
                field: "content".to_string(),
                cause: LeafError::MissingKey,
            }),
        })
    );
}

#[test]
fn optional_nested_without_matching_keys_resolves_to_null() {
    let flatted = record(vec![root("content", LeafKind::Str)]);
    let schema = record(vec![
        nested("flatted", "flatted", true, flatted),
        root("root", LeafKind::Str),
    ]);
    let data = obj(vec![("root", s("still here"))]);

    let decoded = schema.decode(&data).unwrap();
    assert_eq!(decoded.get("flatted"), Some(&Value::Null));
    assert_eq!(decoded.get("root"), Some(&s("still here")));
}

#[test]
fn non_object_scope_is_rejected() {
    let schema = record(vec![root("content", LeafKind::Str)]);

    assert_eq!(schema.decode(&s("just text")), Err(DecodeError::NotAnObject));
    assert_eq!(schema.decode(&Value::Int(3)), Err(DecodeError::NotAnObject));
    assert_eq!(schema.decode(&Value::Null), Err(DecodeError::NotAnObject));
}

#[test]
fn missing_root_key_fails() {
    let schema = record(vec![root("content", LeafKind::Str)]);
    let data = obj(vec![("other", s("x"))]);

    assert_eq!(
        schema.decode(&data),
        Err(DecodeError::LeafDecodeFailed {
            field: "content".to_string(),
            cause: LeafError::MissingKey,
        })
    );
}

#[test]
fn wrong_leaf_kind_fails() {
    let schema = record(vec![root("count", LeafKind::Int)]);
    let data = obj(vec![("count", s("three"))]);

    assert_eq!(
        schema.decode(&data),
        Err(DecodeError::LeafDecodeFailed {
            field: "count".to_string(),
            cause: LeafError::WrongKind,
        })
    );
}

#[test]
fn any_leaf_accepts_every_shape() {
    let schema = record(vec![root("payload", LeafKind::Any)]);
    let data = obj(vec![("payload", Value::Arr(vec![Value::Int(1), Value::Null]))]);

    let decoded = schema.decode(&data).unwrap();
    assert_eq!(decoded.get("payload"), Some(&Value::Arr(vec![Value::Int(1), Value::Null])));
}

#[test]
fn first_failure_in_declaration_order_is_reported() {
    let schema = record(vec![
        nested("flatted", "flatted", false, record(vec![root("content", LeafKind::Str)])),
        root("root", LeafKind::Str),
    ]);
    let data = obj(vec![]);

    assert_eq!(
        schema.decode(&data),
        Err(DecodeError::NestedDecodeFailed {
            field: "flatted".to_string(),
            cause: Box::new(DecodeError::LeafDecodeFailed {
                field: "content".to_string(),
                cause: LeafError::MissingKey,
            }),
        })
    );
}

#[test]
fn bare_prefix_key_is_never_matched() {
    let flatted = record(vec![root("content", LeafKind::Str)]);
    let schema = record(vec![nested("flatted", "flatted", true, flatted)]);
    let data = obj(vec![("flatted", s("no separator"))]);

    let decoded = schema.decode(&data).unwrap();
    assert_eq!(decoded.get("flatted"), Some(&Value::Null));
}

#[test]
fn first_entry_wins_on_duplicate_keys() {
    let schema = record(vec![root("content", LeafKind::Str)]);
    let data = obj(vec![("content", s("first")), ("content", s("second"))]);

    let decoded = schema.decode(&data).unwrap();
    assert_eq!(decoded.get("content"), Some(&s("first")));
}
