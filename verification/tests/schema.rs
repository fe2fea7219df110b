use reverse_flat::error::SchemaError;
use reverse_flat::schema::{FieldSchema, LeafKind, RecordSchema};

fn root(name: &str, kind: LeafKind) -> FieldSchema {
    FieldSchema::Root { name: name.to_string(), kind }
}

fn nested(name: &str, prefix: &str, optional: bool, schema: RecordSchema) -> FieldSchema {
    FieldSchema::Nested { name: name.to_string(), prefix: prefix.to_string(), optional, schema }
}

fn record(fields: Vec<FieldSchema>) -> RecordSchema {
    RecordSchema { fields }
}

#[test]
fn well_formed_schema_validates() {
    let schema = record(vec![
        root("root", LeafKind::Str),
        nested("flatted", "flatted", false, record(vec![root("content", LeafKind::Str)])),
        nested("other", "second", true, record(vec![])),
    ]);

    assert_eq!(schema.validate(), Ok(()));
}

#[test]
fn duplicate_field_name_is_rejected() {
    let schema = record(vec![
        root("content", LeafKind::Str),
        root("content", LeafKind::Int),
    ]);

    assert_eq!(
        schema.validate(),
        Err(SchemaError::DuplicateName { name: "content".to_string() })
    );
}

#[test]
fn empty_prefix_is_rejected() {
    let schema = record(vec![nested(
        "flatted",
        "",
        false,
        record(vec![root("content", LeafKind::Str)]),
    )]);

    assert_eq!(
        schema.validate(),
        Err(SchemaError::EmptyPrefix { field: "flatted".to_string() })
    );
}

#[test]
fn overlapping_sibling_prefixes_are_rejected() {
    let schema = record(vec![
        nested("a", "item", false, record(vec![root("x", LeafKind::Str)])),
        nested("b", "item_extra", false, record(vec![root("x", LeafKind::Str)])),
    ]);

    assert_eq!(schema.validate(), Err(SchemaError::PrefixOverlap { field: "b".to_string() }));
}

#[test]
fn equal_sibling_prefixes_are_rejected() {
    let schema = record(vec![
        nested("a", "item", false, record(vec![root("x", LeafKind::Str)])),
        nested("b", "item", false, record(vec![root("y", LeafKind::Str)])),
    ]);

    assert_eq!(schema.validate(), Err(SchemaError::PrefixOverlap { field: "b".to_string() }));
}

#[test]
fn unrelated_sibling_prefixes_are_accepted() {
    let schema = record(vec![
        nested("a", "ab", false, record(vec![root("x", LeafKind::Str)])),
        nested("b", "abc", false, record(vec![root("x", LeafKind::Str)])),
    ]);

    assert_eq!(schema.validate(), Ok(()));
}

#[test]
fn nested_schema_issues_surface() {
    let inner = record(vec![
        root("x", LeafKind::Str),
        root("x", LeafKind::Str),
    ]);
    let schema = record(vec![nested("flatted", "flatted", false, inner)]);

    assert_eq!(
        schema.validate(),
        Err(SchemaError::DuplicateName { name: "x".to_string() })
    );
}

#[test]
fn same_prefix_in_different_scopes_is_accepted() {
    let inner = record(vec![nested(
        "content",
        "flatted",
        false,
        record(vec![root("x", LeafKind::Str)]),
    )]);
    let schema = record(vec![nested("flatted", "flatted", false, inner)]);

    assert_eq!(schema.validate(), Ok(()));
}
