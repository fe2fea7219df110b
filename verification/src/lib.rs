//! Reverse flattening: rebuild a nested record tree from a flat key-value
//! document whose keys encode nesting through string prefixes
//! (`flatted_content` holds the `content` field of the nested record
//! `flatted`).
//!
//! [`value`] holds the dynamic document tree that serves as both the flat
//! input and the assembled nested result. [`schema`] describes the shape of
//! the record to rebuild, field by field, and validates it. [`scope`]
//! derives the child scope a nested field sees: the entries whose key
//! starts with the field's prefix and the separator, re-keyed with that
//! lead removed. [`decode`] is the structural decoder that walks the
//! schema, recurses through derived scopes, and assembles the nested
//! value; [`error`] is its failure taxonomy, and [`laws`] states and
//! proves the decoder's general properties.

pub mod decode;
pub mod error;
pub mod laws;
pub mod schema;
pub mod scope;
pub mod value;
