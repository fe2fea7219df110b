//! The error taxonomy of the decoder and of schema validation. Every decode
//! failure is structural: the caller can tell a non-object scope from a
//! failed root field from a failed nested decode, and each carries the name
//! of the field at the level where it arose.

use vstd::prelude::*;

verus! {

/// Why a root field's raw value was rejected.
#[derive(Clone, Copy, PartialEq, Eq, Structural, Debug)]
pub enum LeafError {
    /// The scope has no entry under the field's name.
    MissingKey,
    /// The entry exists but its value does not have the declared shape.
    WrongKind,
}

/// A decode failure. `NestedDecodeFailed` wraps the inner error, so a chain
/// of field names leads from the root record to the failure point.
#[derive(Debug, PartialEq)]
#[allow(inconsistent_fields)]
pub enum DecodeError {
    /// The scope handed to a decode call was not object-shaped.
    NotAnObject,
    /// A root field's leaf decode rejected the value at its key.
    LeafDecodeFailed { field: String, cause: LeafError },
    /// A required nested field's recursive decode failed.
    NestedDecodeFailed { field: String, cause: Box<DecodeError> },
}

/// The mathematical model of a [`DecodeError`].
#[allow(inconsistent_fields)]
pub enum ErrorView {
    NotAnObject,
    LeafDecodeFailed { field: Seq<char>, cause: LeafError },
    NestedDecodeFailed { field: Seq<char>, cause: Box<ErrorView> },
}

/// The model of a decode error, structure-preserving.
pub open spec fn error_view(e: DecodeError) -> ErrorView
    decreases e,
{
    match e {
        DecodeError::NotAnObject => ErrorView::NotAnObject,
        DecodeError::LeafDecodeFailed { field, cause } => ErrorView::LeafDecodeFailed {
            field: field@,
            cause,
        },
        DecodeError::NestedDecodeFailed { field, cause } => ErrorView::NestedDecodeFailed {
            field: field@,
            cause: Box::new(error_view(*cause)),
        },
    }
}

impl View for DecodeError {
    type V = ErrorView;

    open spec fn view(&self) -> ErrorView {
        error_view(*self)
    }
}

/// Why a schema was rejected by validation.
#[derive(Debug, PartialEq)]
pub enum SchemaError {
    /// Two fields of one record share a name.
    DuplicateName { name: String },
    /// A nested field declares an empty prefix.
    EmptyPrefix { field: String },
    /// The named nested field's matching prefix is a prefix of an earlier
    /// sibling's, or the other way round, so the one field would capture
    /// keys meant for the other.
    PrefixOverlap { field: String },
}

/// The mathematical model of a [`SchemaError`].
pub enum SchemaErrorView {
    DuplicateName { name: Seq<char> },
    EmptyPrefix { field: Seq<char> },
    PrefixOverlap { field: Seq<char> },
}

/// The model of a schema error, structure-preserving.
pub open spec fn schema_error_view(e: SchemaError) -> SchemaErrorView {
    match e {
        SchemaError::DuplicateName { name } => SchemaErrorView::DuplicateName { name: name@ },
        SchemaError::EmptyPrefix { field } => SchemaErrorView::EmptyPrefix { field: field@ },
        SchemaError::PrefixOverlap { field } => SchemaErrorView::PrefixOverlap { field: field@ },
    }
}

impl View for SchemaError {
    type V = SchemaErrorView;

    open spec fn view(&self) -> SchemaErrorView {
        schema_error_view(*self)
    }
}

} // verus!
