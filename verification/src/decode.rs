//! The structural decoder: the recursive transform from a record schema and
//! a flat scope to the assembled nested value. Root fields are read from the
//! scope by exact key; nested fields decode recursively from the child scope
//! derived for their prefix; results are assembled in declaration order, and
//! the first failure in declaration order is the one reported.

use vstd::prelude::*;

use crate::error::{DecodeError, ErrorView, LeafError};
use crate::schema::{
    field_name, fields_view, lemma_fields_view, FieldSchema, FieldView, LeafKind, RecordSchema,
    RecordView,
};
use crate::scope::{
    derive_entries, derive_scope, lemma_entries_view_push, lookup, lookup_value, match_prefix,
};
use crate::value::{entries_view, EntryView, Value, ValueView};

verus! {

broadcast use vstd::seq::group_seq_axioms;

/// Whether a raw value has the shape a leaf kind asks for.
pub open spec fn leaf_matches(kind: LeafKind, v: ValueView) -> bool {
    match kind {
        LeafKind::Str => v is Str,
        LeafKind::Int => v is Int,
        LeafKind::Bool => v is Bool,
        LeafKind::Any => true,
    }
}

/// The leaf decode of a root field: the value under `name`, accepted when
/// its shape matches `kind`, rejected with the reason otherwise.
pub open spec fn spec_decode_leaf(kind: LeafKind, entries: Seq<EntryView>, name: Seq<char>) -> Result<
    ValueView,
    LeafError,
> {
    match lookup(entries, name) {
        Option::None => Result::Err(LeafError::MissingKey),
        Option::Some(v) => if leaf_matches(kind, v) {
            Result::Ok(v)
        } else {
            Result::Err(LeafError::WrongKind)
        },
    }
}

/// The outcome of one field against the scope `entries`. A root field is a
/// leaf decode at its name. A nested field decodes its schema against the
/// child scope derived for its prefix; when it is optional, any failure
/// there resolves to `Null` instead of an error.
pub open spec fn decode_field(f: FieldView, entries: Seq<EntryView>) -> Result<
    ValueView,
    ErrorView,
>
    decreases f, 2int,
{
    match f {
        FieldView::Root { name, kind } => match spec_decode_leaf(kind, entries, name) {
            Result::Ok(v) => Result::Ok(v),
            Result::Err(cause) => Result::Err(ErrorView::LeafDecodeFailed { field: name, cause }),
        },
        FieldView::Nested { name, prefix, optional, schema } => {
            match spec_decode(schema, ValueView::Obj(derive_entries(entries, match_prefix(prefix)))) {
                Result::Ok(v) => Result::Ok(v),
                Result::Err(e) => if optional {
                    Result::Ok(ValueView::Null)
                } else {
                    Result::Err(
                        ErrorView::NestedDecodeFailed { field: name, cause: Box::new(e) },
                    )
                },
            }
        },
    }
}

/// Decodes the fields in declaration order against the scope `entries`:
/// the decoded entries `(name, value)` in that order, or the first failure.
pub open spec fn spec_decode_fields(fields: Seq<FieldView>, entries: Seq<EntryView>) -> Result<
    Seq<EntryView>,
    ErrorView,
>
    decreases fields, 0int,
{
    if fields.len() == 0 {
        Result::Ok(Seq::empty())
    } else {
        match decode_field(fields.first(), entries) {
            Result::Err(e) => Result::Err(e),
            Result::Ok(v) => match spec_decode_fields(fields.drop_first(), entries) {
                Result::Ok(rest) => Result::Ok(
                    seq![(field_name(fields.first()), v)] + rest,
                ),
                Result::Err(e) => Result::Err(e),
            },
        }
    }
}

/// The decode of a record schema against a scope value: an object assembled
/// from the fields in declaration order, `NotAnObject` when the scope is not
/// object-shaped, and otherwise the first field failure in declaration
/// order, if any.
pub open spec fn spec_decode(r: RecordView, v: ValueView) -> Result<ValueView, ErrorView>
    decreases r, 1int,
{
    match v {
        ValueView::Obj(entries) => match spec_decode_fields(r.fields, entries) {
            Result::Ok(out) => Result::Ok(ValueView::Obj(out)),
            Result::Err(e) => Result::Err(e),
        },
        _ => Result::Err(ErrorView::NotAnObject),
    }
}

/// Whether a raw value has the shape `kind` asks for.
pub fn kind_matches(kind: LeafKind, v: &Value) -> (r: bool)
    ensures
        r == leaf_matches(kind, v@),
{
    match kind {
        LeafKind::Str => matches!(v, Value::Str(_)),
        LeafKind::Int => matches!(v, Value::Int(_)),
        LeafKind::Bool => matches!(v, Value::Bool(_)),
        LeafKind::Any => true,
    }
}

impl RecordSchema {
    /// Decodes `scope` against this schema: the fully assembled nested
    /// record as an object value, or the first failure in field declaration
    /// order. The outcome is exactly the one [`spec_decode`] gives for the
    /// models of the two arguments.
    pub fn decode(&self, scope: &Value) -> (res: Result<Value, DecodeError>)
        ensures
            match res {
                Result::Ok(v) => spec_decode(self@, scope@) == Result::<ValueView, ErrorView>::Ok(
                    v@,
                ),
                Result::Err(e) => spec_decode(self@, scope@) == Result::<
                    ValueView,
                    ErrorView,
                >::Err(e@),
            },
        decreases self,
    {
        let entries: &Vec<(String, Value)> = match scope {
            Value::Obj(entries) => entries,
            _ => {
                return Result::Err(DecodeError::NotAnObject);
            },
        };
        let ghost fv = fields_view(self.fields@);
        let ghost ev = entries_view(entries@);
        proof {
            lemma_fields_view(self.fields@);
        }
        let mut out: Vec<(String, Value)> = Vec::new();
        let n = self.fields.len();
        proof {
            assert(fv.subrange(0, n as int) =~= fv);
            if let Result::Ok(rest) = spec_decode_fields(fv, ev) {
                assert(entries_view(out@) + rest =~= rest);
            }
        }
        let mut i: usize = 0;
        while i < n
            invariant
                *scope == Value::Obj(*entries),
                n == self.fields@.len(),
                fv == fields_view(self.fields@),
                fv.len() == n,
                ev == entries_view(entries@),
                i <= n,
                spec_decode_fields(fv, ev) == (match spec_decode_fields(
                    fv.subrange(i as int, n as int),
                    ev,
                ) {
                    Result::Ok(rest) => Result::Ok(entries_view(out@) + rest),
                    Result::Err(e) => Result::Err(e),
                }),
            decreases n - i,
        {
            proof {
                lemma_fields_view(self.fields@);
                assert(fv.subrange(i as int, n as int).first() == fv[i as int]);
                assert(fv.subrange(i as int, n as int).drop_first() =~= fv.subrange(
                    i + 1,
                    n as int,
                ));
            }
            let ghost old_out = out@;
            let field = &self.fields[i];
            match field {
                FieldSchema::Root { name, kind } => {
                    match lookup_value(entries, name.as_str()) {
                        Option::Some(v) => {
                            if kind_matches(*kind, v) {
                                let copied = v.deep_copy();
                                proof {
                                    assert(decode_field(fv[i as int], ev)
                                        == Result::<ValueView, ErrorView>::Ok(copied@));
                                }
                                out.push((name.clone(), copied));
                            } else {
                                return Result::Err(
                                    DecodeError::LeafDecodeFailed {
                                        field: name.clone(),
                                        cause: LeafError::WrongKind,
                                    },
                                );
                            }
                        },
                        Option::None => {
                            return Result::Err(
                                DecodeError::LeafDecodeFailed {
                                    field: name.clone(),
                                    cause: LeafError::MissingKey,
                                },
                            );
                        },
                    }
                },
                FieldSchema::Nested { name, prefix, optional, schema } => {
                    let child_entries = derive_scope(entries, prefix.as_str());
                    let child = Value::Obj(child_entries);
                    proof {
                        assert(decreases_to!(self => self.fields));
                        assert(decreases_to!(self.fields => self.fields@));
                        assert(decreases_to!(self.fields@ => self.fields@[i as int]));
                        assert(decreases_to!(self.fields@[i as int] => self.fields@[
                            i as int
                        ]->Nested_schema));
                        assert(self.fields@[i as int]->Nested_schema == *schema);
                    }
                    match schema.decode(&child) {
                        Result::Ok(v) => {
                            proof {
                                assert(decode_field(fv[i as int], ev)
                                    == Result::<ValueView, ErrorView>::Ok(v@));
                            }
                            out.push((name.clone(), v));
                        },
                        Result::Err(e) => {
                            if *optional {
                                proof {
                                    assert(decode_field(fv[i as int], ev)
                                        == Result::<ValueView, ErrorView>::Ok(ValueView::Null));
                                }
                                out.push((name.clone(), Value::Null));
                            } else {
                                return Result::Err(
                                    DecodeError::NestedDecodeFailed {
                                        field: name.clone(),
                                        cause: Box::new(e),
                                    },
                                );
                            }
                        },
                    }
                },
            }
            proof {
                let pushed = out@.last();
                lemma_entries_view_push(old_out, pushed);
                assert(out@.drop_last() =~= old_out);
                if let Result::Ok(rest) = spec_decode_fields(fv.subrange(i + 1, n as int), ev) {
                    assert(entries_view(old_out) + (seq![
                        (field_name(fv[i as int]), entries_view(out@).last().1),
                    ] + rest) =~= entries_view(out@) + rest);
                }
            }
            i = i + 1;
        }
        proof {
            assert(fv.subrange(n as int, n as int).len() == 0);
            if let Result::Ok(_) = spec_decode_fields(fv, ev) {
                assert(entries_view(out@) + Seq::<EntryView>::empty() =~= entries_view(out@));
            }
        }
        Result::Ok(Value::Obj(out))
    }
}

} // verus!
