//! The general laws of the decoder, stated over the spec-level semantics
//! and proved once for all schemas and scopes.

use vstd::prelude::*;

use crate::decode::{decode_field, spec_decode, spec_decode_fields};
use crate::error::ErrorView;
use crate::schema::{
    children_well_formed, field_issue, field_name, overlaps_earlier, schema_well_formed,
    spec_validate, spec_validate_from, FieldView, RecordView,
};
use crate::scope::{derive_entries, keys_unique, lookup, match_prefix, prefixed};
use crate::value::{EntryView, ValueView};

verus! {

broadcast use vstd::seq::group_seq_axioms;

/// Law: decoding a non-object scope fails with `NotAnObject`, for every
/// schema; no field-level decoding takes place.
pub proof fn lemma_decode_non_object(r: RecordView, v: ValueView)
    requires
        !(v is Obj),
    ensures
        spec_decode(r, v) == Result::<ValueView, ErrorView>::Err(ErrorView::NotAnObject),
{
}

/// A successful field-list decode has one output entry per field, in
/// declaration order: the field's name beside the value that the field
/// alone decodes from the scope.
pub proof fn lemma_decode_fields_pointwise(
    fields: Seq<FieldView>,
    entries: Seq<EntryView>,
    out: Seq<EntryView>,
)
    requires
        spec_decode_fields(fields, entries) == Result::<Seq<EntryView>, ErrorView>::Ok(out),
    ensures
        out.len() == fields.len(),
        forall|i: int| 0 <= i < fields.len() ==> #[trigger] decode_field(fields[i], entries) is Ok,
        forall|i: int|
            0 <= i < fields.len() ==> #[trigger] out[i] == (
                field_name(fields[i]),
                decode_field(fields[i], entries)->Ok_0,
            ),
    decreases fields.len(),
{
    if fields.len() > 0 {
        let tail = spec_decode_fields(fields.drop_first(), entries);
        let rest = tail->Ok_0;
        lemma_decode_fields_pointwise(fields.drop_first(), entries, rest);
        assert forall|i: int| 0 < i < fields.len() implies #[trigger] decode_field(
            fields[i],
            entries,
        ) is Ok && out[i] == (field_name(fields[i]), decode_field(fields[i], entries)->Ok_0) by {
            assert(fields.drop_first()[i - 1] == fields[i]);
            assert(out[i] == rest[i - 1]);
        }
    }
}

/// Law: a successful decode is an object with one entry per schema field,
/// in declaration order; each entry holds the field's name and the value
/// that this field alone decodes from the scope, independent of the other
/// fields and of its position.
pub proof fn lemma_decode_success_pointwise(r: RecordView, v: ValueView, w: ValueView)
    requires
        spec_decode(r, v) == Result::<ValueView, ErrorView>::Ok(w),
    ensures
        v is Obj,
        w is Obj,
        w->Obj_0.len() == r.fields.len(),
        forall|i: int| 0 <= i < r.fields.len() ==> #[trigger] decode_field(
            r.fields[i],
            v->Obj_0,
        ) is Ok,
        forall|i: int|
            0 <= i < r.fields.len() ==> #[trigger] w->Obj_0[i] == (
                field_name(r.fields[i]),
                decode_field(r.fields[i], v->Obj_0)->Ok_0,
            ),
{
    lemma_decode_fields_pointwise(r.fields, v->Obj_0, w->Obj_0);
}

/// Law: the value decoded for a field depends only on the field and the
/// scope, not on the field's position in the schema or on its siblings:
/// two schemas that share a field, decoded over the same scope, agree on
/// that field's entry.
pub proof fn lemma_field_position_independent(
    r1: RecordView,
    r2: RecordView,
    v: ValueView,
    w1: ValueView,
    w2: ValueView,
    i1: int,
    i2: int,
)
    requires
        spec_decode(r1, v) == Result::<ValueView, ErrorView>::Ok(w1),
        spec_decode(r2, v) == Result::<ValueView, ErrorView>::Ok(w2),
        0 <= i1 < r1.fields.len(),
        0 <= i2 < r2.fields.len(),
        r1.fields[i1] == r2.fields[i2],
    ensures
        w1->Obj_0[i1] == w2->Obj_0[i2],
{
    lemma_decode_success_pointwise(r1, v, w1);
    lemma_decode_success_pointwise(r2, v, w2);
}

/// Law: for a schema of root fields only, a successful decode is the scope
/// projected onto those fields: each output entry holds a field's name and
/// the scope's own value under that name.
pub proof fn lemma_root_only_projection(r: RecordView, v: ValueView, w: ValueView)
    requires
        forall|i: int| 0 <= i < r.fields.len() ==> #[trigger] r.fields[i] is Root,
        spec_decode(r, v) == Result::<ValueView, ErrorView>::Ok(w),
    ensures
        v is Obj,
        w is Obj,
        w->Obj_0.len() == r.fields.len(),
        forall|i: int|
            0 <= i < r.fields.len() ==> #[trigger] lookup(v->Obj_0, field_name(r.fields[i]))
                is Some,
        forall|i: int|
            0 <= i < r.fields.len() ==> #[trigger] w->Obj_0[i] == (
                field_name(r.fields[i]),
                lookup(v->Obj_0, field_name(r.fields[i]))->0,
            ),
{
    lemma_decode_success_pointwise(r, v, w);
    assert forall|i: int| 0 <= i < r.fields.len() implies #[trigger] lookup(
        v->Obj_0,
        field_name(r.fields[i]),
    ) is Some && w->Obj_0[i] == (
        field_name(r.fields[i]),
        lookup(v->Obj_0, field_name(r.fields[i]))->0,
    ) by {
        assert(r.fields[i] is Root);
        assert(decode_field(r.fields[i], v->Obj_0) is Ok);
        assert(w->Obj_0[i] == (field_name(r.fields[i]), decode_field(r.fields[i], v->Obj_0)->Ok_0));
    }
}

/// Law: with no key of the scope starting with the matching prefix, the
/// derived child scope is empty.
pub proof fn lemma_unmatched_prefix_empty(entries: Seq<EntryView>, pat: Seq<char>)
    requires
        forall|i: int| 0 <= i < entries.len() ==> !prefixed(#[trigger] entries[i].0, pat),
    ensures
        derive_entries(entries, pat) == Seq::<EntryView>::empty(),
    decreases entries.len(),
{
    if entries.len() > 0 {
        assert(entries.last() == entries[entries.len() - 1]);
        lemma_unmatched_prefix_empty(entries.drop_last(), pat);
    }
}

/// The first failing field decides the whole field-list decode: with every
/// field before `i` succeeding and field `i` failing, its error is the one
/// reported.
pub proof fn lemma_fields_first_failure(
    fields: Seq<FieldView>,
    entries: Seq<EntryView>,
    i: int,
    e: ErrorView,
)
    requires
        0 <= i < fields.len(),
        forall|j: int| 0 <= j < i ==> #[trigger] decode_field(fields[j], entries) is Ok,
        decode_field(fields[i], entries) == Result::<ValueView, ErrorView>::Err(e),
    ensures
        spec_decode_fields(fields, entries) == Result::<Seq<EntryView>, ErrorView>::Err(e),
    decreases i,
{
    if i > 0 {
        assert(decode_field(fields[0], entries) is Ok);
        assert forall|j: int| 0 <= j < i - 1 implies #[trigger] decode_field(
            fields.drop_first()[j],
            entries,
        ) is Ok by {
            assert(fields.drop_first()[j] == fields[j + 1]);
        }
        assert(fields.drop_first()[i - 1] == fields[i]);
        lemma_fields_first_failure(fields.drop_first(), entries, i - 1, e);
    }
}

/// Law: when every field before `i` decodes, field `i` is a required
/// nested field, and the decode of its child scope fails, the whole decode
/// fails with `NestedDecodeFailed` naming field `i` and wrapping the
/// child's error.
pub proof fn lemma_required_nested_failure(r: RecordView, v: ValueView, i: int, e: ErrorView)
    requires
        v is Obj,
        0 <= i < r.fields.len(),
        forall|j: int| 0 <= j < i ==> #[trigger] decode_field(r.fields[j], v->Obj_0) is Ok,
        r.fields[i] is Nested,
        !r.fields[i]->Nested_optional,
        spec_decode(
            r.fields[i]->Nested_schema,
            ValueView::Obj(
                derive_entries(v->Obj_0, match_prefix(r.fields[i]->Nested_prefix)),
            ),
        ) == Result::<ValueView, ErrorView>::Err(e),
    ensures
        spec_decode(r, v) == Result::<ValueView, ErrorView>::Err(
            ErrorView::NestedDecodeFailed {
                field: field_name(r.fields[i]),
                cause: Box::new(e),
            },
        ),
{
    let wrapped = ErrorView::NestedDecodeFailed {
        field: field_name(r.fields[i]),
        cause: Box::new(e),
    };
    assert(decode_field(r.fields[i], v->Obj_0) == Result::<ValueView, ErrorView>::Err(wrapped));
    lemma_fields_first_failure(r.fields, v->Obj_0, i, wrapped);
}

/// Law: an optional nested field never fails: when the decode of its child
/// scope fails, the field resolves to `Null` and the error is absorbed.
pub proof fn lemma_optional_nested_swallows(f: FieldView, entries: Seq<EntryView>)
    requires
        f is Nested,
        f->Nested_optional,
        spec_decode(
            f->Nested_schema,
            ValueView::Obj(derive_entries(entries, match_prefix(f->Nested_prefix))),
        ) is Err,
    ensures
        decode_field(f, entries) == Result::<ValueView, ErrorView>::Ok(ValueView::Null),
{
}

/// Law: scope derivation is a pure function of the parent scope and the
/// prefix: equal parents and equal prefixes derive equal child scopes, so
/// deriving twice yields structurally equal results. The executable
/// derivation borrows the parent immutably, so repeated derivations leave
/// it untouched.
pub proof fn lemma_derive_deterministic(
    e1: Seq<EntryView>,
    e2: Seq<EntryView>,
    p1: Seq<char>,
    p2: Seq<char>,
)
    requires
        e1 == e2,
        p1 == p2,
    ensures
        derive_entries(e1, match_prefix(p1)) == derive_entries(e2, match_prefix(p2)),
{
}

/// Law: success is owed exactly when the scope is an object and every
/// field, taken alone, decodes against it: a root field finds a value of
/// its kind under its name, a required nested field's child scope decodes,
/// an optional nested field always.
pub proof fn lemma_decode_success_iff(r: RecordView, v: ValueView)
    ensures
        spec_decode(r, v) is Ok <==> (v is Obj && forall|i: int|
            0 <= i < r.fields.len() ==> #[trigger] decode_field(r.fields[i], v->Obj_0) is Ok),
{
    if v is Obj {
        lemma_decode_fields_ok_iff(r.fields, v->Obj_0);
    }
}

/// A field-list decode succeeds exactly when each of its fields, taken
/// alone, decodes against the scope.
pub proof fn lemma_decode_fields_ok_iff(fields: Seq<FieldView>, entries: Seq<EntryView>)
    ensures
        spec_decode_fields(fields, entries) is Ok <==> forall|i: int|
            0 <= i < fields.len() ==> #[trigger] decode_field(fields[i], entries) is Ok,
    decreases fields.len(),
{
    if fields.len() > 0 {
        lemma_decode_fields_ok_iff(fields.drop_first(), entries);
        if spec_decode_fields(fields, entries) is Ok {
            assert forall|i: int| 0 <= i < fields.len() implies #[trigger] decode_field(
                fields[i],
                entries,
            ) is Ok by {
                if i == 0 {
                    assert(decode_field(fields.first(), entries) is Ok);
                } else {
                    assert(decode_field(fields.drop_first()[i - 1], entries) is Ok);
                    assert(fields.drop_first()[i - 1] == fields[i]);
                }
            }
        } else {
            if forall|i: int|
                0 <= i < fields.len() ==> #[trigger] decode_field(fields[i], entries) is Ok {
                assert forall|j: int|
                    0 <= j < fields.drop_first().len() implies #[trigger] decode_field(
                    fields.drop_first()[j],
                    entries,
                ) is Ok by {
                    assert(fields.drop_first()[j] == fields[j + 1]);
                    assert(decode_field(fields[j + 1], entries) is Ok);
                }
                assert(spec_decode_fields(fields.drop_first(), entries) is Ok);
                assert(decode_field(fields.first(), entries) == decode_field(fields[0], entries));
                assert(false);
            }
        }
    }
}

/// `children_well_formed` holds exactly when every nested field's schema
/// is well formed.
pub proof fn lemma_children_well_formed_pointwise(fields: Seq<FieldView>)
    ensures
        children_well_formed(fields) <==> forall|k: int|
            0 <= k < fields.len() && #[trigger] fields[k] is Nested ==> schema_well_formed(
                fields[k]->Nested_schema,
            ),
    decreases fields.len(),
{
    if fields.len() > 0 {
        lemma_children_well_formed_pointwise(fields.drop_first());
        if children_well_formed(fields) {
            assert forall|k: int|
                0 <= k < fields.len() && #[trigger] fields[k] is Nested implies schema_well_formed(
                fields[k]->Nested_schema,
            ) by {
                if k == 0 {
                    assert(fields[0] == fields.first());
                } else {
                    assert(fields.drop_first()[k - 1] == fields[k]);
                }
            }
        } else {
            if forall|k: int|
                0 <= k < fields.len() && #[trigger] fields[k] is Nested ==> schema_well_formed(
                    fields[k]->Nested_schema,
                ) {
                assert forall|k: int|
                    0 <= k < fields.drop_first().len() && #[trigger] fields.drop_first()[k]
                        is Nested implies schema_well_formed(
                    fields.drop_first()[k]->Nested_schema,
                ) by {
                    assert(fields.drop_first()[k] == fields[k + 1]);
                }
                assert(fields[0] == fields.first());
                assert(false);
            }
        }
    }
}

/// Validation from `i` on succeeds exactly when, from `i` on, no field has
/// an issue and every nested field's schema validates.
pub proof fn lemma_validate_from_ok_iff(r: RecordView, i: int)
    requires
        0 <= i <= r.fields.len(),
    ensures
        spec_validate_from(r, i) is Ok <==> forall|k: int|
            i <= k < r.fields.len() ==> (#[trigger] field_issue(r.fields, k) is None && (
            r.fields[k] matches FieldView::Nested { schema, .. } ==> spec_validate(schema) is Ok)),
    decreases r.fields.len() - i,
{
    if i < r.fields.len() {
        lemma_validate_from_ok_iff(r, i + 1);
        if spec_validate_from(r, i) is Ok {
            assert(field_issue(r.fields, i) is None);
            assert(spec_validate_from(r, i + 1) is Ok);
        } else {
            if forall|k: int|
                i <= k < r.fields.len() ==> (#[trigger] field_issue(r.fields, k) is None && (
                r.fields[k] matches FieldView::Nested { schema, .. } ==> spec_validate(schema)
                    is Ok)) {
                assert(field_issue(r.fields, i) is None);
                assert(false);
            }
        }
    }
}

/// Law: validation succeeds on exactly the well-formed schemas: pairwise
/// distinct field names, non-empty nested prefixes, no overlap between the
/// matching prefixes of sibling nested fields, recursively at every level.
pub proof fn lemma_validate_ok_iff(r: RecordView)
    ensures
        spec_validate(r) is Ok <==> schema_well_formed(r),
    decreases r,
{
    lemma_validate_from_ok_iff(r, 0);
    lemma_children_well_formed_pointwise(r.fields);
    assert forall|k: int|
        0 <= k < r.fields.len() && #[trigger] r.fields[k] is Nested implies (spec_validate(
        r.fields[k]->Nested_schema,
    ) is Ok <==> schema_well_formed(r.fields[k]->Nested_schema)) by {
        assert(decreases_to!(r => r.fields));
        assert(decreases_to!(r.fields => r.fields[k]));
        assert(decreases_to!(r.fields[k] => r.fields[k]->Nested_schema));
        lemma_validate_ok_iff(r.fields[k]->Nested_schema);
    }
    if spec_validate(r) is Ok {
        assert forall|i: int, j: int| 0 <= i < j < r.fields.len() implies field_name(
            #[trigger] r.fields[i],
        ) != field_name(#[trigger] r.fields[j]) by {
            assert(field_issue(r.fields, j) is None);
            if field_name(r.fields[i]) == field_name(r.fields[j]) {
                assert(exists|t: int|
                    0 <= t < j && field_name(r.fields[t]) == field_name(r.fields[j]));
                assert(false);
            }
        }
        assert forall|k: int|
            0 <= k < r.fields.len() && #[trigger] r.fields[k] is Nested implies r.fields[
            k
        ]->Nested_prefix.len() > 0 by {
            assert(field_issue(r.fields, k) is None);
        }
        assert forall|i: int, j: int|
            0 <= i < j < r.fields.len() && #[trigger] r.fields[j] is Nested implies !overlaps_earlier(
            #[trigger] r.fields[i],
            r.fields[j]->Nested_prefix,
        ) by {
            assert(field_issue(r.fields, j) is None);
            if overlaps_earlier(r.fields[i], r.fields[j]->Nested_prefix) {
                assert(exists|t: int|
                    0 <= t < j && overlaps_earlier(r.fields[t], r.fields[j]->Nested_prefix));
                assert(false);
            }
        }
        assert forall|k: int|
            0 <= k < r.fields.len() && #[trigger] r.fields[k] is Nested implies schema_well_formed(
            r.fields[k]->Nested_schema,
        ) by {
            assert(field_issue(r.fields, k) is None);
            assert(spec_validate(r.fields[k]->Nested_schema) is Ok);
        }
        assert(children_well_formed(r.fields));
        assert(schema_well_formed(r));
    } else {
        if schema_well_formed(r) {
            assert forall|k: int| 0 <= k < r.fields.len() implies (#[trigger] field_issue(
                r.fields,
                k,
            ) is None && (r.fields[k] matches FieldView::Nested { schema, .. } ==> spec_validate(
                schema,
            ) is Ok)) by {
                assert(!(exists|t: int|
                    0 <= t < k && field_name(r.fields[t]) == field_name(r.fields[k]))) by {
                    if exists|t: int|
                        0 <= t < k && field_name(r.fields[t]) == field_name(r.fields[k]) {
                        let t = choose|t: int|
                            0 <= t < k && field_name(r.fields[t]) == field_name(r.fields[k]);
                        assert(field_name(r.fields[t]) != field_name(r.fields[k]));
                        assert(false);
                    }
                }
                if r.fields[k] is Nested {
                    assert(r.fields[k]->Nested_prefix.len() > 0);
                    assert(!(exists|t: int|
                        0 <= t < k && overlaps_earlier(
                            r.fields[t],
                            r.fields[k]->Nested_prefix,
                        ))) by {
                        if exists|t: int|
                            0 <= t < k && overlaps_earlier(
                                r.fields[t],
                                r.fields[k]->Nested_prefix,
                            ) {
                            let t = choose|t: int|
                                0 <= t < k && overlaps_earlier(
                                    r.fields[t],
                                    r.fields[k]->Nested_prefix,
                                );
                            assert(!overlaps_earlier(r.fields[t], r.fields[k]->Nested_prefix));
                            assert(false);
                        }
                    }
                }
            }
            assert(false);
        }
    }
}

/// Law: decoding a schema with pairwise distinct field names yields an
/// object that is itself a mapping: its keys, the field names, are
/// pairwise distinct.
pub proof fn lemma_decode_output_keys_unique(r: RecordView, v: ValueView, w: ValueView)
    requires
        forall|i: int, j: int|
            0 <= i < j < r.fields.len() ==> field_name(#[trigger] r.fields[i]) != field_name(
                #[trigger] r.fields[j],
            ),
        spec_decode(r, v) == Result::<ValueView, ErrorView>::Ok(w),
    ensures
        keys_unique(w->Obj_0),
{
    lemma_decode_success_pointwise(r, v, w);
    assert forall|i: int, j: int| 0 <= i < j < w->Obj_0.len() implies (#[trigger] w->Obj_0[i]).0
        != (#[trigger] w->Obj_0[j]).0 by {
        assert(w->Obj_0[i].0 == field_name(r.fields[i]));
        assert(w->Obj_0[j].0 == field_name(r.fields[j]));
    }
}

} // verus!
