//! The schema model: the static shape of a record type. A record is an
//! ordered list of fields, each either a root field (read from the current
//! scope by exact key) or a nested field (decoded recursively from a child
//! scope selected by a key prefix).

use vstd::prelude::*;

use crate::error::{SchemaError, SchemaErrorView};
use crate::scope::{match_prefix, prefixed, prefixes_overlap, str_eq};

verus! {

broadcast use vstd::seq::group_seq_axioms;

/// The shape a root field's raw value must have. `Any` accepts every value.
#[derive(Clone, Copy, PartialEq, Eq, Structural, Debug)]
pub enum LeafKind {
    Str,
    Int,
    Bool,
    Any,
}

/// One field of a record schema.
pub enum FieldSchema {
    /// Decoded directly from the current scope at the key `name`.
    Root { name: String, kind: LeafKind },
    /// Decoded recursively from the child scope selected by the keys that
    /// start with `prefix` followed by the separator. When `optional` is
    /// set, a failing child decode resolves the field to `Value::Null`
    /// instead of failing the whole call.
    Nested { name: String, prefix: String, optional: bool, schema: RecordSchema },
}

/// The static shape of a record type: its fields in declaration order.
pub struct RecordSchema {
    pub fields: Vec<FieldSchema>,
}

/// The mathematical model of a [`FieldSchema`].
pub enum FieldView {
    Root { name: Seq<char>, kind: LeafKind },
    Nested { name: Seq<char>, prefix: Seq<char>, optional: bool, schema: RecordView },
}

/// The mathematical model of a [`RecordSchema`].
pub struct RecordView {
    pub fields: Seq<FieldView>,
}

/// The model of a field schema, structure-preserving.
pub open spec fn field_view(f: FieldSchema) -> FieldView
    decreases f, 2int,
{
    match f {
        FieldSchema::Root { name, kind } => FieldView::Root { name: name@, kind },
        FieldSchema::Nested { name, prefix, optional, schema } => FieldView::Nested {
            name: name@,
            prefix: prefix@,
            optional,
            schema: record_view(schema),
        },
    }
}

/// The model of a record schema.
pub open spec fn record_view(r: RecordSchema) -> RecordView
    decreases r, 1int,
{
    RecordView { fields: fields_view(r.fields@) }
}

/// The models of a sequence of field schemas, element by element.
pub open spec fn fields_view(s: Seq<FieldSchema>) -> Seq<FieldView>
    decreases s, 0int,
{
    if s.len() == 0 {
        Seq::empty()
    } else {
        fields_view(s.drop_last()).push(field_view(s.last()))
    }
}

impl View for FieldSchema {
    type V = FieldView;

    open spec fn view(&self) -> FieldView {
        field_view(*self)
    }
}

impl View for RecordSchema {
    type V = RecordView;

    open spec fn view(&self) -> RecordView {
        record_view(*self)
    }
}

/// `fields_view` maps the sequence pointwise.
pub proof fn lemma_fields_view(s: Seq<FieldSchema>)
    ensures
        fields_view(s).len() == s.len(),
        forall|i: int| 0 <= i < s.len() ==> fields_view(s)[i] == field_view(s[i]),
    decreases s.len(),
{
    if s.len() > 0 {
        lemma_fields_view(s.drop_last());
    }
}

/// The declared name of a field, root or nested.
pub open spec fn field_name(f: FieldView) -> Seq<char> {
    match f {
        FieldView::Root { name, .. } => name,
        FieldView::Nested { name, .. } => name,
    }
}

impl FieldSchema {
    /// The declared name of the field, root or nested.
    pub fn name(&self) -> (r: &String)
        ensures
            r@ == field_name(self@),
    {
        match self {
            FieldSchema::Root { name, .. } => name,
            FieldSchema::Nested { name, .. } => name,
        }
    }
}

/// Whether an earlier sibling field is nested and its matching prefix
/// overlaps the matching prefix of the declared prefix `p`.
pub open spec fn overlaps_earlier(f: FieldView, p: Seq<char>) -> bool {
    f matches FieldView::Nested { prefix, .. } && (prefixed(match_prefix(p), match_prefix(prefix))
        || prefixed(match_prefix(prefix), match_prefix(p)))
}

/// The validation issue of field `i` against the fields before it, if any:
/// a name already used by an earlier field, an empty declared prefix, or a
/// matching prefix that overlaps an earlier nested sibling's.
pub open spec fn field_issue(fields: Seq<FieldView>, i: int) -> Option<SchemaErrorView> {
    if exists|j: int| 0 <= j < i && field_name(fields[j]) == field_name(fields[i]) {
        Option::Some(SchemaErrorView::DuplicateName { name: field_name(fields[i]) })
    } else {
        match fields[i] {
            FieldView::Root { .. } => Option::None,
            FieldView::Nested { name, prefix, .. } => if prefix.len() == 0 {
                Option::Some(SchemaErrorView::EmptyPrefix { field: name })
            } else if exists|j: int| 0 <= j < i && overlaps_earlier(fields[j], prefix) {
                Option::Some(SchemaErrorView::PrefixOverlap { field: name })
            } else {
                Option::None
            },
        }
    }
}

/// Validation from field `i` on: the first issue found scanning fields in
/// declaration order, descending into each nested field's schema before
/// moving on.
pub open spec fn spec_validate_from(r: RecordView, i: int) -> Result<(), SchemaErrorView>
    decreases r, r.fields.len() - i,
{
    if i < 0 || i >= r.fields.len() {
        Result::Ok(())
    } else {
        match field_issue(r.fields, i) {
            Option::Some(e) => Result::Err(e),
            Option::None => match r.fields[i] {
                FieldView::Nested { schema, .. } => match spec_validate(schema) {
                    Result::Err(e) => Result::Err(e),
                    Result::Ok(_) => spec_validate_from(r, i + 1),
                },
                FieldView::Root { .. } => spec_validate_from(r, i + 1),
            },
        }
    }
}

/// The validation of a whole record schema, nested schemas included: `Ok`
/// when field names are unique, every nested prefix is non-empty, no two
/// sibling matching prefixes overlap, and every nested schema passes the
/// same checks; otherwise the first issue in declaration order.
pub open spec fn spec_validate(r: RecordView) -> Result<(), SchemaErrorView>
    decreases r, r.fields.len() + 1,
{
    spec_validate_from(r, 0)
}

/// Well-formedness of a record schema as one predicate: field names are
/// pairwise distinct, every nested prefix is non-empty, the matching
/// prefixes of sibling nested fields never overlap, and the same holds
/// below every nested field. Validation succeeds on exactly these schemas.
pub open spec fn schema_well_formed(r: RecordView) -> bool
    decreases r, 1int,
{
    &&& forall|i: int, j: int|
        0 <= i < j < r.fields.len() ==> field_name(#[trigger] r.fields[i]) != field_name(
            #[trigger] r.fields[j],
        )
    &&& forall|i: int|
        0 <= i < r.fields.len() && #[trigger] r.fields[i] is Nested
            ==> r.fields[i]->Nested_prefix.len() > 0
    &&& forall|i: int, j: int|
        0 <= i < j < r.fields.len() && #[trigger] r.fields[j] is Nested ==> !overlaps_earlier(
            #[trigger] r.fields[i],
            r.fields[j]->Nested_prefix,
        )
    &&& children_well_formed(r.fields)
}

/// Well-formedness of every nested schema among the given fields.
pub open spec fn children_well_formed(fields: Seq<FieldView>) -> bool
    decreases fields, 0int,
{
    if fields.len() == 0 {
        true
    } else {
        (fields.first() matches FieldView::Nested { schema, .. } ==> schema_well_formed(schema))
            && children_well_formed(fields.drop_first())
    }
}

impl RecordSchema {
    /// Checks this schema and every nested schema below it: unique field
    /// names, non-empty nested prefixes, no overlap between the matching
    /// prefixes of sibling nested fields. The outcome is exactly the one
    /// [`spec_validate`] gives for the model of the schema.
    #[verifier::loop_isolation(false)]
    pub fn validate(&self) -> (res: Result<(), SchemaError>)
        ensures
            match res {
                Result::Ok(_) => spec_validate(self@) == Result::<(), SchemaErrorView>::Ok(()),
                Result::Err(e) => spec_validate(self@) == Result::<(), SchemaErrorView>::Err(e@),
            },
        decreases self,
    {
        let ghost rv = record_view(*self);
        let ghost fv = fields_view(self.fields@);
        proof {
            lemma_fields_view(self.fields@);
        }
        let n = self.fields.len();
        let mut i: usize = 0;
        while i < n
            invariant
                i <= n,
                spec_validate_from(rv, i as int) == spec_validate(rv),
            decreases n - i,
        {
            let field = &self.fields[i];
            let fname: &String = field.name();
            let mut j: usize = 0;
            while j < i
                invariant
                    j <= i,
                    forall|k: int| 0 <= k < j ==> field_name(fv[k]) != field_name(fv[i as int]),
                decreases i - j,
            {
                let other = self.fields[j].name();
                if str_eq(other.as_str(), fname.as_str()) {
                    proof {
                        assert(field_name(fv[j as int]) == field_name(fv[i as int]));
                    }
                    return Result::Err(SchemaError::DuplicateName { name: fname.clone() });
                }
                j = j + 1;
            }
            match field {
                FieldSchema::Root { .. } => {},
                FieldSchema::Nested { name, prefix, schema, .. } => {
                    if prefix.unicode_len() == 0 {
                        return Result::Err(SchemaError::EmptyPrefix { field: name.clone() });
                    }
                    let mut j: usize = 0;
                    while j < i
                        invariant
                            j <= i,
                            forall|k: int| 0 <= k < j ==> !overlaps_earlier(fv[k], prefix@),
                        decreases i - j,
                    {
                        match &self.fields[j] {
                            FieldSchema::Nested { prefix: other_prefix, .. } => {
                                if prefixes_overlap(other_prefix.as_str(), prefix.as_str()) {
                                    proof {
                                        assert(overlaps_earlier(fv[j as int], prefix@));
                                    }
                                    return Result::Err(
                                        SchemaError::PrefixOverlap { field: name.clone() },
                                    );
                                }
                            },
                            _ => {},
                        }
                        j = j + 1;
                    }
                    proof {
                        assert(decreases_to!(self => self.fields));
                        assert(decreases_to!(self.fields => self.fields@));
                        assert(decreases_to!(self.fields@ => self.fields@[i as int]));
                        assert(decreases_to!(self.fields@[i as int] => self.fields@[
                            i as int
                        ]->Nested_schema));
                        assert(self.fields@[i as int]->Nested_schema == *schema);
                    }
                    match schema.validate() {
                        Result::Err(e) => {
                            return Result::Err(e);
                        },
                        Result::Ok(_) => {},
                    }
                },
            }
            proof {
                assert(field_issue(fv, i as int) is None);
            }
            i = i + 1;
        }
        Result::Ok(())
    }
}

} // verus!
