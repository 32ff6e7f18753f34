//! The row-oriented view of a columnar batch: field descriptors, typed
//! columns with per-row null bits, and the materializer that rebuilds a
//! dynamic row from one batch row under a projection mask.
//!
//! The batch's first two columns are fixed system columns: the deletion
//! flag (boolean) and the version timestamp (unsigned 32-bit).  User
//! columns follow, and the full schema's field list is numbered the same
//! way, so user column `i` answers to flattened position
//! `i + USER_COLUMN_OFFSET`.
use vstd::prelude::*;

use crate::datatype::DataType;
use crate::mask::ProjectionMask;
use crate::row::{DynRecordRef, OptionRecordRef, RowView};
use crate::value::{Payload, PayloadV, Scalar, ScalarV, Value, ValueV};
use crate::USER_COLUMN_OFFSET;

verus! {

/// One field descriptor of a flattened schema: name, primitive type,
/// nullability.
pub struct Field {
    pub name: String,
    pub datatype: DataType,
    pub nullable: bool,
}

/// Mathematical model of a `Field`.
#[verifier::ext_equal]
pub struct FieldV {
    pub name: Seq<char>,
    pub datatype: DataType,
    pub nullable: bool,
}

impl View for Field {
    type V = FieldV;

    open spec fn view(&self) -> FieldV {
        FieldV { name: self.name@, datatype: self.datatype, nullable: self.nullable }
    }
}

/// Structural containment: a full-schema field contains a batch field
/// when they denote the same logical column — same name, same primitive
/// type — and the batch field is at most as nullable.
pub open spec fn spec_field_contains(a: FieldV, b: FieldV) -> bool {
    &&& a.name == b.name
    &&& a.datatype == b.datatype
    &&& (a.nullable || !b.nullable)
}

/// Exec check of `spec_field_contains`.
fn field_contains(a: &Field, b: &Field) -> (r: bool)
    ensures
        r == spec_field_contains(a@, b@),
{
    a.name == b.name && a.datatype == b.datatype && (a.nullable || !b.nullable)
}

/// One column of a batch: its field descriptor and one cell per row, a
/// cell being absent where the stored value is null.
pub struct BatchColumn {
    pub field: Field,
    pub cells: Vec<Option<Scalar>>,
}

impl BatchColumn {
    /// Every present cell holds a scalar of the column's declared type.
    pub open spec fn wf(&self) -> bool {
        forall|i: int|
            0 <= i < self.cells@.len() ==> ((#[trigger] self.cells@[i]) matches Some(s) ==> s@.dt()
                == self.field.datatype)
    }

    /// The cell at `row`, as a model value.
    pub open spec fn cell(&self, row: int) -> Option<ScalarV> {
        match self.cells@[row] {
            None => None,
            Some(s) => Some(s@),
        }
    }
}

/// A columnar batch: columns of equal length, indexable by position, each
/// column indexable by row offset.
pub struct Batch {
    pub columns: Vec<BatchColumn>,
    pub num_rows: usize,
}

impl Batch {
    /// Every column is well formed and has exactly `num_rows` cells.
    pub open spec fn wf(&self) -> bool {
        forall|j: int|
            0 <= j < self.columns@.len() ==> (#[trigger] self.columns@[j]).wf()
                && self.columns@[j].cells@.len() == self.num_rows as int
    }
}

/// The full, unpruned schema: its flattened field list (system columns
/// included) and the index of the primary-key column among the user
/// columns.
pub struct FullSchema {
    pub fields: Vec<Field>,
    pub primary_key_index: usize,
}

/// The first batch column, from `j` on, that the given full-schema field
/// structurally contains; `None` when the batch omitted the column.
pub open spec fn find_match_from(b: Batch, f: FieldV, j: int) -> Option<int>
    decreases b.columns@.len() - j,
{
    if j < 0 || j >= b.columns@.len() {
        None
    } else if spec_field_contains(f, b.columns@[j].field@) {
        Some(j)
    } else {
        find_match_from(b, f, j + 1)
    }
}

/// The first batch column the given field structurally contains.
pub open spec fn find_match(b: Batch, f: FieldV) -> Option<int> {
    find_match_from(b, f, 0)
}

/// Exec search mirroring `find_match`.
fn find_batch_field(batch: &Batch, f: &Field) -> (r: Option<usize>)
    ensures
        r matches Some(j) ==> find_match(*batch, f@) == Some(j as int) && j
            < batch.columns@.len() && spec_field_contains(f@, batch.columns@[j as int].field@),
        r is None ==> find_match(*batch, f@) is None,
{
    let mut j: usize = 0;
    while j < batch.columns.len()
        invariant
            j <= batch.columns@.len(),
            find_match(*batch, f@) == find_match_from(*batch, f@, j as int),
        decreases batch.columns@.len() - j,
    {
        if field_contains(f, &batch.columns[j].field) {
            return Some(j);
        }
        j = j + 1;
    }
    None
}

/// The column value that materializing field `f` (user column `i`) from
/// one batch row yields: the typed null sentinel when the batch omitted
/// the field; otherwise, for the primary-key column, the stored value
/// read unconditionally and held bare; for every other column, an
/// optional value present exactly when the stored value is non-null and
/// the mask includes the column's leaf.
pub open spec fn spec_materialized(
    b: Batch,
    offset: int,
    m: ProjectionMask,
    f: FieldV,
    i: int,
    pk: int,
) -> ValueV {
    let payload = match find_match(b, f) {
        None => PayloadV::none_of(f.datatype),
        Some(j) => match b.columns@[j].cell(offset) {
            None => PayloadV::Optional(f.datatype, None),
            Some(s) => if i == pk {
                PayloadV::Required(s)
            } else if m.spec_included(i + USER_COLUMN_OFFSET as int) {
                PayloadV::Optional(f.datatype, Some(s))
            } else {
                PayloadV::Optional(f.datatype, None)
            },
        },
    };
    ValueV { datatype: f.datatype, name: f.name, nullable: f.nullable, payload }
}

/// A field the batch omitted materializes to the typed null sentinel of
/// its declared type, whatever the mask and whatever the row offset.
pub proof fn lemma_missing_column_defaulting(
    b: Batch,
    offset: int,
    m: ProjectionMask,
    f: FieldV,
    i: int,
    pk: int,
)
    requires
        find_match(b, f) is None,
    ensures
        spec_materialized(b, offset, m, f, i, pk) == (ValueV {
            datatype: f.datatype,
            name: f.name,
            nullable: f.nullable,
            payload: PayloadV::none_of(f.datatype),
        }),
{
}

impl DynRecordRef {
    /// Rebuilds one row of a columnar batch as a dynamic row wrapped with
    /// its deletion flag and timestamp.  The deletion flag is read from
    /// fixed column 0, the timestamp from fixed column 1; every field of
    /// the full schema after the two fixed columns becomes one column of
    /// the row, as `spec_materialized` states.  Schema/batch pairings
    /// that would be internal-consistency faults (type mismatches on the
    /// fixed columns, an out-of-range row offset or primary index, a
    /// missing or null primary-key value) are excluded by contract.
    #[verifier::loop_isolation(false)]
    pub fn from_record_batch(
        batch: &Batch,
        offset: usize,
        projection_mask: &ProjectionMask,
        full_schema: &FullSchema,
    ) -> (r: OptionRecordRef)
        requires
            batch.wf(),
            offset < batch.num_rows,
            batch.columns@.len() >= 2,
            batch.columns@[0].field.datatype == DataType::Boolean,
            batch.columns@[0].cell(offset as int) is Some,
            batch.columns@[1].field.datatype == DataType::UInt32,
            batch.columns@[1].cell(offset as int) is Some,
            USER_COLUMN_OFFSET + full_schema.primary_key_index < full_schema.fields@.len(),
            find_match(
                *batch,
                full_schema.fields@[USER_COLUMN_OFFSET + full_schema.primary_key_index]@,
            ) matches Some(j) && batch.columns@[j].cell(offset as int) is Some,
        ensures
            batch.columns@[0].cell(offset as int) == Some(ScalarV::Boolean(r.deleted)),
            batch.columns@[1].cell(offset as int) == Some(ScalarV::UInt32(r.ts)),
            r.record@.wf(),
            r.record@.primary_index == full_schema.primary_key_index as int,
            r.record@.columns.len() == full_schema.fields@.len() - USER_COLUMN_OFFSET,
            forall|i: int|
                0 <= i < r.record@.columns.len() ==> #[trigger] r.record@.columns[i]
                    == spec_materialized(
                    *batch,
                    offset as int,
                    *projection_mask,
                    full_schema.fields@[i + USER_COLUMN_OFFSET]@,
                    i,
                    full_schema.primary_key_index as int,
                ),
    {
        let deleted: bool = match &batch.columns[0].cells[offset] {
            Some(Scalar::Boolean(b)) => *b,
            _ => {
                proof {
                    assert(false);
                }
                false
            },
        };
        let ts: u32 = match &batch.columns[1].cells[offset] {
            Some(Scalar::UInt32(x)) => *x,
            _ => {
                proof {
                    assert(false);
                }
                0
            },
        };
        let pk = full_schema.primary_key_index;
        let mut columns: Vec<Value> = Vec::new();
        let mut idx: usize = USER_COLUMN_OFFSET;
        while idx < full_schema.fields.len()
            invariant
                USER_COLUMN_OFFSET <= idx <= full_schema.fields@.len(),
                columns@.len() == idx - USER_COLUMN_OFFSET,
                forall|i: int|
                    0 <= i < columns@.len() ==> (#[trigger] columns@[i]@)
                        == spec_materialized(
                        *batch,
                        offset as int,
                        *projection_mask,
                        full_schema.fields@[i + USER_COLUMN_OFFSET]@,
                        i,
                        pk as int,
                    ),
                forall|i: int| 0 <= i < columns@.len() ==> (#[trigger] columns@[i]@).wf(),
                forall|i: int|
                    0 <= i < columns@.len() ==> ((#[trigger] columns@[i]@).payload is Required
                        <==> i == pk as int),
            decreases full_schema.fields@.len() - idx,
        {
            let field = &full_schema.fields[idx];
            let is_primary = idx - USER_COLUMN_OFFSET == pk;
            let value = match find_batch_field(batch, field) {
                None => {
                    proof {
                        assert(!is_primary);
                    }
                    Value::with_none_value(field.datatype, field.name.clone(), field.nullable)
                },
                Some(j) => {
                    let col = &batch.columns[j];
                    let payload = match &col.cells[offset] {
                        None => {
                            proof {
                                assert(!is_primary);
                            }
                            Payload::Optional(field.datatype, None)
                        },
                        Some(s) => {
                            if is_primary {
                                Payload::Required(s.dup())
                            } else if projection_mask.leaf_included(idx) {
                                Payload::Optional(field.datatype, Some(s.dup()))
                            } else {
                                Payload::Optional(field.datatype, None)
                            }
                        },
                    };
                    Value {
                        datatype: field.datatype,
                        name: field.name.clone(),
                        nullable: field.nullable,
                        payload,
                    }
                },
            };
            columns.push(value);
            idx = idx + 1;
        }
        let record = DynRecordRef { columns, primary_index: pk };
        OptionRecordRef::new(ts, record, deleted)
    }
}

} // verus!
