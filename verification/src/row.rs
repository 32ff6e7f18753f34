//! Dynamic rows: an ordered sequence of column values plus the index of
//! the primary-key column, and the projection that nulls excluded columns
//! in place.
use vstd::prelude::*;
use vstd::pervasive::VecAdditionalExecFns;

use crate::mask::ProjectionMask;
use crate::value::{Payload, PayloadV, Value, ValueV};
use crate::USER_COLUMN_OFFSET;

verus! {

/// Mathematical model of a dynamic row.
#[verifier::ext_equal]
pub struct RowView {
    pub columns: Seq<ValueV>,
    pub primary_index: int,
}

impl RowView {
    /// The row invariant: the primary index is in range, every column's
    /// payload matches its type tag, and a column holds a bare (never
    /// null) payload exactly when it is the primary-key column.
    pub open spec fn wf(self) -> bool {
        &&& 0 <= self.primary_index < self.columns.len()
        &&& forall|i: int|
            0 <= i < self.columns.len() ==> (#[trigger] self.columns[i]).wf()
        &&& forall|i: int|
            0 <= i < self.columns.len() ==> ((#[trigger] self.columns[i]).payload is Required
                <==> i == self.primary_index)
    }
}

/// A database row whose column layout is determined at run time.
#[derive(Debug, PartialEq, Eq)]
pub struct DynRecordRef {
    pub columns: Vec<Value>,
    pub primary_index: usize,
}

impl View for DynRecordRef {
    type V = RowView;

    open spec fn view(&self) -> RowView {
        RowView {
            columns: Seq::new(self.columns@.len(), |i: int| self.columns@[i]@),
            primary_index: self.primary_index as int,
        }
    }
}

impl DynRecordRef {
    /// A row from its columns and the index of its primary-key column.
    /// The caller must honour the row invariant: the primary column (and
    /// only it) carries a bare payload, and every payload matches its tag.
    pub fn new(columns: Vec<Value>, primary_index: usize) -> (r: DynRecordRef)
        requires
            primary_index < columns@.len(),
            forall|i: int| 0 <= i < columns@.len() ==> (#[trigger] columns@[i]@).wf(),
            forall|i: int|
                0 <= i < columns@.len() ==> ((#[trigger] columns@[i]@).payload is Required
                    <==> i == primary_index as int),
        ensures
            r@.primary_index == primary_index as int,
            r@.columns.len() == columns@.len(),
            forall|i: int| 0 <= i < columns@.len() ==> r@.columns[i] == #[trigger] columns@[i]@,
            r@.wf(),
    {
        DynRecordRef { columns, primary_index }
    }

    /// The primary-key column, which always exists and is never null.
    pub fn key(self) -> (r: Value)
        requires
            self@.wf(),
        ensures
            r@ == self@.columns[self@.primary_index],
    {
        let mut columns = self.columns;
        columns.swap_remove(self.primary_index)
    }

    /// Nulls out, in place, every non-primary column whose leaf position
    /// (column index plus the fixed system-column offset) the mask
    /// excludes.  Type tags, names and nullability are untouched, and the
    /// primary-key column is never touched.
    pub fn projection(&mut self, projection_mask: &ProjectionMask)
        requires
            old(self)@.wf(),
            old(self)@.columns.len() + USER_COLUMN_OFFSET <= usize::MAX,
        ensures
            final(self)@ == spec_project(old(self)@, *projection_mask),
            final(self)@.wf(),
    {
        let ghost target = spec_project(old(self)@, *projection_mask);
        let len = self.columns.len();
        let mut idx: usize = 0;
        while idx < len
            invariant
                old(self)@.wf(),
                idx <= len,
                len + USER_COLUMN_OFFSET <= usize::MAX,
                len == self.columns@.len(),
                target == spec_project(old(self)@, *projection_mask),
                self.primary_index == old(self).primary_index,
                target.columns.len() == len as int,
                forall|j: int| 0 <= j < idx ==> self@.columns[j] == target.columns[j],
                forall|j: int|
                    idx <= j < len ==> self@.columns[j] == old(self)@.columns[j],
            decreases len - idx,
        {
            if idx != self.primary_index && !projection_mask.leaf_included(
                idx + USER_COLUMN_OFFSET,
            ) {
                let col = &self.columns[idx];
                let replacement = Value {
                    datatype: col.datatype,
                    name: col.name.clone(),
                    nullable: col.nullable,
                    payload: Payload::Optional(col.datatype, None),
                };
                proof {
                    assert(replacement@ == old(self)@.columns[idx as int].nulled());
                }
                self.columns.set(idx, replacement);
            }
            idx = idx + 1;
        }
        proof {
            assert(self@.columns =~= target.columns);
            assert(self@ =~= target);
            lemma_project_wf(old(self)@, *projection_mask);
        }
    }
}

/// One column after projection: kept when it is the primary-key column or
/// the mask includes its leaf, otherwise replaced by its typed null
/// sentinel.
pub open spec fn project_column(v: ValueV, primary: bool, included: bool) -> ValueV {
    if primary || included {
        v
    } else {
        v.nulled()
    }
}

/// The row that projecting `r` under mask `m` yields.
pub open spec fn spec_project(r: RowView, m: ProjectionMask) -> RowView {
    RowView {
        columns: Seq::new(
            r.columns.len(),
            |i: int|
                project_column(
                    r.columns[i],
                    i == r.primary_index,
                    m.spec_included(i + USER_COLUMN_OFFSET as int),
                ),
        ),
        primary_index: r.primary_index,
    }
}

/// Projection preserves the row invariant: a nulled column keeps its type
/// tag, and the primary column keeps its bare payload.
pub proof fn lemma_project_wf(r: RowView, m: ProjectionMask)
    requires
        r.wf(),
    ensures
        spec_project(r, m).wf(),
{
}

/// Projection is idempotent: applying the same mask twice yields the same
/// row as applying it once.
pub proof fn lemma_projection_idempotent(r: RowView, m: ProjectionMask)
    requires
        r.wf(),
    ensures
        spec_project(spec_project(r, m), m) == spec_project(r, m),
{
    let once = spec_project(r, m);
    let twice = spec_project(once, m);
    assert forall|i: int| 0 <= i < once.columns.len() implies twice.columns[i]
        == once.columns[i] by {
        assert(once.columns[i].nulled() == once.columns[i]
            || m.spec_included(i + USER_COLUMN_OFFSET as int) || i == r.primary_index);
    }
    assert(twice.columns =~= once.columns);
    assert(twice =~= once);
}

/// The primary-key column is invariant under projection, whatever the
/// mask (the empty mask included).
pub proof fn lemma_projection_preserves_primary(r: RowView, m: ProjectionMask)
    requires
        r.wf(),
    ensures
        spec_project(r, m).primary_index == r.primary_index,
        spec_project(r, m).columns[r.primary_index] == r.columns[r.primary_index],
{
}

/// Applying a mask that includes every leaf changes nothing: no column
/// that was non-null before projection is nulled.
pub proof fn lemma_full_projection_identity(r: RowView, m: ProjectionMask)
    requires
        r.wf(),
        forall|leaf: int| m.spec_included(leaf),
    ensures
        spec_project(r, m) == r,
{
    assert(spec_project(r, m).columns =~= r.columns);
    assert(spec_project(r, m) =~= r);
}

/// A dynamic row as the batch materializer hands it out: paired with its
/// version timestamp and its deletion (tombstone) flag.
pub struct OptionRecordRef {
    pub ts: u32,
    pub record: DynRecordRef,
    pub deleted: bool,
}

impl OptionRecordRef {
    /// Pairs a materialized row with its timestamp and deletion flag.
    pub fn new(ts: u32, record: DynRecordRef, deleted: bool) -> (r: OptionRecordRef)
        ensures
            r.ts == ts,
            r.record@ == record@,
            r.deleted == deleted,
    {
        OptionRecordRef { ts, record, deleted }
    }
}

} // verus!
