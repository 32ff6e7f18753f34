//! Projection masks: which leaves of the full schema's flattened field
//! list a query wants materialized.  Leaf numbering starts at the fixed
//! system columns, so user column `i` of a row answers to leaf
//! `i + USER_COLUMN_OFFSET`.
use vstd::prelude::*;

verus! {

/// A projection mask: either "include everything" or an explicit
/// per-leaf inclusion vector.  A leaf beyond the vector's end is treated
/// as excluded.
pub struct ProjectionMask {
    leaves: Option<Vec<bool>>,
}

impl ProjectionMask {
    /// Whether the mask includes the given leaf.
    pub closed spec fn spec_included(&self, leaf: int) -> bool {
        match self.leaves {
            Option::None => true,
            Option::Some(v) => 0 <= leaf < v@.len() && v@[leaf],
        }
    }

    /// Whether the mask includes every leaf.
    pub closed spec fn is_all(&self) -> bool {
        self.leaves is None
    }

    /// The mask that includes every leaf.
    pub fn all() -> (r: ProjectionMask)
        ensures
            r.is_all(),
            forall|leaf: int| r.spec_included(leaf),
    {
        ProjectionMask { leaves: None }
    }

    /// A mask that includes exactly the leaves marked `true`.
    pub fn from_leaves(leaves: Vec<bool>) -> (r: ProjectionMask)
        ensures
            forall|leaf: int|
                r.spec_included(leaf) == (0 <= leaf < leaves@.len() && leaves@[leaf]),
    {
        ProjectionMask { leaves: Some(leaves) }
    }

    /// Whether the mask includes the given leaf.
    pub fn leaf_included(&self, leaf: usize) -> (r: bool)
        ensures
            r == self.spec_included(leaf as int),
    {
        match &self.leaves {
            None => true,
            Some(v) => leaf < v.len() && v[leaf],
        }
    }
}

} // verus!
