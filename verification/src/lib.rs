//! Dynamic record model: a database row whose column set and primitive
//! types are chosen at run time.  A row moves losslessly between an
//! in-memory sequence of typed column values, a compact binary form for a
//! durable log, and a row extracted from a columnar batch under a
//! projection mask.
use vstd::prelude::*;

pub mod batch;
pub mod codec;
pub mod datatype;
pub mod mask;
pub mod row;
pub mod value;

verus! {

/// Number of fixed system columns (deletion flag, timestamp) that precede
/// the user columns in a full schema; projection leaf numbering is offset
/// by this amount.
pub const USER_COLUMN_OFFSET: usize = 2;

} // verus!
