//! The closed set of primitive column types a dynamic row can hold.
use vstd::prelude::*;

verus! {

/// Identifies one of the thirteen primitive kinds a column can carry.
/// Float values are carried by their IEEE 754 bit patterns so the model
/// stays within integer arithmetic.
#[derive(Clone, Copy, Debug, PartialEq, Eq, Structural)]
pub enum DataType {
    UInt8,
    UInt16,
    UInt32,
    UInt64,
    Int8,
    Int16,
    Int32,
    Int64,
    Float32,
    Float64,
    Boolean,
    Utf8,
    Bytes,
}

} // verus!
