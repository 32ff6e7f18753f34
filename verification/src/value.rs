//! Column values: a named, nullable, type-tagged container whose payload is
//! a tagged union over the supported primitives, carrying either a bare
//! value (primary-key columns, never null) or an optional value (all other
//! columns).
use vstd::prelude::*;

use crate::datatype::DataType;

verus! {

/// One primitive value.  Floats are held as their IEEE 754 bit patterns
/// (`u32` for 32-bit, `u64` for 64-bit) so that every payload is a plain
/// integer, boolean, text or byte value.
#[derive(Debug, PartialEq, Eq)]
pub enum Scalar {
    UInt8(u8),
    UInt16(u16),
    UInt32(u32),
    UInt64(u64),
    Int8(i8),
    Int16(i16),
    Int32(i32),
    Int64(i64),
    Float32(u32),
    Float64(u64),
    Boolean(bool),
    Utf8(String),
    Bytes(Vec<u8>),
}

/// Mathematical model of a `Scalar`: text and bytes become sequences.
#[verifier::ext_equal]
pub enum ScalarV {
    UInt8(u8),
    UInt16(u16),
    UInt32(u32),
    UInt64(u64),
    Int8(i8),
    Int16(i16),
    Int32(i32),
    Int64(i64),
    Float32(u32),
    Float64(u64),
    Boolean(bool),
    Utf8(Seq<char>),
    Bytes(Seq<u8>),
}

impl View for Scalar {
    type V = ScalarV;

    open spec fn view(&self) -> ScalarV {
        match self {
            Scalar::UInt8(x) => ScalarV::UInt8(*x),
            Scalar::UInt16(x) => ScalarV::UInt16(*x),
            Scalar::UInt32(x) => ScalarV::UInt32(*x),
            Scalar::UInt64(x) => ScalarV::UInt64(*x),
            Scalar::Int8(x) => ScalarV::Int8(*x),
            Scalar::Int16(x) => ScalarV::Int16(*x),
            Scalar::Int32(x) => ScalarV::Int32(*x),
            Scalar::Int64(x) => ScalarV::Int64(*x),
            Scalar::Float32(x) => ScalarV::Float32(*x),
            Scalar::Float64(x) => ScalarV::Float64(*x),
            Scalar::Boolean(x) => ScalarV::Boolean(*x),
            Scalar::Utf8(s) => ScalarV::Utf8(s@),
            Scalar::Bytes(b) => ScalarV::Bytes(b@),
        }
    }
}

impl ScalarV {
    /// The type tag this scalar belongs to.
    pub open spec fn dt(self) -> DataType {
        match self {
            ScalarV::UInt8(_) => DataType::UInt8,
            ScalarV::UInt16(_) => DataType::UInt16,
            ScalarV::UInt32(_) => DataType::UInt32,
            ScalarV::UInt64(_) => DataType::UInt64,
            ScalarV::Int8(_) => DataType::Int8,
            ScalarV::Int16(_) => DataType::Int16,
            ScalarV::Int32(_) => DataType::Int32,
            ScalarV::Int64(_) => DataType::Int64,
            ScalarV::Float32(_) => DataType::Float32,
            ScalarV::Float64(_) => DataType::Float64,
            ScalarV::Boolean(_) => DataType::Boolean,
            ScalarV::Utf8(_) => DataType::Utf8,
            ScalarV::Bytes(_) => DataType::Bytes,
        }
    }
}

impl Scalar {
    /// An owned copy equal to `self` in the model.
    pub fn dup(&self) -> (r: Scalar)
        ensures
            r@ == self@,
    {
        match self {
            Scalar::UInt8(x) => Scalar::UInt8(*x),
            Scalar::UInt16(x) => Scalar::UInt16(*x),
            Scalar::UInt32(x) => Scalar::UInt32(*x),
            Scalar::UInt64(x) => Scalar::UInt64(*x),
            Scalar::Int8(x) => Scalar::Int8(*x),
            Scalar::Int16(x) => Scalar::Int16(*x),
            Scalar::Int32(x) => Scalar::Int32(*x),
            Scalar::Int64(x) => Scalar::Int64(*x),
            Scalar::Float32(x) => Scalar::Float32(*x),
            Scalar::Float64(x) => Scalar::Float64(*x),
            Scalar::Boolean(x) => Scalar::Boolean(*x),
            Scalar::Utf8(s) => Scalar::Utf8(s.clone()),
            Scalar::Bytes(b) => Scalar::Bytes(dup_bytes(b)),
        }
    }
}

/// An owned copy of a byte vector with the same contents.
fn dup_bytes(v: &Vec<u8>) -> (r: Vec<u8>)
    ensures
        r@ == v@,
{
    let mut r: Vec<u8> = Vec::new();
    let mut i: usize = 0;
    while i < v.len()
        invariant
            i <= v.len(),
            r@ == v@.take(i as int),
        decreases v.len() - i,
    {
        r.push(v[i]);
        i = i + 1;
        proof {
            assert(r@ =~= v@.take(i as int));
        }
    }
    proof {
        assert(r@ =~= v@);
    }
    r
}

/// The contents of a column: a bare scalar for the primary-key column
/// (never null), an optional scalar for every other column.  An absent
/// optional keeps the column's type tag so the typed null sentinel can be
/// told apart from every other type's sentinel.
#[derive(Debug, PartialEq, Eq)]
pub enum Payload {
    Required(Scalar),
    Optional(DataType, Option<Scalar>),
}

/// Mathematical model of a `Payload`.
#[verifier::ext_equal]
pub enum PayloadV {
    Required(ScalarV),
    Optional(DataType, Option<ScalarV>),
}

impl View for Payload {
    type V = PayloadV;

    open spec fn view(&self) -> PayloadV {
        match self {
            Payload::Required(s) => PayloadV::Required(s@),
            Payload::Optional(d, Some(s)) => PayloadV::Optional(*d, Some(s@)),
            Payload::Optional(d, None) => PayloadV::Optional(*d, None),
        }
    }
}

impl PayloadV {
    /// The type tag the payload carries a value of.
    pub open spec fn dt(self) -> DataType {
        match self {
            PayloadV::Required(s) => s.dt(),
            PayloadV::Optional(d, _) => d,
        }
    }

    /// A present optional must hold a scalar of the declared type.
    pub open spec fn wf(self) -> bool {
        match self {
            PayloadV::Required(_) => true,
            PayloadV::Optional(d, Some(s)) => s.dt() == d,
            PayloadV::Optional(_, None) => true,
        }
    }

    /// The typed null sentinel of the given type.
    pub open spec fn none_of(d: DataType) -> PayloadV {
        PayloadV::Optional(d, None)
    }
}

impl Payload {
    /// An owned copy equal to `self` in the model.
    pub fn dup(&self) -> (r: Payload)
        ensures
            r@ == self@,
    {
        match self {
            Payload::Required(s) => Payload::Required(s.dup()),
            Payload::Optional(d, Some(s)) => Payload::Optional(*d, Some(s.dup())),
            Payload::Optional(d, None) => Payload::Optional(*d, None),
        }
    }
}

/// A named, nullable, type-tagged column value.  The type tag and name
/// never change after creation; only projection replaces the payload, and
/// only with the typed null sentinel of the same tag.
#[derive(Debug, PartialEq, Eq)]
pub struct Value {
    pub datatype: DataType,
    pub name: String,
    pub nullable: bool,
    pub payload: Payload,
}

/// Mathematical model of a `Value`.
#[verifier::ext_equal]
pub struct ValueV {
    pub datatype: DataType,
    pub name: Seq<char>,
    pub nullable: bool,
    pub payload: PayloadV,
}

impl View for Value {
    type V = ValueV;

    open spec fn view(&self) -> ValueV {
        ValueV {
            datatype: self.datatype,
            name: self.name@,
            nullable: self.nullable,
            payload: self.payload@,
        }
    }
}

impl ValueV {
    /// The payload always carries a value of the declared type.
    pub open spec fn wf(self) -> bool {
        &&& self.payload.wf()
        &&& self.payload.dt() == self.datatype
    }

    /// `self` with its payload replaced by the typed null sentinel.
    pub open spec fn nulled(self) -> ValueV {
        ValueV { payload: PayloadV::none_of(self.datatype), ..self }
    }
}

impl Value {
    /// A column value; the caller supplies a payload matching `datatype`.
    pub fn new(datatype: DataType, name: String, payload: Payload, nullable: bool) -> (r: Value)
        requires
            payload@.wf(),
            payload@.dt() == datatype,
        ensures
            r@ == (ValueV { datatype, name: name@, nullable, payload: payload@ }),
            r@.wf(),
    {
        Value { datatype, name, nullable, payload }
    }

    /// A column whose payload is the typed null sentinel of `datatype`.
    pub fn with_none_value(datatype: DataType, name: String, nullable: bool) -> (r: Value)
        ensures
            r@ == (ValueV {
                datatype,
                name: name@,
                nullable,
                payload: PayloadV::none_of(datatype),
            }),
            r@.wf(),
    {
        Value { datatype, name, nullable, payload: Payload::Optional(datatype, None) }
    }

    /// The column's type tag.
    pub fn datatype(&self) -> (r: DataType)
        ensures
            r == self@.datatype,
    {
        self.datatype
    }

    /// An owned copy equal to `self` in the model.
    pub fn dup(&self) -> (r: Value)
        ensures
            r@ == self@,
    {
        Value {
            datatype: self.datatype,
            name: self.name.clone(),
            nullable: self.nullable,
            payload: self.payload.dup(),
        }
    }
}

} // verus!
