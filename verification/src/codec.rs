//! The log encoding of a dynamic row: a self-describing byte stream with
//! an exact size computation and a lossless decoder.
//!
//! The layout is the durable log-replay contract: a header of two 32-bit
//! little-endian fields (column count, primary index), then each column in
//! declaration order.  A column is its type tag byte, its nullability
//! byte, its length-prefixed UTF-8 name, and its payload: a mode byte
//! (absent, present, or bare for the primary-key column) followed by the
//! value, fixed-width for numerics and booleans, length-prefixed for text
//! and bytes.
use vstd::prelude::*;

use crate::datatype::DataType;
use crate::row::{DynRecordRef, RowView};
use crate::value::{Payload, PayloadV, Scalar, ScalarV, Value, ValueV};

verus! {

use vstd::utf8::{decode_utf8, encode_utf8, valid_utf8};

/// The little-endian bytes of a 16-bit integer.
pub open spec fn le16(x: u16) -> Seq<u8> {
    seq![(x & 0xff) as u8, ((x >> 8) & 0xff) as u8]
}

/// The little-endian bytes of a 32-bit integer.
pub open spec fn le32(x: u32) -> Seq<u8> {
    seq![
        (x & 0xff) as u8,
        ((x >> 8) & 0xff) as u8,
        ((x >> 16) & 0xff) as u8,
        ((x >> 24) & 0xff) as u8,
    ]
}

/// The little-endian bytes of a 64-bit integer.
pub open spec fn le64(x: u64) -> Seq<u8> {
    seq![
        (x & 0xff) as u8,
        ((x >> 8) & 0xff) as u8,
        ((x >> 16) & 0xff) as u8,
        ((x >> 24) & 0xff) as u8,
        ((x >> 32) & 0xff) as u8,
        ((x >> 40) & 0xff) as u8,
        ((x >> 48) & 0xff) as u8,
        ((x >> 56) & 0xff) as u8,
    ]
}

/// The 16-bit integer whose little-endian bytes are `b0 b1`.
pub open spec fn u16_of_le(b0: u8, b1: u8) -> u16 {
    (b0 as u16) | ((b1 as u16) << 8)
}

/// The 32-bit integer whose little-endian bytes are `b0 b1 b2 b3`.
pub open spec fn u32_of_le(b0: u8, b1: u8, b2: u8, b3: u8) -> u32 {
    (b0 as u32) | ((b1 as u32) << 8) | ((b2 as u32) << 16) | ((b3 as u32) << 24)
}

/// The 64-bit integer whose little-endian bytes are `b0 .. b7`.
pub open spec fn u64_of_le(b0: u8, b1: u8, b2: u8, b3: u8, b4: u8, b5: u8, b6: u8, b7: u8) -> u64 {
    (b0 as u64) | ((b1 as u64) << 8) | ((b2 as u64) << 16) | ((b3 as u64) << 24) | ((b4
        as u64) << 32) | ((b5 as u64) << 40) | ((b6 as u64) << 48) | ((b7 as u64) << 56)
}

/// Reading back the little-endian bytes of a 16-bit integer returns it.
pub proof fn lemma_le16_roundtrip(x: u16)
    ensures
        u16_of_le(le16(x)[0], le16(x)[1]) == x,
{
    assert(u16_of_le((x & 0xff) as u8, ((x >> 8) & 0xff) as u8) == x) by (bit_vector);
}

/// Reading back the little-endian bytes of a 32-bit integer returns it.
pub proof fn lemma_le32_roundtrip(x: u32)
    ensures
        u32_of_le(le32(x)[0], le32(x)[1], le32(x)[2], le32(x)[3]) == x,
{
    assert(u32_of_le(
        (x & 0xff) as u8,
        ((x >> 8) & 0xff) as u8,
        ((x >> 16) & 0xff) as u8,
        ((x >> 24) & 0xff) as u8,
    ) == x) by (bit_vector);
}

/// Reading back the little-endian bytes of a 64-bit integer returns it.
pub proof fn lemma_le64_roundtrip(x: u64)
    ensures
        u64_of_le(
            le64(x)[0],
            le64(x)[1],
            le64(x)[2],
            le64(x)[3],
            le64(x)[4],
            le64(x)[5],
            le64(x)[6],
            le64(x)[7],
        ) == x,
{
    assert(u64_of_le(
        (x & 0xff) as u8,
        ((x >> 8) & 0xff) as u8,
        ((x >> 16) & 0xff) as u8,
        ((x >> 24) & 0xff) as u8,
        ((x >> 32) & 0xff) as u8,
        ((x >> 40) & 0xff) as u8,
        ((x >> 48) & 0xff) as u8,
        ((x >> 56) & 0xff) as u8,
    ) == x) by (bit_vector);
}

/// Appends the little-endian bytes of a 16-bit integer.
pub fn push_u16_le(buf: &mut Vec<u8>, x: u16)
    ensures
        final(buf)@ == old(buf)@ + le16(x),
{
    buf.push((x & 0xff) as u8);
    buf.push(((x >> 8) & 0xff) as u8);
    proof {
        assert(buf@ =~= old(buf)@ + le16(x));
    }
}

/// Appends the little-endian bytes of a 32-bit integer.
pub fn push_u32_le(buf: &mut Vec<u8>, x: u32)
    ensures
        final(buf)@ == old(buf)@ + le32(x),
{
    buf.push((x & 0xff) as u8);
    buf.push(((x >> 8) & 0xff) as u8);
    buf.push(((x >> 16) & 0xff) as u8);
    buf.push(((x >> 24) & 0xff) as u8);
    proof {
        assert(buf@ =~= old(buf)@ + le32(x));
    }
}

/// Appends the little-endian bytes of a 64-bit integer.
pub fn push_u64_le(buf: &mut Vec<u8>, x: u64)
    ensures
        final(buf)@ == old(buf)@ + le64(x),
{
    buf.push((x & 0xff) as u8);
    buf.push(((x >> 8) & 0xff) as u8);
    buf.push(((x >> 16) & 0xff) as u8);
    buf.push(((x >> 24) & 0xff) as u8);
    buf.push(((x >> 32) & 0xff) as u8);
    buf.push(((x >> 40) & 0xff) as u8);
    buf.push(((x >> 48) & 0xff) as u8);
    buf.push(((x >> 56) & 0xff) as u8);
    proof {
        assert(buf@ =~= old(buf)@ + le64(x));
    }
}

/// Appends all bytes of a slice.
pub fn push_bytes(buf: &mut Vec<u8>, b: &[u8])
    ensures
        final(buf)@ == old(buf)@ + b@,
{
    let mut i: usize = 0;
    while i < b.len()
        invariant
            i <= b.len(),
            buf@ == old(buf)@ + b@.take(i as int),
        decreases b.len() - i,
    {
        let x = b[i];
        buf.push(x);
        i = i + 1;
        proof {
            assert(buf@ =~= old(buf)@ + b@.take(i as int));
        }
    }
    proof {
        assert(buf@ =~= old(buf)@ + b@);
    }
}

/// The tag byte that names a type in the encoded stream.
pub open spec fn tag_byte(d: DataType) -> u8 {
    match d {
        DataType::UInt8 => 0u8,
        DataType::UInt16 => 1u8,
        DataType::UInt32 => 2u8,
        DataType::UInt64 => 3u8,
        DataType::Int8 => 4u8,
        DataType::Int16 => 5u8,
        DataType::Int32 => 6u8,
        DataType::Int64 => 7u8,
        DataType::Float32 => 8u8,
        DataType::Float64 => 9u8,
        DataType::Boolean => 10u8,
        DataType::Utf8 => 11u8,
        DataType::Bytes => 12u8,
    }
}

/// The type a tag byte names, if any.
pub open spec fn dt_of_tag(t: u8) -> Option<DataType> {
    if t == 0 {
        Some(DataType::UInt8)
    } else if t == 1 {
        Some(DataType::UInt16)
    } else if t == 2 {
        Some(DataType::UInt32)
    } else if t == 3 {
        Some(DataType::UInt64)
    } else if t == 4 {
        Some(DataType::Int8)
    } else if t == 5 {
        Some(DataType::Int16)
    } else if t == 6 {
        Some(DataType::Int32)
    } else if t == 7 {
        Some(DataType::Int64)
    } else if t == 8 {
        Some(DataType::Float32)
    } else if t == 9 {
        Some(DataType::Float64)
    } else if t == 10 {
        Some(DataType::Boolean)
    } else if t == 11 {
        Some(DataType::Utf8)
    } else if t == 12 {
        Some(DataType::Bytes)
    } else {
        None
    }
}

/// The byte a boolean encodes to.
pub open spec fn bool_byte(b: bool) -> u8 {
    if b {
        1u8
    } else {
        0u8
    }
}

/// The encoding of a text value: byte length, then the UTF-8 bytes.
pub open spec fn enc_str(s: Seq<char>) -> Seq<u8> {
    le32(encode_utf8(s).len() as u32) + encode_utf8(s)
}

/// The encoding of one scalar value.
pub open spec fn enc_scalar(s: ScalarV) -> Seq<u8> {
    match s {
        ScalarV::UInt8(x) => seq![x],
        ScalarV::UInt16(x) => le16(x),
        ScalarV::UInt32(x) => le32(x),
        ScalarV::UInt64(x) => le64(x),
        ScalarV::Int8(x) => seq![x as u8],
        ScalarV::Int16(x) => le16(x as u16),
        ScalarV::Int32(x) => le32(x as u32),
        ScalarV::Int64(x) => le64(x as u64),
        ScalarV::Float32(x) => le32(x),
        ScalarV::Float64(x) => le64(x),
        ScalarV::Boolean(b) => seq![bool_byte(b)],
        ScalarV::Utf8(s) => enc_str(s),
        ScalarV::Bytes(b) => le32(b.len() as u32) + b,
    }
}

/// A scalar's variable-length parts fit their 32-bit length prefixes.
pub open spec fn scalar_encodable(s: ScalarV) -> bool {
    match s {
        ScalarV::Utf8(s) => encode_utf8(s).len() <= u32::MAX,
        ScalarV::Bytes(b) => b.len() <= u32::MAX,
        _ => true,
    }
}

/// Payload mode bytes: absent optional, present optional, bare (primary).
pub open spec fn enc_payload(p: PayloadV) -> Seq<u8> {
    match p {
        PayloadV::Optional(_, None) => seq![0u8],
        PayloadV::Optional(_, Some(s)) => seq![1u8] + enc_scalar(s),
        PayloadV::Required(s) => seq![2u8] + enc_scalar(s),
    }
}

/// Whether a payload's scalar, if any, is encodable.
pub open spec fn payload_encodable(p: PayloadV) -> bool {
    match p {
        PayloadV::Optional(_, None) => true,
        PayloadV::Optional(_, Some(s)) => scalar_encodable(s),
        PayloadV::Required(s) => scalar_encodable(s),
    }
}

/// The encoding of one column: tag, nullability, name, payload.
pub open spec fn enc_value(v: ValueV) -> Seq<u8> {
    seq![tag_byte(v.datatype), bool_byte(v.nullable)] + enc_str(v.name) + enc_payload(v.payload)
}

/// The column's name and payload fit their length prefixes.
pub open spec fn value_encodable(v: ValueV) -> bool {
    &&& encode_utf8(v.name).len() <= u32::MAX
    &&& payload_encodable(v.payload)
}

/// The columns' encodings, in declaration order.
pub open spec fn enc_columns(cs: Seq<ValueV>) -> Seq<u8>
    decreases cs.len(),
{
    if cs.len() == 0 {
        Seq::empty()
    } else {
        enc_value(cs[0]) + enc_columns(cs.drop_first())
    }
}

/// The full encoding of a row: header, then every column.
pub open spec fn spec_encode(r: RowView) -> Seq<u8> {
    le32(r.columns.len() as u32) + le32(r.primary_index as u32) + enc_columns(r.columns)
}

/// The row fits the format's 32-bit header fields and length prefixes.
pub open spec fn encodable(r: RowView) -> bool {
    &&& r.columns.len() <= u32::MAX
    &&& 0 <= r.primary_index <= u32::MAX
    &&& forall|i: int| 0 <= i < r.columns.len() ==> value_encodable(#[trigger] r.columns[i])
}

/// Appending one column extends the encoding by that column's bytes.
proof fn lemma_enc_columns_push(cs: Seq<ValueV>, v: ValueV)
    ensures
        enc_columns(cs.push(v)) == enc_columns(cs) + enc_value(v),
    decreases cs.len(),
{
    if cs.len() == 0 {
        let s = cs.push(v);
        assert(s[0] == v);
        assert(s.drop_first() =~= Seq::<ValueV>::empty());
        assert(enc_columns(s) == enc_value(v) + enc_columns(Seq::<ValueV>::empty()));
        assert(enc_columns(s) =~= enc_columns(cs) + enc_value(v));
    } else {
        assert(cs.push(v).drop_first() =~= cs.drop_first().push(v));
        lemma_enc_columns_push(cs.drop_first(), v);
        assert(cs.push(v)[0] == cs[0]);
        assert(enc_columns(cs.push(v)) == enc_value(cs[0]) + (enc_columns(cs.drop_first())
            + enc_value(v)));
        assert(enc_value(cs[0]) + (enc_columns(cs.drop_first()) + enc_value(v)) =~= (enc_value(
            cs[0],
        ) + enc_columns(cs.drop_first())) + enc_value(v));
    }
}

/// The encoding of a prefix of the columns is a prefix of the encoding.
proof fn lemma_enc_columns_take_step(cs: Seq<ValueV>, i: int)
    requires
        0 <= i < cs.len(),
    ensures
        enc_columns(cs.take(i + 1)) == enc_columns(cs.take(i)) + enc_value(cs[i]),
{
    assert(cs.take(i + 1) =~= cs.take(i).push(cs[i]));
    lemma_enc_columns_push(cs.take(i), cs[i]);
}

/// Every prefix's encoding is no longer than the whole encoding.
proof fn lemma_enc_columns_take_len(cs: Seq<ValueV>, i: int)
    requires
        0 <= i <= cs.len(),
    ensures
        enc_columns(cs.take(i)).len() + enc_columns_rest_len(cs, i) == enc_columns(cs).len(),
    decreases cs.len() - i,
{
    if i == cs.len() {
        assert(cs.take(i) =~= cs);
    } else {
        lemma_enc_columns_take_step(cs, i);
        lemma_enc_columns_take_len(cs, i + 1);
    }
}

/// The total length of the encodings of the columns from `i` on.
spec fn enc_columns_rest_len(cs: Seq<ValueV>, i: int) -> int
    decreases cs.len() - i,
{
    if i < 0 || i >= cs.len() {
        0
    } else {
        enc_value(cs[i]).len() + enc_columns_rest_len(cs, i + 1)
    }
}

/// A sum of encoding lengths is never negative.
proof fn lemma_rest_len_nonneg(cs: Seq<ValueV>, i: int)
    ensures
        enc_columns_rest_len(cs, i) >= 0,
    decreases cs.len() - i,
{
    if 0 <= i && i < cs.len() {
        lemma_rest_len_nonneg(cs, i + 1);
    }
}

/// The exec tag byte of a type.
fn tag_of(d: DataType) -> (r: u8)
    ensures
        r == tag_byte(d),
{
    match d {
        DataType::UInt8 => 0u8,
        DataType::UInt16 => 1u8,
        DataType::UInt32 => 2u8,
        DataType::UInt64 => 3u8,
        DataType::Int8 => 4u8,
        DataType::Int16 => 5u8,
        DataType::Int32 => 6u8,
        DataType::Int64 => 7u8,
        DataType::Float32 => 8u8,
        DataType::Float64 => 9u8,
        DataType::Boolean => 10u8,
        DataType::Utf8 => 11u8,
        DataType::Bytes => 12u8,
    }
}

/// Appends the length-prefixed UTF-8 encoding of a string.
fn encode_str(buf: &mut Vec<u8>, s: &String)
    requires
        encode_utf8(s@).len() <= u32::MAX,
    ensures
        final(buf)@ == old(buf)@ + enc_str(s@),
{
    let bs = s.as_str().as_bytes();
    push_u32_le(buf, bs.len() as u32);
    push_bytes(buf, bs);
    proof {
        assert(buf@ =~= old(buf)@ + enc_str(s@));
    }
}

/// Appends the encoding of one scalar.
fn encode_scalar(buf: &mut Vec<u8>, s: &Scalar)
    requires
        scalar_encodable(s@),
    ensures
        final(buf)@ == old(buf)@ + enc_scalar(s@),
{
    match s {
        Scalar::UInt8(x) => {
            buf.push(*x);
            proof {
                assert(buf@ =~= old(buf)@ + enc_scalar(s@));
            }
        },
        Scalar::UInt16(x) => push_u16_le(buf, *x),
        Scalar::UInt32(x) => push_u32_le(buf, *x),
        Scalar::UInt64(x) => push_u64_le(buf, *x),
        Scalar::Int8(x) => {
            buf.push(#[verifier::truncate] (*x as u8));
            proof {
                assert(buf@ =~= old(buf)@ + enc_scalar(s@));
            }
        },
        Scalar::Int16(x) => push_u16_le(buf, #[verifier::truncate] (*x as u16)),
        Scalar::Int32(x) => push_u32_le(buf, #[verifier::truncate] (*x as u32)),
        Scalar::Int64(x) => push_u64_le(buf, #[verifier::truncate] (*x as u64)),
        Scalar::Float32(x) => push_u32_le(buf, *x),
        Scalar::Float64(x) => push_u64_le(buf, *x),
        Scalar::Boolean(b) => {
            buf.push(if *b { 1u8 } else { 0u8 });
            proof {
                assert(buf@ =~= old(buf)@ + enc_scalar(s@));
            }
        },
        Scalar::Utf8(t) => encode_str(buf, t),
        Scalar::Bytes(b) => {
            push_u32_le(buf, b.len() as u32);
            push_bytes(buf, b.as_slice());
            proof {
                assert(buf@ =~= old(buf)@ + enc_scalar(s@));
            }
        },
    }
}

/// Appends the encoding of one column.
fn encode_value(buf: &mut Vec<u8>, v: &Value)
    requires
        value_encodable(v@),
    ensures
        final(buf)@ == old(buf)@ + enc_value(v@),
{
    buf.push(tag_of(v.datatype));
    buf.push(if v.nullable { 1u8 } else { 0u8 });
    encode_str(buf, &v.name);
    match &v.payload {
        Payload::Optional(_, None) => {
            buf.push(0u8);
        },
        Payload::Optional(_, Some(s)) => {
            buf.push(1u8);
            encode_scalar(buf, s);
        },
        Payload::Required(s) => {
            buf.push(2u8);
            encode_scalar(buf, s);
        },
    }
    proof {
        assert(buf@ =~= old(buf)@ + enc_value(v@));
    }
}

impl DynRecordRef {
    /// Appends the row's full encoding to `buf`.  Encoding is
    /// deterministic: the bytes are a function of the row's model alone,
    /// so encoding the same row twice produces byte-identical output.
    pub fn encode(&self, buf: &mut Vec<u8>)
        requires
            self@.wf(),
            encodable(self@),
        ensures
            final(buf)@ == old(buf)@ + spec_encode(self@),
    {
        let ghost cs = self@.columns;
        push_u32_le(buf, self.columns.len() as u32);
        push_u32_le(buf, self.primary_index as u32);
        let mut i: usize = 0;
        while i < self.columns.len()
            invariant
                self@.wf(),
                encodable(self@),
                cs == self@.columns,
                i <= self.columns.len(),
                cs.len() == self.columns@.len(),
                buf@ == old(buf)@ + le32(cs.len() as u32) + le32(self@.primary_index as u32)
                    + enc_columns(cs.take(i as int)),
            decreases self.columns.len() - i,
        {
            proof {
                assert(cs[i as int] == self.columns@[i as int]@);
                assert(value_encodable(cs[i as int]));
            }
            encode_value(buf, &self.columns[i]);
            proof {
                lemma_enc_columns_take_step(cs, i as int);
                assert(buf@ =~= old(buf)@ + le32(cs.len() as u32) + le32(
                    self@.primary_index as u32,
                ) + enc_columns(cs.take(i as int + 1)));
            }
            i = i + 1;
        }
        proof {
            assert(cs.take(cs.len() as int) =~= cs);
            assert(buf@ =~= old(buf)@ + spec_encode(self@));
        }
    }

    /// The exact length of the row's encoding, so callers can pre-size
    /// buffers: two 32-bit header fields plus each column's own
    /// variable-length encoded size.
    pub fn size(&self) -> (r: usize)
        requires
            self@.wf(),
            encodable(self@),
            spec_encode(self@).len() <= usize::MAX,
        ensures
            r == spec_encode(self@).len(),
    {
        let ghost cs = self@.columns;
        proof {
            lemma_enc_columns_take_len(cs, 0);
            assert(cs.take(0) =~= Seq::<ValueV>::empty());
        }
        let mut size: usize = 8;
        let mut i: usize = 0;
        while i < self.columns.len()
            invariant
                self@.wf(),
                encodable(self@),
                spec_encode(self@).len() <= usize::MAX,
                cs == self@.columns,
                i <= self.columns.len(),
                cs.len() == self.columns@.len(),
                size == 8 + enc_columns(cs.take(i as int)).len(),
                size + enc_columns_rest_len(cs, i as int) == spec_encode(self@).len(),
            decreases self.columns.len() - i,
        {
            let v = &self.columns[i];
            proof {
                assert(cs[i as int] == self.columns@[i as int]@);
                assert(value_encodable(cs[i as int]));
                lemma_rest_len_nonneg(cs, i as int + 1);
                assert(enc_columns_rest_len(cs, i as int) == enc_value(cs[i as int]).len()
                    + enc_columns_rest_len(cs, i as int + 1));
                assert(enc_value(cs[i as int]).len() == 2 + (4 + encode_utf8(
                    cs[i as int].name,
                ).len()) + enc_payload(cs[i as int].payload).len());
            }
            let name_len = v.name.as_str().len();
            let payload_len: usize = match &v.payload {
                Payload::Optional(_, None) => 1,
                Payload::Optional(_, Some(s)) => {
                    proof {
                        assert(enc_payload(cs[i as int].payload) == seq![1u8] + enc_scalar(s@));
                    }
                    1 + scalar_size(s)
                },
                Payload::Required(s) => {
                    proof {
                        assert(enc_payload(cs[i as int].payload) == seq![2u8] + enc_scalar(s@));
                    }
                    1 + scalar_size(s)
                },
            };
            proof {
                lemma_enc_columns_take_step(cs, i as int);
            }
            size = size + (6 + name_len + payload_len);
            i = i + 1;
        }
        proof {
            assert(cs.take(cs.len() as int) =~= cs);
        }
        size
    }
}

/// Reading one byte from the front.
pub open spec fn dec_u8(b: Seq<u8>) -> Option<(u8, Seq<u8>)> {
    if b.len() >= 1 {
        Some((b[0], b.skip(1)))
    } else {
        None
    }
}

/// Reading a little-endian 16-bit integer from the front.
pub open spec fn dec_u16(b: Seq<u8>) -> Option<(u16, Seq<u8>)> {
    if b.len() >= 2 {
        Some((u16_of_le(b[0], b[1]), b.skip(2)))
    } else {
        None
    }
}

/// Reading a little-endian 32-bit integer from the front.
pub open spec fn dec_u32(b: Seq<u8>) -> Option<(u32, Seq<u8>)> {
    if b.len() >= 4 {
        Some((u32_of_le(b[0], b[1], b[2], b[3]), b.skip(4)))
    } else {
        None
    }
}

/// Reading a little-endian 64-bit integer from the front.
pub open spec fn dec_u64(b: Seq<u8>) -> Option<(u64, Seq<u8>)> {
    if b.len() >= 8 {
        Some((u64_of_le(b[0], b[1], b[2], b[3], b[4], b[5], b[6], b[7]), b.skip(8)))
    } else {
        None
    }
}

/// Reading a strict boolean byte (0 or 1) from the front.
pub open spec fn dec_bool(b: Seq<u8>) -> Option<(bool, Seq<u8>)> {
    match dec_u8(b) {
        None => None,
        Some((x, r)) => if x == 0 {
            Some((false, r))
        } else if x == 1 {
            Some((true, r))
        } else {
            None
        },
    }
}

/// Reading a length-prefixed run of bytes from the front.
pub open spec fn dec_chunk(b: Seq<u8>) -> Option<(Seq<u8>, Seq<u8>)> {
    match dec_u32(b) {
        None => None,
        Some((n, r)) => if r.len() >= n {
            Some((r.take(n as int), r.skip(n as int)))
        } else {
            None
        },
    }
}

/// Reading a length-prefixed UTF-8 string from the front.
pub open spec fn dec_str(b: Seq<u8>) -> Option<(Seq<char>, Seq<u8>)> {
    match dec_chunk(b) {
        None => None,
        Some((bs, r)) => if valid_utf8(bs) {
            Some((decode_utf8(bs), r))
        } else {
            None
        },
    }
}

/// Reading one scalar of the given type from the front.
pub open spec fn dec_scalar(d: DataType, b: Seq<u8>) -> Option<(ScalarV, Seq<u8>)> {
    match d {
        DataType::UInt8 => match dec_u8(b) {
            None => None,
            Some((x, r)) => Some((ScalarV::UInt8(x), r)),
        },
        DataType::UInt16 => match dec_u16(b) {
            None => None,
            Some((x, r)) => Some((ScalarV::UInt16(x), r)),
        },
        DataType::UInt32 => match dec_u32(b) {
            None => None,
            Some((x, r)) => Some((ScalarV::UInt32(x), r)),
        },
        DataType::UInt64 => match dec_u64(b) {
            None => None,
            Some((x, r)) => Some((ScalarV::UInt64(x), r)),
        },
        DataType::Int8 => match dec_u8(b) {
            None => None,
            Some((x, r)) => Some((ScalarV::Int8(x as i8), r)),
        },
        DataType::Int16 => match dec_u16(b) {
            None => None,
            Some((x, r)) => Some((ScalarV::Int16(x as i16), r)),
        },
        DataType::Int32 => match dec_u32(b) {
            None => None,
            Some((x, r)) => Some((ScalarV::Int32(x as i32), r)),
        },
        DataType::Int64 => match dec_u64(b) {
            None => None,
            Some((x, r)) => Some((ScalarV::Int64(x as i64), r)),
        },
        DataType::Float32 => match dec_u32(b) {
            None => None,
            Some((x, r)) => Some((ScalarV::Float32(x), r)),
        },
        DataType::Float64 => match dec_u64(b) {
            None => None,
            Some((x, r)) => Some((ScalarV::Float64(x), r)),
        },
        DataType::Boolean => match dec_bool(b) {
            None => None,
            Some((x, r)) => Some((ScalarV::Boolean(x), r)),
        },
        DataType::Utf8 => match dec_str(b) {
            None => None,
            Some((s, r)) => Some((ScalarV::Utf8(s), r)),
        },
        DataType::Bytes => match dec_chunk(b) {
            None => None,
            Some((bs, r)) => Some((ScalarV::Bytes(bs), r)),
        },
    }
}

/// Reading one payload from the front: a mode byte, then the value.  The
/// bare mode is demanded exactly at the primary-key column.
pub open spec fn dec_payload(d: DataType, primary: bool, b: Seq<u8>) -> Option<
    (PayloadV, Seq<u8>),
> {
    match dec_u8(b) {
        None => None,
        Some((m, r)) => if primary {
            if m == 2 {
                match dec_scalar(d, r) {
                    None => None,
                    Some((s, r2)) => Some((PayloadV::Required(s), r2)),
                }
            } else {
                None
            }
        } else if m == 0 {
            Some((PayloadV::Optional(d, None), r))
        } else if m == 1 {
            match dec_scalar(d, r) {
                None => None,
                Some((s, r2)) => Some((PayloadV::Optional(d, Some(s)), r2)),
            }
        } else {
            None
        },
    }
}

/// Reading one column from the front: tag, nullability, name, payload.
pub open spec fn dec_value(b: Seq<u8>, primary: bool) -> Option<(ValueV, Seq<u8>)> {
    match dec_u8(b) {
        None => None,
        Some((t, r1)) => match dt_of_tag(t) {
            None => None,
            Some(d) => match dec_bool(r1) {
                None => None,
                Some((nullable, r2)) => match dec_str(r2) {
                    None => None,
                    Some((name, r3)) => match dec_payload(d, primary, r3) {
                        None => None,
                        Some((p, r4)) => Some(
                            (ValueV { datatype: d, name, nullable, payload: p }, r4),
                        ),
                    },
                },
            },
        },
    }
}

/// Reading `count` columns from the front, the one at the primary index
/// bare.
pub open spec fn dec_columns(b: Seq<u8>, count: nat, primary: int, idx: int) -> Option<
    (Seq<ValueV>, Seq<u8>),
>
    decreases count,
{
    if count == 0 {
        Some((Seq::empty(), b))
    } else {
        match dec_value(b, idx == primary) {
            None => None,
            Some((v, r)) => match dec_columns(r, (count - 1) as nat, primary, idx + 1) {
                None => None,
                Some((vs, r2)) => Some((seq![v] + vs, r2)),
            },
        }
    }
}

/// The row a byte sequence decodes to, if it is exactly one valid
/// encoding.
pub open spec fn spec_decode(b: Seq<u8>) -> Option<RowView> {
    match dec_u32(b) {
        None => None,
        Some((count, r1)) => match dec_u32(r1) {
            None => None,
            Some((primary, r2)) => if primary < count {
                match dec_columns(r2, count as nat, primary as int, 0) {
                    None => None,
                    Some((vs, r3)) => if r3.len() == 0 {
                        Some(RowView { columns: vs, primary_index: primary as int })
                    } else {
                        None
                    },
                }
            } else {
                None
            },
        },
    }
}

/// Reading back one encoded byte returns it.
proof fn lemma_dec_u8(x: u8, rest: Seq<u8>)
    ensures
        dec_u8(seq![x] + rest) == Some((x, rest)),
{
    assert((seq![x] + rest).skip(1) =~= rest);
}

/// Reading back an encoded 16-bit integer returns it.
proof fn lemma_dec_u16(x: u16, rest: Seq<u8>)
    ensures
        dec_u16(le16(x) + rest) == Some((x, rest)),
{
    lemma_le16_roundtrip(x);
    assert((le16(x) + rest).skip(2) =~= rest);
}

/// Reading back an encoded 32-bit integer returns it.
proof fn lemma_dec_u32(x: u32, rest: Seq<u8>)
    ensures
        dec_u32(le32(x) + rest) == Some((x, rest)),
{
    lemma_le32_roundtrip(x);
    assert((le32(x) + rest).skip(4) =~= rest);
}

/// Reading back an encoded 64-bit integer returns it.
proof fn lemma_dec_u64(x: u64, rest: Seq<u8>)
    ensures
        dec_u64(le64(x) + rest) == Some((x, rest)),
{
    lemma_le64_roundtrip(x);
    assert((le64(x) + rest).skip(8) =~= rest);
}

/// Reading back an encoded boolean returns it.
proof fn lemma_dec_bool(x: bool, rest: Seq<u8>)
    ensures
        dec_bool(seq![bool_byte(x)] + rest) == Some((x, rest)),
{
    lemma_dec_u8(bool_byte(x), rest);
}

/// Reading back a length-prefixed run of bytes returns it.
proof fn lemma_dec_chunk(data: Seq<u8>, rest: Seq<u8>)
    requires
        data.len() <= u32::MAX,
    ensures
        dec_chunk(le32(data.len() as u32) + data + rest) == Some((data, rest)),
{
    let n = data.len() as u32;
    assert(le32(n) + data + rest =~= le32(n) + (data + rest));
    lemma_dec_u32(n, data + rest);
    assert((data + rest).take(n as int) =~= data);
    assert((data + rest).skip(n as int) =~= rest);
}

/// Reading back an encoded string returns it.
proof fn lemma_dec_str(s: Seq<char>, rest: Seq<u8>)
    requires
        encode_utf8(s).len() <= u32::MAX,
    ensures
        dec_str(enc_str(s) + rest) == Some((s, rest)),
{
    let bs = encode_utf8(s);
    assert(enc_str(s) + rest =~= le32(bs.len() as u32) + bs + rest);
    lemma_dec_chunk(bs, rest);
    vstd::utf8::encode_utf8_valid_utf8(s);
    vstd::utf8::encode_utf8_decode_utf8(s);
}

/// Reading back an encoded scalar of its own type returns it.
proof fn lemma_dec_scalar(s: ScalarV, rest: Seq<u8>)
    requires
        scalar_encodable(s),
    ensures
        dec_scalar(s.dt(), enc_scalar(s) + rest) == Some((s, rest)),
{
    match s {
        ScalarV::UInt8(x) => lemma_dec_u8(x, rest),
        ScalarV::UInt16(x) => lemma_dec_u16(x, rest),
        ScalarV::UInt32(x) => lemma_dec_u32(x, rest),
        ScalarV::UInt64(x) => lemma_dec_u64(x, rest),
        ScalarV::Int8(x) => {
            lemma_dec_u8(x as u8, rest);
            assert((x as u8) as i8 == x) by (bit_vector);
        },
        ScalarV::Int16(x) => {
            lemma_dec_u16(x as u16, rest);
            assert((x as u16) as i16 == x) by (bit_vector);
        },
        ScalarV::Int32(x) => {
            lemma_dec_u32(x as u32, rest);
            assert((x as u32) as i32 == x) by (bit_vector);
        },
        ScalarV::Int64(x) => {
            lemma_dec_u64(x as u64, rest);
            assert((x as u64) as i64 == x) by (bit_vector);
        },
        ScalarV::Float32(x) => lemma_dec_u32(x, rest),
        ScalarV::Float64(x) => lemma_dec_u64(x, rest),
        ScalarV::Boolean(x) => lemma_dec_bool(x, rest),
        ScalarV::Utf8(t) => lemma_dec_str(t, rest),
        ScalarV::Bytes(bs) => {
            assert(enc_scalar(s) + rest =~= le32(bs.len() as u32) + bs + rest);
            lemma_dec_chunk(bs, rest);
        },
    }
}

/// Reading back an encoded payload returns it.
proof fn lemma_dec_payload(p: PayloadV, rest: Seq<u8>)
    requires
        payload_encodable(p),
        p.wf(),
    ensures
        dec_payload(p.dt(), p is Required, enc_payload(p) + rest) == Some((p, rest)),
{
    match p {
        PayloadV::Optional(d, None) => {
            lemma_dec_u8(0u8, rest);
        },
        PayloadV::Optional(d, Some(s)) => {
            assert(enc_payload(p) + rest =~= seq![1u8] + (enc_scalar(s) + rest));
            lemma_dec_u8(1u8, enc_scalar(s) + rest);
            lemma_dec_scalar(s, rest);
        },
        PayloadV::Required(s) => {
            assert(enc_payload(p) + rest =~= seq![2u8] + (enc_scalar(s) + rest));
            lemma_dec_u8(2u8, enc_scalar(s) + rest);
            lemma_dec_scalar(s, rest);
        },
    }
}

/// A type survives the trip through its tag byte.
proof fn lemma_tag_roundtrip(d: DataType)
    ensures
        dt_of_tag(tag_byte(d)) == Some(d),
{
}

/// Reading back an encoded column returns it.
#[verifier::rlimit(30)]
proof fn lemma_dec_value(v: ValueV, primary: bool, rest: Seq<u8>)
    requires
        value_encodable(v),
        v.wf(),
        primary == (v.payload is Required),
    ensures
        dec_value(enc_value(v) + rest, primary) == Some((v, rest)),
{
    let b = enc_value(v) + rest;
    let r3 = enc_payload(v.payload) + rest;
    let r2 = enc_str(v.name) + r3;
    let r1 = seq![bool_byte(v.nullable)] + r2;
    assert(b =~= seq![tag_byte(v.datatype)] + r1);
    lemma_dec_u8(tag_byte(v.datatype), r1);
    assert(dec_u8(b) == Some((tag_byte(v.datatype), r1)));
    lemma_tag_roundtrip(v.datatype);
    assert(seq![bool_byte(v.nullable)] + r2 =~= seq![bool_byte(v.nullable)] + (enc_str(v.name)
        + r3));
    lemma_dec_bool(v.nullable, r2);
    assert(dec_bool(r1) == Some((v.nullable, r2)));
    lemma_dec_str(v.name, r3);
    assert(dec_str(r2) == Some((v.name, r3)));
    lemma_dec_payload(v.payload, rest);
    assert(dec_payload(v.datatype, primary, r3) == Some((v.payload, rest)));
    assert(dec_value(b, primary) == Some((v, rest)));
}

/// Reading back encoded columns returns them, in order.
proof fn lemma_dec_columns(cs: Seq<ValueV>, primary: int, idx: int, rest: Seq<u8>)
    requires
        forall|i: int| 0 <= i < cs.len() ==> value_encodable(#[trigger] cs[i]),
        forall|i: int| 0 <= i < cs.len() ==> (#[trigger] cs[i]).wf(),
        forall|i: int|
            0 <= i < cs.len() ==> ((#[trigger] cs[i]).payload is Required <==> idx + i
                == primary),
    ensures
        dec_columns(enc_columns(cs) + rest, cs.len(), primary, idx) == Some((cs, rest)),
    decreases cs.len(),
{
    if cs.len() == 0 {
        assert(enc_columns(cs) + rest =~= rest);
        assert(Seq::<ValueV>::empty() =~= cs);
    } else {
        let tail = cs.drop_first();
        assert(enc_columns(cs) + rest =~= enc_value(cs[0]) + (enc_columns(tail) + rest));
        lemma_dec_value(cs[0], idx == primary, enc_columns(tail) + rest);
        assert(forall|i: int|
            0 <= i < tail.len() ==> ((#[trigger] tail[i]).payload is Required <==> idx + 1 + i
                == primary)) by {
            assert(forall|i: int| 0 <= i < tail.len() ==> tail[i] == cs[i + 1]);
        }
        lemma_dec_columns(tail, primary, idx + 1, rest);
        assert(seq![cs[0]] + tail =~= cs);
    }
}

/// Round-trip: decoding the encoding of any well-formed, encodable row
/// returns exactly that row — column count, primary index, and every
/// column's type, name, nullability and value.
pub proof fn lemma_encode_decode_roundtrip(r: RowView)
    requires
        r.wf(),
        encodable(r),
    ensures
        spec_decode(spec_encode(r)) == Some(r),
{
    let count = r.columns.len() as u32;
    let primary = r.primary_index as u32;
    let body = enc_columns(r.columns);
    assert(spec_encode(r) =~= le32(count) + (le32(primary) + body));
    lemma_dec_u32(count, le32(primary) + body);
    lemma_dec_u32(primary, body);
    assert(body =~= body + Seq::<u8>::empty());
    lemma_dec_columns(r.columns, r.primary_index, 0, Seq::<u8>::empty());
    assert(spec_decode(spec_encode(r)) == Some(
        RowView { columns: r.columns, primary_index: primary as int },
    ));
    assert(RowView { columns: r.columns, primary_index: primary as int } =~= r);
}

/// Decoding failed: the bytes are not exactly one valid row encoding.
#[derive(Clone, Copy, Debug, PartialEq, Eq, Structural)]
pub struct DecodeError;

/// Relies on `String::from_utf8`: it returns the decoded string exactly
/// when the bytes are valid UTF-8, and an error otherwise.
#[verifier::external_body]
fn string_from_utf8(bytes: Vec<u8>) -> (r: Option<String>)
    ensures
        r is Some <==> valid_utf8(bytes@),
        r matches Some(s) ==> s@ == decode_utf8(bytes@),
{
    match std::string::String::from_utf8(bytes) {
        Ok(s) => Some(s),
        Err(_) => None,
    }
}

/// The bytes `[start, start + n)` of a slice, as an owned vector.
fn take_bytes(bytes: &[u8], start: usize, n: usize) -> (r: Vec<u8>)
    requires
        start + n <= bytes@.len(),
    ensures
        r@ == bytes@.subrange(start as int, start as int + n as int),
{
    let l = bytes.len();
    let mut r: Vec<u8> = Vec::new();
    let mut j: usize = 0;
    while j < n
        invariant
            j <= n,
            l == bytes@.len(),
            start + n <= l,
            r@ == bytes@.subrange(start as int, start as int + j as int),
        decreases n - j,
    {
        r.push(bytes[start + j]);
        j = j + 1;
        proof {
            assert(r@ =~= bytes@.subrange(start as int, start as int + j as int));
        }
    }
    r
}

/// Reads one byte at `pos`, mirroring `dec_u8` on the remaining bytes.
fn read_u8_at(bytes: &[u8], pos: usize) -> (r: Option<(u8, usize)>)
    requires
        pos <= bytes@.len(),
    ensures
        r matches Some(xp) ==> dec_u8(bytes@.skip(pos as int)) == Some(
            (xp.0, bytes@.skip(xp.1 as int)),
        ) && pos < xp.1 <= bytes@.len(),
        r is None ==> dec_u8(bytes@.skip(pos as int)) is None,
{
    if pos < bytes.len() {
        let x = bytes[pos];
        proof {
            assert(bytes@.skip(pos as int)[0] == bytes@[pos as int]);
            assert(bytes@.skip(pos as int).skip(1) =~= bytes@.skip(pos as int + 1));
        }
        Some((x, pos + 1))
    } else {
        None
    }
}

/// Reads a little-endian 16-bit integer at `pos`, mirroring `dec_u16`.
fn read_u16_at(bytes: &[u8], pos: usize) -> (r: Option<(u16, usize)>)
    requires
        pos <= bytes@.len(),
    ensures
        r matches Some(xp) ==> dec_u16(bytes@.skip(pos as int)) == Some(
            (xp.0, bytes@.skip(xp.1 as int)),
        ) && pos < xp.1 <= bytes@.len(),
        r is None ==> dec_u16(bytes@.skip(pos as int)) is None,
{
    if bytes.len() - pos >= 2 {
        let x = (bytes[pos] as u16) | ((bytes[pos + 1] as u16) << 8);
        proof {
            let b = bytes@.skip(pos as int);
            assert(b[0] == bytes@[pos as int] && b[1] == bytes@[pos as int + 1]);
            assert(x == u16_of_le(b[0], b[1]));
            assert(b.skip(2) =~= bytes@.skip(pos as int + 2));
        }
        Some((x, pos + 2))
    } else {
        None
    }
}

/// Reads a little-endian 32-bit integer at `pos`, mirroring `dec_u32`.
fn read_u32_at(bytes: &[u8], pos: usize) -> (r: Option<(u32, usize)>)
    requires
        pos <= bytes@.len(),
    ensures
        r matches Some(xp) ==> dec_u32(bytes@.skip(pos as int)) == Some(
            (xp.0, bytes@.skip(xp.1 as int)),
        ) && pos < xp.1 <= bytes@.len(),
        r is None ==> dec_u32(bytes@.skip(pos as int)) is None,
{
    if bytes.len() - pos >= 4 {
        let x = (bytes[pos] as u32) | ((bytes[pos + 1] as u32) << 8) | ((bytes[pos + 2] as u32)
            << 16) | ((bytes[pos + 3] as u32) << 24);
        proof {
            let b = bytes@.skip(pos as int);
            assert(b[0] == bytes@[pos as int]);
            assert(b[1] == bytes@[pos as int + 1]);
            assert(b[2] == bytes@[pos as int + 2]);
            assert(b[3] == bytes@[pos as int + 3]);
            assert(x == u32_of_le(b[0], b[1], b[2], b[3]));
            assert(b.skip(4) =~= bytes@.skip(pos as int + 4));
        }
        Some((x, pos + 4))
    } else {
        None
    }
}

/// Reads a little-endian 64-bit integer at `pos`, mirroring `dec_u64`.
fn read_u64_at(bytes: &[u8], pos: usize) -> (r: Option<(u64, usize)>)
    requires
        pos <= bytes@.len(),
    ensures
        r matches Some(xp) ==> dec_u64(bytes@.skip(pos as int)) == Some(
            (xp.0, bytes@.skip(xp.1 as int)),
        ) && pos < xp.1 <= bytes@.len(),
        r is None ==> dec_u64(bytes@.skip(pos as int)) is None,
{
    if bytes.len() - pos >= 8 {
        let x = (bytes[pos] as u64) | ((bytes[pos + 1] as u64) << 8) | ((bytes[pos + 2] as u64)
            << 16) | ((bytes[pos + 3] as u64) << 24) | ((bytes[pos + 4] as u64) << 32) | ((bytes[pos
            + 5] as u64) << 40) | ((bytes[pos + 6] as u64) << 48) | ((bytes[pos + 7] as u64) << 56);
        proof {
            let b = bytes@.skip(pos as int);
            assert(b[0] == bytes@[pos as int]);
            assert(b[1] == bytes@[pos as int + 1]);
            assert(b[2] == bytes@[pos as int + 2]);
            assert(b[3] == bytes@[pos as int + 3]);
            assert(b[4] == bytes@[pos as int + 4]);
            assert(b[5] == bytes@[pos as int + 5]);
            assert(b[6] == bytes@[pos as int + 6]);
            assert(b[7] == bytes@[pos as int + 7]);
            assert(x == u64_of_le(b[0], b[1], b[2], b[3], b[4], b[5], b[6], b[7]));
            assert(b.skip(8) =~= bytes@.skip(pos as int + 8));
        }
        Some((x, pos + 8))
    } else {
        None
    }
}

/// Reads a strict boolean byte at `pos`, mirroring `dec_bool`.
fn read_bool_at(bytes: &[u8], pos: usize) -> (r: Option<(bool, usize)>)
    requires
        pos <= bytes@.len(),
    ensures
        r matches Some(xp) ==> dec_bool(bytes@.skip(pos as int)) == Some(
            (xp.0, bytes@.skip(xp.1 as int)),
        ) && pos < xp.1 <= bytes@.len(),
        r is None ==> dec_bool(bytes@.skip(pos as int)) is None,
{
    match read_u8_at(bytes, pos) {
        None => None,
        Some((x, p2)) => if x == 0 {
            Some((false, p2))
        } else if x == 1 {
            Some((true, p2))
        } else {
            None
        },
    }
}

/// Reads a length-prefixed run of bytes at `pos`, mirroring `dec_chunk`.
fn read_chunk_at(bytes: &[u8], pos: usize) -> (r: Option<(Vec<u8>, usize)>)
    requires
        pos <= bytes@.len(),
    ensures
        r matches Some(xp) ==> dec_chunk(bytes@.skip(pos as int)) == Some(
            (xp.0@, bytes@.skip(xp.1 as int)),
        ) && pos < xp.1 <= bytes@.len(),
        r is None ==> dec_chunk(bytes@.skip(pos as int)) is None,
{
    match read_u32_at(bytes, pos) {
        None => None,
        Some((n, p1)) => {
            let n_usize = n as usize;
            if n_usize <= bytes.len() - p1 {
                let v = take_bytes(bytes, p1, n_usize);
                proof {
                    let rest = bytes@.skip(p1 as int);
                    assert(rest.take(n as int) =~= bytes@.subrange(
                        p1 as int,
                        p1 as int + n as int,
                    ));
                    assert(rest.skip(n as int) =~= bytes@.skip(p1 as int + n as int));
                }
                Some((v, p1 + n_usize))
            } else {
                proof {
                    assert(bytes@.skip(p1 as int).len() < n);
                }
                None
            }
        },
    }
}

/// Reads a length-prefixed UTF-8 string at `pos`, mirroring `dec_str`.
fn read_str_at(bytes: &[u8], pos: usize) -> (r: Option<(String, usize)>)
    requires
        pos <= bytes@.len(),
    ensures
        r matches Some(xp) ==> dec_str(bytes@.skip(pos as int)) == Some(
            (xp.0@, bytes@.skip(xp.1 as int)),
        ) && pos < xp.1 <= bytes@.len(),
        r is None ==> dec_str(bytes@.skip(pos as int)) is None,
{
    match read_chunk_at(bytes, pos) {
        None => None,
        Some((v, p2)) => match string_from_utf8(v) {
            None => None,
            Some(s) => Some((s, p2)),
        },
    }
}

/// Reads one scalar of the given type at `pos`, mirroring `dec_scalar`.
fn read_scalar_at(bytes: &[u8], pos: usize, d: DataType) -> (r: Option<(Scalar, usize)>)
    requires
        pos <= bytes@.len(),
    ensures
        r matches Some(xp) ==> dec_scalar(d, bytes@.skip(pos as int)) == Some(
            (xp.0@, bytes@.skip(xp.1 as int)),
        ) && pos < xp.1 <= bytes@.len() && xp.0@.dt() == d,
        r is None ==> dec_scalar(d, bytes@.skip(pos as int)) is None,
{
    match d {
        DataType::UInt8 => match read_u8_at(bytes, pos) {
            None => None,
            Some((x, p2)) => Some((Scalar::UInt8(x), p2)),
        },
        DataType::UInt16 => match read_u16_at(bytes, pos) {
            None => None,
            Some((x, p2)) => Some((Scalar::UInt16(x), p2)),
        },
        DataType::UInt32 => match read_u32_at(bytes, pos) {
            None => None,
            Some((x, p2)) => Some((Scalar::UInt32(x), p2)),
        },
        DataType::UInt64 => match read_u64_at(bytes, pos) {
            None => None,
            Some((x, p2)) => Some((Scalar::UInt64(x), p2)),
        },
        DataType::Int8 => match read_u8_at(bytes, pos) {
            None => None,
            Some((x, p2)) => Some((Scalar::Int8(#[verifier::truncate] (x as i8)), p2)),
        },
        DataType::Int16 => match read_u16_at(bytes, pos) {
            None => None,
            Some((x, p2)) => Some((Scalar::Int16(#[verifier::truncate] (x as i16)), p2)),
        },
        DataType::Int32 => match read_u32_at(bytes, pos) {
            None => None,
            Some((x, p2)) => Some((Scalar::Int32(#[verifier::truncate] (x as i32)), p2)),
        },
        DataType::Int64 => match read_u64_at(bytes, pos) {
            None => None,
            Some((x, p2)) => Some((Scalar::Int64(#[verifier::truncate] (x as i64)), p2)),
        },
        DataType::Float32 => match read_u32_at(bytes, pos) {
            None => None,
            Some((x, p2)) => Some((Scalar::Float32(x), p2)),
        },
        DataType::Float64 => match read_u64_at(bytes, pos) {
            None => None,
            Some((x, p2)) => Some((Scalar::Float64(x), p2)),
        },
        DataType::Boolean => match read_bool_at(bytes, pos) {
            None => None,
            Some((x, p2)) => Some((Scalar::Boolean(x), p2)),
        },
        DataType::Utf8 => match read_str_at(bytes, pos) {
            None => None,
            Some((s, p2)) => Some((Scalar::Utf8(s), p2)),
        },
        DataType::Bytes => match read_chunk_at(bytes, pos) {
            None => None,
            Some((v, p2)) => Some((Scalar::Bytes(v), p2)),
        },
    }
}

/// The exec type a tag byte names, mirroring `dt_of_tag`.
fn dt_from_tag(t: u8) -> (r: Option<DataType>)
    ensures
        r == dt_of_tag(t),
{
    if t == 0 {
        Some(DataType::UInt8)
    } else if t == 1 {
        Some(DataType::UInt16)
    } else if t == 2 {
        Some(DataType::UInt32)
    } else if t == 3 {
        Some(DataType::UInt64)
    } else if t == 4 {
        Some(DataType::Int8)
    } else if t == 5 {
        Some(DataType::Int16)
    } else if t == 6 {
        Some(DataType::Int32)
    } else if t == 7 {
        Some(DataType::Int64)
    } else if t == 8 {
        Some(DataType::Float32)
    } else if t == 9 {
        Some(DataType::Float64)
    } else if t == 10 {
        Some(DataType::Boolean)
    } else if t == 11 {
        Some(DataType::Utf8)
    } else if t == 12 {
        Some(DataType::Bytes)
    } else {
        None
    }
}

/// Reads one column at `pos`, mirroring `dec_value`.
fn read_value_at(bytes: &[u8], pos: usize, primary: bool) -> (r: Option<(Value, usize)>)
    requires
        pos <= bytes@.len(),
    ensures
        r matches Some(xp) ==> dec_value(bytes@.skip(pos as int), primary) == Some(
            (xp.0@, bytes@.skip(xp.1 as int)),
        ) && pos < xp.1 <= bytes@.len() && xp.0@.wf() && (xp.0@.payload is Required <==> primary),
        r is None ==> dec_value(bytes@.skip(pos as int), primary) is None,
{
    let (t, p1) = match read_u8_at(bytes, pos) {
        None => {
            return None;
        },
        Some(x) => x,
    };
    let d = match dt_from_tag(t) {
        None => {
            return None;
        },
        Some(d) => d,
    };
    let (nullable, p2) = match read_bool_at(bytes, p1) {
        None => {
            return None;
        },
        Some(x) => x,
    };
    let (name, p3) = match read_str_at(bytes, p2) {
        None => {
            return None;
        },
        Some(x) => x,
    };
    let (m, p4) = match read_u8_at(bytes, p3) {
        None => {
            return None;
        },
        Some(x) => x,
    };
    if primary {
        if m == 2 {
            match read_scalar_at(bytes, p4, d) {
                None => None,
                Some((s, p5)) => Some((Value { datatype: d, name, nullable, payload: Payload::Required(s) }, p5)),
            }
        } else {
            None
        }
    } else if m == 0 {
        Some((Value { datatype: d, name, nullable, payload: Payload::Optional(d, None) }, p4))
    } else if m == 1 {
        match read_scalar_at(bytes, p4, d) {
            None => None,
            Some((s, p5)) => Some((Value { datatype: d, name, nullable, payload: Payload::Optional(d, Some(s)) }, p5)),
        }
    } else {
        None
    }
}

/// Lifts the columns of an exec vector to their models.
spec fn views_of(cs: Seq<Value>) -> Seq<ValueV> {
    Seq::new(cs.len(), |i: int| cs[i]@)
}

/// Prefixes already-decoded columns onto a decoder outcome.
spec fn prepend_columns(prefix: Seq<ValueV>, o: Option<(Seq<ValueV>, Seq<u8>)>) -> Option<
    (Seq<ValueV>, Seq<u8>),
> {
    match o {
        None => None,
        Some((vs, rest)) => Some((prefix + vs, rest)),
    }
}

impl DynRecordRef {
    /// Decodes a row from bytes that hold exactly one encoded row.
    /// Succeeds, returning the encoded row, exactly when the bytes are a
    /// valid encoding (`spec_decode`); any truncated, malformed or
    /// trailing-garbage input is rejected.
    #[verifier::rlimit(80)]
    pub fn decode(bytes: &[u8]) -> (r: Result<DynRecordRef, DecodeError>)
        ensures
            r matches Ok(row) ==> spec_decode(bytes@) == Some(row@) && row@.wf(),
            r is Err ==> spec_decode(bytes@) is None,
    {
        proof {
            assert(bytes@.skip(0) =~= bytes@);
        }
        let (count, p1) = match read_u32_at(bytes, 0) {
            None => {
                return Err(DecodeError);
            },
            Some(x) => x,
        };
        let (primary, p2) = match read_u32_at(bytes, p1) {
            None => {
                return Err(DecodeError);
            },
            Some(x) => x,
        };
        if primary >= count {
            return Err(DecodeError);
        }
        let ghost r2 = bytes@.skip(p2 as int);
        let mut columns: Vec<Value> = Vec::new();
        let mut pos: usize = p2;
        let mut i: u32 = 0;
        proof {
            assert(views_of(columns@) =~= Seq::<ValueV>::empty());
            assert(prepend_columns(
                views_of(columns@),
                dec_columns(r2, count as nat, primary as int, 0),
            ) == dec_columns(r2, count as nat, primary as int, 0)) by {
                match dec_columns(r2, count as nat, primary as int, 0) {
                    None => {},
                    Some((vs, rest)) => {
                        assert(views_of(columns@) + vs =~= vs);
                    },
                }
            }
        }
        while i < count
            invariant
                i <= count,
                pos <= bytes@.len(),
                dec_u32(bytes@) == Some((count, bytes@.skip(p1 as int))),
                p1 <= bytes@.len(),
                dec_u32(bytes@.skip(p1 as int)) == Some((primary, r2)),
                primary < count,
                r2 == bytes@.skip(p2 as int),
                columns@.len() == i as int,
                forall|j: int| 0 <= j < i as int ==> (#[trigger] columns@[j]@).wf(),
                forall|j: int|
                    0 <= j < i as int ==> ((#[trigger] columns@[j]@).payload is Required <==> j
                        == primary as int),
                prepend_columns(
                    views_of(columns@),
                    dec_columns(
                        bytes@.skip(pos as int),
                        (count - i) as nat,
                        primary as int,
                        i as int,
                    ),
                ) == dec_columns(r2, count as nat, primary as int, 0),
            decreases count - i,
        {
            let ghost prev = columns@;
            let ghost before = bytes@.skip(pos as int);
            let ghost inner = dec_columns(
                before,
                (count - i) as nat,
                primary as int,
                i as int,
            );
            match read_value_at(bytes, pos, i == primary) {
                None => {
                    proof {
                        assert(inner is None);
                        assert(dec_columns(r2, count as nat, primary as int, 0) is None);
                    }
                    return Err(DecodeError);
                },
                Some((v, p_next)) => {
                    proof {
                        let after = bytes@.skip(p_next as int);
                        let tail = dec_columns(
                            after,
                            (count - i - 1) as nat,
                            primary as int,
                            i as int + 1,
                        );
                        assert(inner == prepend_columns(seq![v@], tail));
                        assert(views_of(prev.push(v)) =~= views_of(prev).push(v@));
                        match tail {
                            None => {},
                            Some((vs, rest)) => {
                                assert(views_of(prev) + (seq![v@] + vs) =~= views_of(
                                    prev,
                                ).push(v@) + vs);
                            },
                        }
                    }
                    columns.push(v);
                    pos = p_next;
                    i = i + 1;
                },
            }
        }
        proof {
            assert(dec_columns(bytes@.skip(pos as int), 0, primary as int, count as int)
                == Some((Seq::<ValueV>::empty(), bytes@.skip(pos as int))));
            assert(views_of(columns@) + Seq::<ValueV>::empty() =~= views_of(columns@));
            assert(dec_columns(r2, count as nat, primary as int, 0) == Some(
                (views_of(columns@), bytes@.skip(pos as int)),
            ));
        }
        if pos != bytes.len() {
            proof {
                assert(bytes@.skip(pos as int).len() != 0);
            }
            return Err(DecodeError);
        }
        let row = DynRecordRef { columns, primary_index: primary as usize };
        proof {
            assert(bytes@.skip(pos as int).len() == 0);
            assert(row@.columns =~= views_of(columns@));
            assert(row@ =~= RowView {
                columns: views_of(columns@),
                primary_index: primary as int,
            });
        }
        Ok(row)
    }
}

/// The exact length of one scalar's encoding.
fn scalar_size(s: &Scalar) -> (r: usize)
    requires
        scalar_encodable(s@),
        enc_scalar(s@).len() <= usize::MAX - 7,
    ensures
        r == enc_scalar(s@).len(),
{
    match s {
        Scalar::UInt8(_) => 1,
        Scalar::UInt16(_) => 2,
        Scalar::UInt32(_) => 4,
        Scalar::UInt64(_) => 8,
        Scalar::Int8(_) => 1,
        Scalar::Int16(_) => 2,
        Scalar::Int32(_) => 4,
        Scalar::Int64(_) => 8,
        Scalar::Float32(_) => 4,
        Scalar::Float64(_) => 8,
        Scalar::Boolean(_) => 1,
        Scalar::Utf8(t) => 4 + t.as_str().len(),
        Scalar::Bytes(b) => 4 + b.len(),
    }
}

} // verus!
