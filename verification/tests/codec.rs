use dynrec::codec::DecodeError;
use dynrec::datatype::DataType;
use dynrec::row::DynRecordRef;
use dynrec::value::{Payload, Scalar, Value};

fn col(name: &str, datatype: DataType, nullable: bool, payload: Payload) -> Value {
    Value { datatype, name: name.to_string(), nullable, payload }
}

fn mixed_record() -> DynRecordRef {
    DynRecordRef {
        columns: vec![
            col("id", DataType::UInt64, false, Payload::Required(Scalar::UInt64(0xdead_beef_cafe))),
            col("a", DataType::UInt8, false, Payload::Optional(DataType::UInt8, Some(Scalar::UInt8(200)))),
            col("b", DataType::UInt16, false, Payload::Optional(DataType::UInt16, Some(Scalar::UInt16(65500)))),
            col("c", DataType::UInt32, false, Payload::Optional(DataType::UInt32, Some(Scalar::UInt32(7)))),
            col("d", DataType::Int8, true, Payload::Optional(DataType::Int8, Some(Scalar::Int8(-5)))),
            col("e", DataType::Int16, true, Payload::Optional(DataType::Int16, Some(Scalar::Int16(-30000)))),
            col("f", DataType::Int32, true, Payload::Optional(DataType::Int32, Some(Scalar::Int32(-7)))),
            col("g", DataType::Int64, true, Payload::Optional(DataType::Int64, Some(Scalar::Int64(i64::MIN)))),
            col("h", DataType::Float32, false, Payload::Optional(DataType::Float32, Some(Scalar::Float32((-1.25f32).to_bits())))),
            col("i", DataType::Float64, false, Payload::Optional(DataType::Float64, Some(Scalar::Float64(13.234f64.to_bits())))),
            col("j", DataType::Boolean, false, Payload::Optional(DataType::Boolean, Some(Scalar::Boolean(false)))),
            col("café", DataType::Utf8, true, Payload::Optional(DataType::Utf8, Some(Scalar::Utf8("snow\u{2603}man".to_string())))),
            col("k", DataType::Bytes, true, Payload::Optional(DataType::Bytes, Some(Scalar::Bytes(vec![0, 255, 7])))),
            col("l", DataType::Utf8, true, Payload::Optional(DataType::Utf8, None)),
        ],
        primary_index: 0,
    }
}

#[test]
fn roundtrip_mixed_row() {
    let record = mixed_record();
    let mut buf: Vec<u8> = Vec::new();
    record.encode(&mut buf);
    let decoded = DynRecordRef::decode(buf.as_slice()).unwrap();
    assert_eq!(decoded, record);
}

#[test]
fn size_matches_encoded_length() {
    let record = mixed_record();
    let size = record.size();
    let mut buf: Vec<u8> = Vec::new();
    record.encode(&mut buf);
    assert_eq!(size, buf.len());
}

#[test]
fn encoding_is_deterministic() {
    let mut a: Vec<u8> = Vec::new();
    mixed_record().encode(&mut a);
    let mut b: Vec<u8> = Vec::new();
    mixed_record().encode(&mut b);
    assert_eq!(a, b);
}

#[test]
fn exact_bytes_of_small_row() {
    let record = DynRecordRef {
        columns: vec![col("a", DataType::UInt8, false, Payload::Required(Scalar::UInt8(5)))],
        primary_index: 0,
    };
    let mut buf: Vec<u8> = Vec::new();
    record.encode(&mut buf);
    assert_eq!(
        buf,
        vec![
            1, 0, 0, 0, // column count
            0, 0, 0, 0, // primary index
            0,  // tag: unsigned 8-bit
            0,  // not nullable
            1, 0, 0, 0, 0x61, // name "a"
            2, 5, // bare payload, value 5
        ]
    );
    assert_eq!(record.size(), buf.len());
}

#[test]
fn encode_appends_after_existing_bytes() {
    let record = DynRecordRef {
        columns: vec![col("a", DataType::UInt8, false, Payload::Required(Scalar::UInt8(5)))],
        primary_index: 0,
    };
    let mut buf: Vec<u8> = vec![9, 9];
    record.encode(&mut buf);
    assert_eq!(&buf[..2], &[9, 9]);
    assert_eq!(buf.len(), 2 + record.size());
}

#[test]
fn decode_rejects_truncated_input() {
    let record = mixed_record();
    let mut buf: Vec<u8> = Vec::new();
    record.encode(&mut buf);
    buf.pop();
    assert_eq!(DynRecordRef::decode(buf.as_slice()), Err(DecodeError));
    assert_eq!(DynRecordRef::decode(&[]), Err(DecodeError));
    assert_eq!(DynRecordRef::decode(&[1, 0, 0, 0]), Err(DecodeError));
}

#[test]
fn decode_rejects_trailing_bytes() {
    let record = mixed_record();
    let mut buf: Vec<u8> = Vec::new();
    record.encode(&mut buf);
    buf.push(0);
    assert_eq!(DynRecordRef::decode(buf.as_slice()), Err(DecodeError));
}

#[test]
fn decode_rejects_primary_index_out_of_range() {
    // column count 1, primary index 1
    let bytes = [1, 0, 0, 0, 1, 0, 0, 0, 0, 0, 1, 0, 0, 0, 0x61, 2, 5];
    assert_eq!(DynRecordRef::decode(&bytes), Err(DecodeError));
}

#[test]
fn decode_rejects_unknown_tag() {
    let mut bytes = vec![1, 0, 0, 0, 0, 0, 0, 0];
    bytes.push(13); // no type carries this tag
    bytes.extend_from_slice(&[0, 1, 0, 0, 0, 0x61, 2, 5]);
    assert_eq!(DynRecordRef::decode(bytes.as_slice()), Err(DecodeError));
}

#[test]
fn decode_rejects_bad_nullability_byte() {
    let bytes = [1, 0, 0, 0, 0, 0, 0, 0, 0, 2, 1, 0, 0, 0, 0x61, 2, 5];
    assert_eq!(DynRecordRef::decode(&bytes), Err(DecodeError));
}

#[test]
fn decode_rejects_invalid_utf8_name() {
    let bytes = [1, 0, 0, 0, 0, 0, 0, 0, 0, 0, 1, 0, 0, 0, 0xff, 2, 5];
    assert_eq!(DynRecordRef::decode(&bytes), Err(DecodeError));
}

#[test]
fn decode_rejects_optional_payload_at_primary() {
    // the primary column must carry the bare payload mode
    let bytes = [1, 0, 0, 0, 0, 0, 0, 0, 0, 0, 1, 0, 0, 0, 0x61, 1, 5];
    assert_eq!(DynRecordRef::decode(&bytes), Err(DecodeError));
}

#[test]
fn roundtrip_preserves_count_primary_and_columns() {
    let record = mixed_record();
    let mut buf: Vec<u8> = Vec::new();
    record.encode(&mut buf);
    let decoded = DynRecordRef::decode(buf.as_slice()).unwrap();
    assert_eq!(decoded.columns.len(), record.columns.len());
    assert_eq!(decoded.primary_index, record.primary_index);
    for (d, r) in decoded.columns.iter().zip(record.columns.iter()) {
        assert_eq!(d.datatype, r.datatype);
        assert_eq!(d.name, r.name);
        assert_eq!(d.nullable, r.nullable);
        assert_eq!(d.payload, r.payload);
    }
}
