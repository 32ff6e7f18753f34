use dynrec::datatype::DataType;
use dynrec::mask::ProjectionMask;
use dynrec::row::DynRecordRef;
use dynrec::value::{Payload, Scalar, Value};

fn col(name: &str, datatype: DataType, nullable: bool, payload: Payload) -> Value {
    Value { datatype, name: name.to_string(), nullable, payload }
}

fn opt(datatype: DataType, scalar: Option<Scalar>) -> Payload {
    Payload::Optional(datatype, scalar)
}

fn float_record() -> DynRecordRef {
    DynRecordRef {
        columns: vec![
            col(
                "_null",
                DataType::Boolean,
                false,
                opt(DataType::Boolean, Some(Scalar::Boolean(true))),
            ),
            col("ts", DataType::UInt32, false, opt(DataType::UInt32, Some(Scalar::UInt32(7)))),
            col(
                "id",
                DataType::Float64,
                false,
                Payload::Required(Scalar::Float64(1.23f64.to_bits())),
            ),
            col(
                "foo",
                DataType::Float32,
                false,
                opt(DataType::Float32, Some(Scalar::Float32(1.23f32.to_bits()))),
            ),
            col("foo_opt", DataType::Float32, true, opt(DataType::Float32, None)),
            col(
                "bar",
                DataType::Float64,
                false,
                opt(DataType::Float64, Some(Scalar::Float64(3.234f64.to_bits()))),
            ),
            col(
                "bar_opt",
                DataType::Float64,
                true,
                opt(DataType::Float64, Some(Scalar::Float64(13.234f64.to_bits()))),
            ),
        ],
        primary_index: 2,
    }
}

#[test]
fn test_float_projection() {
    {
        // project all
        let mut record_ref = float_record();
        record_ref.projection(&ProjectionMask::all());
        let columns = record_ref.columns;
        assert_eq!(columns[0].payload, opt(DataType::Boolean, Some(Scalar::Boolean(true))));
        assert_eq!(columns[1].payload, opt(DataType::UInt32, Some(Scalar::UInt32(7u32))));
        assert_eq!(columns[2].payload, Payload::Required(Scalar::Float64(1.23f64.to_bits())));
        assert_eq!(
            columns[3].payload,
            opt(DataType::Float32, Some(Scalar::Float32(1.23f32.to_bits())))
        );
        assert_eq!(columns[4].payload, opt(DataType::Float32, None));
        assert_eq!(
            columns[5].payload,
            opt(DataType::Float64, Some(Scalar::Float64(3.234f64.to_bits())))
        );
        assert_eq!(
            columns[6].payload,
            opt(DataType::Float64, Some(Scalar::Float64(13.234f64.to_bits())))
        );
    }
    {
        // project no user columns: only leaf 1 of the schema is included
        let mut record_ref = float_record();
        let mask =
            ProjectionMask::from_leaves(vec![false, true, false, false, false, false, false]);
        record_ref.projection(&mask);
        let columns = record_ref.columns;
        assert_eq!(columns[0].payload, opt(DataType::Boolean, None));
        assert_eq!(columns[1].payload, opt(DataType::UInt32, None));
        assert_eq!(columns[2].payload, Payload::Required(Scalar::Float64(1.23f64.to_bits())));
        assert_eq!(columns[3].payload, opt(DataType::Float32, None));
        assert_eq!(columns[4].payload, opt(DataType::Float32, None));
        assert_eq!(columns[5].payload, opt(DataType::Float64, None));
        assert_eq!(columns[6].payload, opt(DataType::Float64, None));
    }
}

fn string_record() -> DynRecordRef {
    DynRecordRef {
        columns: vec![
            col(
                "_null",
                DataType::Boolean,
                false,
                opt(DataType::Boolean, Some(Scalar::Boolean(true))),
            ),
            col("ts", DataType::UInt32, false, opt(DataType::UInt32, Some(Scalar::UInt32(7)))),
            col("id", DataType::Utf8, false, Payload::Required(Scalar::Utf8("abcd".to_string()))),
            col(
                "name",
                DataType::Utf8,
                false,
                opt(DataType::Utf8, Some(Scalar::Utf8("Jack".to_string()))),
            ),
            col(
                "email",
                DataType::Utf8,
                true,
                opt(DataType::Utf8, Some(Scalar::Utf8("abc@tonbo.io".to_string()))),
            ),
            col("adress", DataType::Utf8, true, opt(DataType::Utf8, None)),
            col(
                "data",
                DataType::Bytes,
                true,
                opt(DataType::Bytes, Some(Scalar::Bytes(b"hello,tonbo".to_vec()))),
            ),
        ],
        primary_index: 2,
    }
}

#[test]
fn test_string_projection() {
    {
        // project all
        let mut record_ref = string_record();
        record_ref.projection(&ProjectionMask::all());
        let columns = record_ref.columns;
        assert_eq!(columns[0].payload, opt(DataType::Boolean, Some(Scalar::Boolean(true))));
        assert_eq!(columns[1].payload, opt(DataType::UInt32, Some(Scalar::UInt32(7u32))));
        assert_eq!(columns[2].payload, Payload::Required(Scalar::Utf8("abcd".to_string())));
        assert_eq!(
            columns[3].payload,
            opt(DataType::Utf8, Some(Scalar::Utf8("Jack".to_string())))
        );
        assert_eq!(
            columns[4].payload,
            opt(DataType::Utf8, Some(Scalar::Utf8("abc@tonbo.io".to_string())))
        );
        assert_eq!(
            columns[6].payload,
            opt(DataType::Bytes, Some(Scalar::Bytes(b"hello,tonbo".to_vec())))
        );
    }
    {
        // project no user columns
        let mut record_ref = string_record();
        let mask =
            ProjectionMask::from_leaves(vec![false, true, false, false, false, false, false]);
        record_ref.projection(&mask);
        let columns = record_ref.columns;
        assert_eq!(columns[0].payload, opt(DataType::Boolean, None));
        assert_eq!(columns[1].payload, opt(DataType::UInt32, None));
        assert_eq!(columns[2].payload, Payload::Required(Scalar::Utf8("abcd".to_string())));
        assert_eq!(columns[3].payload, opt(DataType::Utf8, None));
        assert_eq!(columns[4].payload, opt(DataType::Utf8, None));
        assert_eq!(columns[5].payload, opt(DataType::Utf8, None));
        assert_eq!(columns[6].payload, opt(DataType::Bytes, None));
    }
}

#[test]
fn projection_is_idempotent_on_concrete_row() {
    let mask = ProjectionMask::from_leaves(vec![false, false, false, true, false, true, false]);
    let mut once = float_record();
    once.projection(&mask);
    let mut twice = float_record();
    twice.projection(&mask);
    twice.projection(&mask);
    assert_eq!(once, twice);
}

#[test]
fn projection_never_touches_primary_key() {
    // the empty mask nulls everything except the primary key
    let mut record_ref = string_record();
    let empty = ProjectionMask::from_leaves(vec![]);
    record_ref.projection(&empty);
    assert_eq!(
        record_ref.columns[2].payload,
        Payload::Required(Scalar::Utf8("abcd".to_string()))
    );
    assert_eq!(record_ref.columns[3].payload, opt(DataType::Utf8, None));
}

#[test]
fn full_projection_changes_nothing() {
    let mut record_ref = float_record();
    record_ref.projection(&ProjectionMask::all());
    assert_eq!(record_ref, float_record());
}

#[test]
fn projection_keeps_types_names_nullability() {
    let mut record_ref = string_record();
    record_ref.projection(&ProjectionMask::from_leaves(vec![]));
    let original = string_record();
    for (after, before) in record_ref.columns.iter().zip(original.columns.iter()) {
        assert_eq!(after.datatype, before.datatype);
        assert_eq!(after.name, before.name);
        assert_eq!(after.nullable, before.nullable);
    }
}

#[test]
fn constructors_build_the_same_row() {
    let built = DynRecordRef::new(
        vec![
            Value::new(
                DataType::Utf8,
                "id".to_string(),
                Payload::Required(Scalar::Utf8("abcd".to_string())),
                false,
            ),
            Value::with_none_value(DataType::UInt32, "age".to_string(), true),
        ],
        0,
    );
    assert_eq!(built.primary_index, 0);
    assert_eq!(built.columns[0].datatype(), DataType::Utf8);
    assert_eq!(built.columns[1].payload, Payload::Optional(DataType::UInt32, None));
    assert_eq!(built.columns[1].nullable, true);
}

#[test]
fn dup_copies_a_column_value() {
    let record = string_record();
    for column in &record.columns {
        assert_eq!(&column.dup(), column);
    }
}

#[test]
fn key_returns_primary_column() {
    let record = string_record();
    let key = record.key();
    assert_eq!(key.name, "id");
    assert_eq!(key.payload, Payload::Required(Scalar::Utf8("abcd".to_string())));
}
