use dynrec::batch::{Batch, BatchColumn, Field, FullSchema};
use dynrec::datatype::DataType;
use dynrec::mask::ProjectionMask;
use dynrec::row::DynRecordRef;
use dynrec::value::{Payload, Scalar};

fn field(name: &str, datatype: DataType, nullable: bool) -> Field {
    Field { name: name.to_string(), datatype, nullable }
}

fn full_schema() -> FullSchema {
    FullSchema {
        fields: vec![
            field("_null", DataType::Boolean, false),
            field("_ts", DataType::UInt32, false),
            field("id", DataType::Utf8, false),
            field("name", DataType::Utf8, false),
            field("age", DataType::UInt32, true),
        ],
        primary_key_index: 0,
    }
}

fn batch_column(name: &str, datatype: DataType, nullable: bool, cells: Vec<Option<Scalar>>) -> BatchColumn {
    BatchColumn { field: field(name, datatype, nullable), cells }
}

fn two_row_batch() -> Batch {
    Batch {
        columns: vec![
            batch_column(
                "_null",
                DataType::Boolean,
                false,
                vec![Some(Scalar::Boolean(false)), Some(Scalar::Boolean(true))],
            ),
            batch_column(
                "_ts",
                DataType::UInt32,
                false,
                vec![Some(Scalar::UInt32(41)), Some(Scalar::UInt32(42))],
            ),
            batch_column(
                "id",
                DataType::Utf8,
                false,
                vec![
                    Some(Scalar::Utf8("alpha".to_string())),
                    Some(Scalar::Utf8("beta".to_string())),
                ],
            ),
            batch_column(
                "name",
                DataType::Utf8,
                false,
                vec![Some(Scalar::Utf8("Jack".to_string())), None],
            ),
            batch_column(
                "age",
                DataType::UInt32,
                true,
                vec![Some(Scalar::UInt32(30)), None],
            ),
        ],
        num_rows: 2,
    }
}

#[test]
fn materialize_full_mask() {
    let batch = two_row_batch();
    let schema = full_schema();
    let out = DynRecordRef::from_record_batch(&batch, 0, &ProjectionMask::all(), &schema);
    assert!(!out.deleted);
    assert_eq!(out.ts, 41);
    let row = out.record;
    assert_eq!(row.primary_index, 0);
    assert_eq!(row.columns.len(), 3);
    assert_eq!(row.columns[0].name, "id");
    assert_eq!(row.columns[0].payload, Payload::Required(Scalar::Utf8("alpha".to_string())));
    assert_eq!(
        row.columns[1].payload,
        Payload::Optional(DataType::Utf8, Some(Scalar::Utf8("Jack".to_string())))
    );
    assert_eq!(
        row.columns[2].payload,
        Payload::Optional(DataType::UInt32, Some(Scalar::UInt32(30)))
    );
    assert_eq!(row.columns[2].nullable, true);
}

#[test]
fn materialize_reads_tombstone_and_timestamp() {
    let batch = two_row_batch();
    let schema = full_schema();
    let out = DynRecordRef::from_record_batch(&batch, 1, &ProjectionMask::all(), &schema);
    assert!(out.deleted);
    assert_eq!(out.ts, 42);
    // stored nulls materialize as absent, even under the full mask
    assert_eq!(out.record.columns[1].payload, Payload::Optional(DataType::Utf8, None));
    assert_eq!(out.record.columns[2].payload, Payload::Optional(DataType::UInt32, None));
    // the primary key is still read bare
    assert_eq!(
        out.record.columns[0].payload,
        Payload::Required(Scalar::Utf8("beta".to_string()))
    );
}

#[test]
fn materialize_minimal_mask_keeps_primary_only() {
    let batch = two_row_batch();
    let schema = full_schema();
    // no leaf is included at all
    let mask = ProjectionMask::from_leaves(vec![]);
    let out = DynRecordRef::from_record_batch(&batch, 0, &mask, &schema);
    let row = out.record;
    assert_eq!(row.columns[0].payload, Payload::Required(Scalar::Utf8("alpha".to_string())));
    assert_eq!(row.columns[1].payload, Payload::Optional(DataType::Utf8, None));
    assert_eq!(row.columns[2].payload, Payload::Optional(DataType::UInt32, None));
}

#[test]
fn materialize_defaults_missing_column() {
    // the physical batch omits "age" entirely
    let mut batch = two_row_batch();
    batch.columns.remove(4);
    let schema = full_schema();
    let out = DynRecordRef::from_record_batch(&batch, 0, &ProjectionMask::all(), &schema);
    let row = out.record;
    assert_eq!(row.columns[2].name, "age");
    assert_eq!(row.columns[2].datatype, DataType::UInt32);
    assert_eq!(row.columns[2].payload, Payload::Optional(DataType::UInt32, None));
    // under a minimal mask the omitted column looks exactly the same
    let out2 =
        DynRecordRef::from_record_batch(&batch, 0, &ProjectionMask::from_leaves(vec![]), &schema);
    assert_eq!(out2.record.columns[2].payload, Payload::Optional(DataType::UInt32, None));
}

#[test]
fn materialize_respects_pruned_batch_order() {
    // the batch lists user columns in a different order than the schema
    let batch = Batch {
        columns: vec![
            batch_column("_null", DataType::Boolean, false, vec![Some(Scalar::Boolean(false))]),
            batch_column("_ts", DataType::UInt32, false, vec![Some(Scalar::UInt32(1))]),
            batch_column("age", DataType::UInt32, true, vec![Some(Scalar::UInt32(9))]),
            batch_column("id", DataType::Utf8, false, vec![Some(Scalar::Utf8("x".to_string()))]),
        ],
        num_rows: 1,
    };
    let schema = full_schema();
    let out = DynRecordRef::from_record_batch(&batch, 0, &ProjectionMask::all(), &schema);
    let row = out.record;
    assert_eq!(row.columns[0].payload, Payload::Required(Scalar::Utf8("x".to_string())));
    // "name" is missing from the batch
    assert_eq!(row.columns[1].payload, Payload::Optional(DataType::Utf8, None));
    assert_eq!(
        row.columns[2].payload,
        Payload::Optional(DataType::UInt32, Some(Scalar::UInt32(9)))
    );
}

#[test]
fn materialized_row_projects_and_encodes() {
    // read path end to end: materialize, re-project, encode, decode
    let batch = two_row_batch();
    let schema = full_schema();
    let out = DynRecordRef::from_record_batch(&batch, 0, &ProjectionMask::all(), &schema);
    let mut row = out.record;
    // a narrower mask than the one used at materialization: keep leaf 3 ("name")
    row.projection(&ProjectionMask::from_leaves(vec![false, false, false, true, false]));
    assert_eq!(
        row.columns[1].payload,
        Payload::Optional(DataType::Utf8, Some(Scalar::Utf8("Jack".to_string())))
    );
    assert_eq!(row.columns[2].payload, Payload::Optional(DataType::UInt32, None));
    let mut buf: Vec<u8> = Vec::new();
    row.encode(&mut buf);
    assert_eq!(buf.len(), row.size());
    let decoded = DynRecordRef::decode(buf.as_slice()).unwrap();
    assert_eq!(decoded, row);
}
