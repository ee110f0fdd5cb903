use arrow_array::{Int32Array, RecordBatch, StringArray};
use arrow_schema::{DataType, Field, Schema};
use std::sync::Arc;
use take_ur_meds::store::{
    decode_records, encode_records, encode_records_within, StoreError, StoredRecord, TextBatch, COLUMN_BYTES,
};

fn stored(name: &str, text: &str, vector: &str) -> StoredRecord {
    StoredRecord { condition_name: name.to_string(), text: text.to_string(), vector: vector.to_string() }
}

fn listed(records: &Vec<StoredRecord>) -> Vec<(String, String, String)> {
    records.iter().map(|r| (r.condition_name.clone(), r.text.clone(), r.vector.clone())).collect()
}

#[test]
fn records_come_back_as_they_went_in() {
    let records = vec![
        stored("Flu", "fever", "[0.1,0.2]"),
        stored("Gout", "", "[1.0]"),
        stored("Caf\u{e9}", "d\u{e9}j\u{e0} vu", "[]"),
    ];
    let batch = encode_records(&records).unwrap();
    assert_eq!(batch.batch.num_rows(), 3);
    assert_eq!(batch.batch.num_columns(), 3);
    assert_eq!(batch.batch.schema().field(0).name(), "condition_name");
    assert_eq!(batch.batch.schema().field(1).name(), "text");
    assert_eq!(batch.batch.schema().field(2).name(), "vector");
    assert_eq!(batch.batch.schema().field(2).data_type(), &DataType::Utf8);
    assert!(!batch.batch.schema().field(0).is_nullable());
    assert_eq!(listed(&decode_records(&batch)), listed(&records));
}

#[test]
fn no_records_make_an_empty_batch() {
    let batch = encode_records(&Vec::new()).unwrap();
    assert_eq!(batch.batch.num_rows(), 0);
    assert!(decode_records(&batch).is_empty());
}

#[test]
fn a_batch_without_a_column_holds_no_records() {
    let schema = Schema::new(vec![
        Field::new("condition_name", DataType::Utf8, false),
        Field::new("text", DataType::Utf8, false),
    ]);
    let batch = RecordBatch::try_new(
        Arc::new(schema),
        vec![Arc::new(StringArray::from(vec!["a", "b"])), Arc::new(StringArray::from(vec!["x", "y"]))],
    )
    .unwrap();
    assert!(decode_records(&TextBatch { batch }).is_empty());
}

#[test]
fn a_column_of_numbers_is_no_text_column() {
    let schema = Schema::new(vec![
        Field::new("condition_name", DataType::Utf8, false),
        Field::new("text", DataType::Utf8, false),
        Field::new("vector", DataType::Int32, false),
    ]);
    let batch = RecordBatch::try_new(
        Arc::new(schema),
        vec![
            Arc::new(StringArray::from(vec!["a"])),
            Arc::new(StringArray::from(vec!["x"])),
            Arc::new(Int32Array::from(vec![1])),
        ],
    )
    .unwrap();
    assert!(decode_records(&TextBatch { batch }).is_empty());
}

#[test]
fn columns_are_found_by_name_in_any_order() {
    let schema = Schema::new(vec![
        Field::new("vector", DataType::Utf8, false),
        Field::new("extra", DataType::Utf8, false),
        Field::new("text", DataType::Utf8, false),
        Field::new("condition_name", DataType::Utf8, false),
    ]);
    let batch = RecordBatch::try_new(
        Arc::new(schema),
        vec![
            Arc::new(StringArray::from(vec!["[1]", "[2]"])),
            Arc::new(StringArray::from(vec!["-", "-"])),
            Arc::new(StringArray::from(vec!["t1", "t2"])),
            Arc::new(StringArray::from(vec!["n1", "n2"])),
        ],
    )
    .unwrap();
    let records = decode_records(&TextBatch { batch });
    assert_eq!(
        listed(&records),
        vec![
            ("n1".to_string(), "t1".to_string(), "[1]".to_string()),
            ("n2".to_string(), "t2".to_string(), "[2]".to_string()),
        ]
    );
}

#[test]
fn a_column_beyond_the_limit_is_too_large() {
    assert_eq!(COLUMN_BYTES, i32::MAX as usize);
    let records = vec![stored("ab", "12345", "[]"), stored("c\u{e9}", "678", "[1]")];
    assert!(encode_records_within(&records, 8).is_ok());
    assert!(encode_records_within(&records, usize::MAX).is_ok());
    assert_eq!(encode_records_within(&records, 7).err(), Some(StoreError::TooLarge));
    assert_eq!(encode_records_within(&records, 0).err(), Some(StoreError::TooLarge));
    let names_only = vec![stored("abcde", "", ""), stored("\u{e9}\u{e9}", "", "")];
    assert!(encode_records_within(&names_only, 9).is_ok());
    assert_eq!(encode_records_within(&names_only, 8).err(), Some(StoreError::TooLarge));
    let vectors_only = vec![stored("", "", "[0.5]")];
    assert!(encode_records_within(&vectors_only, 5).is_ok());
    assert_eq!(encode_records_within(&vectors_only, 4).err(), Some(StoreError::TooLarge));
    assert!(encode_records_within(&Vec::new(), 0).is_ok());
}
