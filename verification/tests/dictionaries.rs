use ipc_stream::model::ArrayData;
use ipc_stream::model::ColumnType;
use ipc_stream::model::Field;
use ipc_stream::model::RecordBatch;
use ipc_stream::model::Schema;
use ipc_stream::stream::encode_batch;
use ipc_stream::stream::encode_stream;
use ipc_stream::tracker::DictionaryAction;
use ipc_stream::tracker::DictionaryTracker;

fn dict_type(id: i64) -> ColumnType {
    ColumnType::Dictionary {
        dict_id: id,
        key: Box::new(ColumnType::Primitive { byte_width: 1 }),
        value: Box::new(ColumnType::Primitive { byte_width: 4 }),
    }
}

fn dict_values(values: &[i32]) -> ArrayData {
    let mut bytes: Vec<u8> = Vec::new();
    for v in values {
        bytes.extend_from_slice(&v.to_le_bytes());
    }
    ArrayData {
        dtype: ColumnType::Primitive { byte_width: 4 },
        row_count: values.len(),
        null_count: 0,
        validity: None,
        buffers: vec![bytes],
        children: Vec::new(),
    }
}

fn dict_column(id: i64, indices: &[u8], values: &[i32]) -> ArrayData {
    ArrayData {
        dtype: dict_type(id),
        row_count: indices.len(),
        null_count: 0,
        validity: None,
        buffers: vec![indices.to_vec()],
        children: vec![dict_values(values)],
    }
}

fn dict_batch(id: i64, indices: &[u8], values: &[i32]) -> RecordBatch {
    RecordBatch {
        schema: Schema {
            fields: vec![Field { name: b"d".to_vec(), dtype: dict_type(id), nullable: false }],
        },
        row_count: indices.len(),
        columns: vec![dict_column(id, indices, values)],
    }
}

#[test]
fn tracker_reports_emit_then_skip_then_emit_on_change() {
    let mut tracker = DictionaryTracker::new();
    let v1 = dict_values(&[7, 8]);
    let v1_again = dict_values(&[7, 8]);
    let v2 = dict_values(&[7, 9]);
    assert_eq!(tracker.record_and_check(3, &v1), DictionaryAction::Emit);
    assert_eq!(tracker.record_and_check(3, &v1_again), DictionaryAction::Skip);
    assert_eq!(tracker.record_and_check(3, &v2), DictionaryAction::Emit);
    assert_eq!(tracker.record_and_check(3, &v2), DictionaryAction::Skip);
    // a different identifier is tracked independently
    assert_eq!(tracker.record_and_check(4, &v1), DictionaryAction::Emit);
}

#[test]
fn identical_dictionary_values_are_emitted_once() {
    let mut tracker = DictionaryTracker::new();
    let (dicts1, _) = encode_batch(&dict_batch(5, &[0, 1, 0], &[10, 20]), &mut tracker).unwrap();
    assert_eq!(dicts1.len(), 1, "first reference emits the dictionary");
    let (dicts2, _) = encode_batch(&dict_batch(5, &[1, 1, 0], &[10, 20]), &mut tracker).unwrap();
    assert_eq!(dicts2.len(), 0, "byte-identical values are not re-emitted");
    let (dicts3, _) = encode_batch(&dict_batch(5, &[0, 0, 1], &[10, 20]), &mut tracker).unwrap();
    assert_eq!(dicts3.len(), 0);
}

#[test]
fn changed_dictionary_values_are_emitted_again() {
    let mut tracker = DictionaryTracker::new();
    let (dicts1, _) = encode_batch(&dict_batch(5, &[0], &[10, 20]), &mut tracker).unwrap();
    assert_eq!(dicts1.len(), 1);
    let (dicts2, _) = encode_batch(&dict_batch(5, &[0], &[10, 21]), &mut tracker).unwrap();
    assert_eq!(dicts2.len(), 1, "changed values force one new dictionary batch");
}

#[test]
fn dictionary_batch_precedes_its_record_batch_on_the_wire() {
    let schema = Schema {
        fields: vec![Field { name: b"d".to_vec(), dtype: dict_type(2), nullable: false }],
    };
    let batches = vec![
        dict_batch(2, &[0, 1], &[100, 200]),
        dict_batch(2, &[1, 0], &[100, 200]),
        dict_batch(2, &[0, 0], &[300, 200]),
    ];
    let out = encode_stream(&schema, &batches).unwrap();

    // walk the frames and collect the message kinds in order
    let mut kinds: Vec<u8> = Vec::new();
    let mut pos: usize = 0;
    loop {
        assert_eq!(&out[pos..pos + 4], &[0xffu8, 0xff, 0xff, 0xff]);
        let len = i32::from_le_bytes([out[pos + 4], out[pos + 5], out[pos + 6], out[pos + 7]]);
        if len == 0 {
            break;
        }
        let meta = &out[pos + 8..pos + 8 + len as usize];
        kinds.push(meta[0]);
        let mut blen_bytes = [0u8; 8];
        blen_bytes.copy_from_slice(&meta[1..9]);
        pos = pos + 8 + len as usize + i64::from_le_bytes(blen_bytes) as usize;
    }
    // schema; dictionary before its first record batch; record batch alone
    // while the values are unchanged; a new dictionary batch immediately
    // before the record batch whose values changed
    assert_eq!(kinds, vec![1u8, 3, 2, 2, 3, 2]);
}

#[test]
fn dictionary_column_without_values_is_an_encoding_failure() {
    let column = ArrayData {
        dtype: dict_type(1),
        row_count: 1,
        null_count: 0,
        validity: None,
        buffers: vec![vec![0u8]],
        children: Vec::new(),
    };
    let batch = RecordBatch {
        schema: Schema {
            fields: vec![Field { name: b"d".to_vec(), dtype: dict_type(1), nullable: false }],
        },
        row_count: 1,
        columns: vec![column],
    };
    let mut tracker = DictionaryTracker::new();
    let r = encode_batch(&batch, &mut tracker);
    assert_eq!(r.unwrap_err(), ipc_stream::error::EncodeError::EncodingFailure);
}

#[test]
fn dictionary_body_holds_values_not_indices() {
    let mut tracker = DictionaryTracker::new();
    let (dicts, msg) = encode_batch(&dict_batch(6, &[0, 1, 1], &[77, 88]), &mut tracker).unwrap();
    assert_eq!(dicts.len(), 1);
    // the dictionary batch body: all-valid bitmap (8) + two int32 values (8)
    let dict_body = &dicts[0].body_data;
    assert_eq!(dict_body.len(), 16);
    assert_eq!(&dict_body[8..12], &77i32.to_le_bytes());
    assert_eq!(&dict_body[12..16], &88i32.to_le_bytes());
    // the record batch body: all-valid bitmap (8) + three index bytes padded
    assert_eq!(msg.body_data.len(), 16);
    assert_eq!(&msg.body_data[8..11], &[0u8, 1, 1]);
}
