use ipc_stream::error::EncodeError;
use ipc_stream::model::ArrayData;
use ipc_stream::model::ColumnType;
use ipc_stream::model::Field;
use ipc_stream::model::RecordBatch;
use ipc_stream::model::Schema;
use ipc_stream::stream::RecordBatches;
use ipc_stream::stream::encode_stream;
use ipc_stream::tracker::DictionaryTracker;

fn int32_field(name: &str, nullable: bool) -> Field {
    Field {
        name: name.as_bytes().to_vec(),
        dtype: ColumnType::Primitive { byte_width: 4 },
        nullable,
    }
}

fn int32_column(values: &[i32]) -> ArrayData {
    let mut bytes: Vec<u8> = Vec::new();
    for v in values {
        bytes.extend_from_slice(&v.to_le_bytes());
    }
    ArrayData {
        dtype: ColumnType::Primitive { byte_width: 4 },
        row_count: values.len(),
        null_count: 0,
        validity: None,
        buffers: vec![bytes],
        children: Vec::new(),
    }
}

/// Walks the stream frame by frame, returning (message kind, body length)
/// pairs, and checks the framing protocol on the way.
fn walk_frames(stream: &[u8]) -> Vec<(u8, usize)> {
    let mut frames: Vec<(u8, usize)> = Vec::new();
    let mut pos: usize = 0;
    loop {
        assert_eq!(&stream[pos..pos + 4], &[0xffu8, 0xff, 0xff, 0xff]);
        let len = i32::from_le_bytes([
            stream[pos + 4],
            stream[pos + 5],
            stream[pos + 6],
            stream[pos + 7],
        ]);
        assert!(len >= 0);
        if len == 0 {
            assert_eq!(pos + 8, stream.len(), "end marker closes the stream");
            return frames;
        }
        assert_eq!(len % 8, 0, "padded metadata is a multiple of 8");
        let meta = &stream[pos + 8..pos + 8 + len as usize];
        let kind = meta[0];
        let mut blen_bytes = [0u8; 8];
        blen_bytes.copy_from_slice(&meta[1..9]);
        let body_len = i64::from_le_bytes(blen_bytes);
        assert!(body_len >= 0);
        assert_eq!(body_len % 8, 0, "body is a multiple of 8");
        let body_start = pos + 8 + len as usize;
        assert_eq!(body_start % 8, 0, "body starts 8-byte aligned");
        frames.push((kind, body_len as usize));
        pos = body_start + body_len as usize;
    }
}

#[test]
fn single_int32_column_stream_has_expected_bytes() {
    let schema = Schema { fields: vec![int32_field("x", false)] };
    let batch = RecordBatch {
        schema: Schema { fields: vec![int32_field("x", false)] },
        row_count: 3,
        columns: vec![int32_column(&[1, 2, 3])],
    };
    let out = encode_stream(&schema, &vec![batch]).unwrap();

    let frames = walk_frames(&out);
    assert_eq!(frames.len(), 2);
    assert_eq!(frames[0], (1, 0), "schema message first, metadata only");
    assert_eq!(frames[1].0, 2, "then one record batch");
    assert_eq!(frames[1].1, 24, "bitmap padded to 8 plus 12 value bytes padded to 16");

    // The record-batch body: an all-valid bitmap buffer padded to 8 bytes,
    // then the 12 raw little-endian bytes of [1, 2, 3] padded to 16.
    let body_end = out.len() - 8;
    let body = &out[body_end - 24..body_end];
    let expected_bitmap = [0xffu8, 0, 0, 0, 0, 0, 0, 0];
    let expected_values = [1u8, 0, 0, 0, 2, 0, 0, 0, 3, 0, 0, 0, 0, 0, 0, 0];
    assert_eq!(&body[0..8], &expected_bitmap);
    assert_eq!(&body[8..24], &expected_values);

    // and the stream ends with a zero-length continuation marker
    assert_eq!(&out[out.len() - 8..], &[0xffu8, 0xff, 0xff, 0xff, 0, 0, 0, 0]);
}

#[test]
fn empty_stream_is_schema_frame_plus_end_marker() {
    let schema = Schema { fields: vec![int32_field("x", false)] };
    let out = encode_stream(&schema, &Vec::new()).unwrap();
    let frames = walk_frames(&out);
    assert_eq!(frames, vec![(1u8, 0usize)]);
    // schema metadata: kind + body length + field count + (name len + name +
    // nullable + type tag + width) = 29 bytes, framed to 40; plus 8 end bytes
    assert_eq!(out.len(), 48);
}

#[test]
fn explicit_validity_bitmap_is_written_verbatim() {
    let schema = Schema { fields: vec![int32_field("x", true)] };
    let column = ArrayData {
        dtype: ColumnType::Primitive { byte_width: 4 },
        row_count: 3,
        null_count: 1,
        validity: Some(vec![0b0000_0101u8]),
        buffers: vec![vec![1, 0, 0, 0, 0, 0, 0, 0, 3, 0, 0, 0]],
        children: Vec::new(),
    };
    let batch = RecordBatch {
        schema: Schema { fields: vec![int32_field("x", true)] },
        row_count: 3,
        columns: vec![column],
    };
    let out = encode_stream(&schema, &vec![batch]).unwrap();
    let body_end = out.len() - 8;
    let body = &out[body_end - 24..body_end];
    assert_eq!(body[0], 0b0000_0101u8);
    assert_eq!(&body[1..8], &[0u8; 7]);
}

#[test]
fn null_count_beyond_row_count_is_an_encoding_failure() {
    let column = ArrayData {
        dtype: ColumnType::Primitive { byte_width: 4 },
        row_count: 1,
        null_count: 2,
        validity: None,
        buffers: vec![vec![1, 0, 0, 0]],
        children: Vec::new(),
    };
    let batch = RecordBatch {
        schema: Schema { fields: vec![int32_field("x", false)] },
        row_count: 1,
        columns: vec![column],
    };
    let mut tracker = DictionaryTracker::new();
    let r = ipc_stream::stream::encode_batch(&batch, &mut tracker);
    assert_eq!(r.unwrap_err(), EncodeError::EncodingFailure);
}

#[test]
fn short_validity_bitmap_is_an_encoding_failure() {
    let column = ArrayData {
        dtype: ColumnType::Primitive { byte_width: 1 },
        row_count: 9,
        null_count: 0,
        validity: Some(vec![0xffu8]),
        buffers: vec![vec![0u8; 9]],
        children: Vec::new(),
    };
    let batch = RecordBatch {
        schema: Schema { fields: vec![int32_field("x", false)] },
        row_count: 9,
        columns: vec![column],
    };
    let mut tracker = DictionaryTracker::new();
    let r = ipc_stream::stream::encode_batch(&batch, &mut tracker);
    assert_eq!(r.unwrap_err(), EncodeError::EncodingFailure);
}

#[test]
fn null_type_column_writes_no_buffers() {
    let schema = Schema {
        fields: vec![Field {
            name: b"n".to_vec(),
            dtype: ColumnType::Null,
            nullable: true,
        }],
    };
    let column = ArrayData {
        dtype: ColumnType::Null,
        row_count: 5,
        null_count: 5,
        validity: None,
        buffers: Vec::new(),
        children: Vec::new(),
    };
    let batch = RecordBatch {
        schema: Schema {
            fields: vec![Field {
                name: b"n".to_vec(),
                dtype: ColumnType::Null,
                nullable: true,
            }],
        },
        row_count: 5,
        columns: vec![column],
    };
    let out = encode_stream(&schema, &vec![batch]).unwrap();
    let frames = walk_frames(&out);
    assert_eq!(frames.len(), 2);
    assert_eq!(frames[1], (2, 0), "a null column contributes no body bytes");
}

#[test]
fn record_batches_roundtrip_schema_and_empty_case() {
    let empty = RecordBatches::new(Vec::new());
    assert!(empty.schema().is_none());
    assert_eq!(empty.into_stream_bytes().unwrap(), Vec::<u8>::new());

    let batch = RecordBatch {
        schema: Schema { fields: vec![int32_field("x", false)] },
        row_count: 3,
        columns: vec![int32_column(&[1, 2, 3])],
    };
    let batches = RecordBatches::new(vec![batch]);
    assert!(batches.schema().is_some());
    let out = batches.into_stream_bytes().unwrap();
    let frames = walk_frames(&out);
    assert_eq!(frames.len(), 2);
}

#[test]
fn two_batches_give_two_record_batch_frames_in_order() {
    let schema = Schema { fields: vec![int32_field("x", false)] };
    let b1 = RecordBatch {
        schema: Schema { fields: vec![int32_field("x", false)] },
        row_count: 2,
        columns: vec![int32_column(&[10, 20])],
    };
    let b2 = RecordBatch {
        schema: Schema { fields: vec![int32_field("x", false)] },
        row_count: 1,
        columns: vec![int32_column(&[30])],
    };
    let out = encode_stream(&schema, &vec![b1, b2]).unwrap();
    let frames = walk_frames(&out);
    assert_eq!(frames.len(), 3);
    assert_eq!(frames[0].0, 1);
    assert_eq!(frames[1].0, 2);
    assert_eq!(frames[2].0, 2);
}
