use ipc_stream::error::EncodeError;
use ipc_stream::framing::EncodedData;
use ipc_stream::framing::pad_output_stream;
use ipc_stream::framing::pad_to_8;
use ipc_stream::framing::write_bytes_to_stream;
use ipc_stream::framing::write_continuation_marker;
use ipc_stream::framing::write_encoded_data_to_stream;

#[test]
fn pad_to_8_rounds_up_to_a_multiple_of_8() {
    assert_eq!(pad_to_8(0), 0);
    assert_eq!(pad_to_8(1), 7);
    assert_eq!(pad_to_8(7), 1);
    assert_eq!(pad_to_8(8), 0);
    assert_eq!(pad_to_8(12), 4);
    assert_eq!(pad_to_8(16), 0);
}

#[test]
fn pad_output_stream_appends_zeros() {
    let mut out = vec![9u8];
    pad_output_stream(&mut out, 3);
    assert_eq!(out, vec![9u8, 0, 0, 0]);
}

#[test]
fn write_bytes_to_stream_pads_to_eight() {
    let mut out: Vec<u8> = Vec::new();
    let total = write_bytes_to_stream(&mut out, &[1u8, 2, 3]);
    assert_eq!(total, 8);
    assert_eq!(out, vec![1u8, 2, 3, 0, 0, 0, 0, 0]);
}

#[test]
fn write_continuation_marker_writes_sentinel_and_length() {
    let mut out: Vec<u8> = Vec::new();
    write_continuation_marker(&mut out, 16);
    assert_eq!(out, vec![0xffu8, 0xff, 0xff, 0xff, 16, 0, 0, 0]);
}

#[test]
fn frame_layout_is_marker_length_metadata_padding_body() {
    let mut out: Vec<u8> = Vec::new();
    let encoded = EncodedData {
        ipc_message: vec![7u8, 8, 9],
        body_data: vec![1u8, 2, 3, 4, 5, 6, 7, 8],
    };
    let (aligned, body_len) = write_encoded_data_to_stream(&mut out, encoded).unwrap();
    // metadata 3 bytes + 8-byte header rounds up to 16
    assert_eq!(aligned, 16);
    assert_eq!(body_len, 8);
    assert_eq!(&out[0..4], &[0xffu8, 0xff, 0xff, 0xff]);
    // the length field counts padded metadata only, never the body
    assert_eq!(i32::from_le_bytes([out[4], out[5], out[6], out[7]]), 8);
    assert_eq!(&out[8..11], &[7u8, 8, 9]);
    assert_eq!(&out[11..16], &[0u8, 0, 0, 0, 0]);
    assert_eq!(&out[16..24], &[1u8, 2, 3, 4, 5, 6, 7, 8]);
    assert_eq!(out.len(), 24);
}

#[test]
fn unaligned_body_is_an_alignment_violation() {
    let mut out: Vec<u8> = Vec::new();
    let encoded = EncodedData { ipc_message: vec![1u8], body_data: vec![1u8, 2, 3] };
    let r = write_encoded_data_to_stream(&mut out, encoded);
    assert_eq!(r, Err(EncodeError::AlignmentViolation));
    assert!(out.is_empty());
}

#[test]
fn error_kinds_describe_themselves() {
    assert!(!EncodeError::EncodingFailure.describe().is_empty());
    assert!(!EncodeError::WriteFailure.describe().is_empty());
    assert!(!EncodeError::AlignmentViolation.describe().is_empty());
    assert!(!EncodeError::UnsupportedInput.describe().is_empty());
}
