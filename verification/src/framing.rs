//! Wire framing: the continuation marker, the signed 32-bit length prefix,
//! zero padding up to 8-byte boundaries, and the end-of-stream marker.
//!
//! Every message is laid out as
//! `[0xFF 0xFF 0xFF 0xFF][int32 little-endian length][metadata, zero-padded][body]`,
//! where the length field counts the bytes from immediately after itself to
//! the end of the zero-padded metadata and never includes the body.  The
//! stream ends with the same marker followed by a length field of zero.

use crate::error::EncodeError;
use vstd::bytes::*;
use vstd::prelude::*;

verus! {

/// Bytes in the continuation-marker plus length-prefix header.
pub const PREFIX_SIZE: usize = 8;

/// Every message region is padded up to a multiple of this many bytes.
pub const BLOCK_SIZE: usize = 8;

/// Number of zero bytes that bring a region of `n` bytes up to the next
/// multiple of 8.
pub open spec fn pad_of(n: int) -> int {
    (8 - n % 8) % 8
}

/// `n` rounded up to the next multiple of 8.
pub open spec fn padded_size(n: int) -> int {
    n + pad_of(n)
}

/// A run of `n` zero bytes.
pub open spec fn zero_bytes(n: int) -> Seq<u8> {
    Seq::new(n as nat, |i: int| 0u8)
}

/// `b` followed by the zero padding that makes its length a multiple of 8.
pub open spec fn pad8(b: Seq<u8>) -> Seq<u8> {
    b + zero_bytes(pad_of(b.len() as int))
}

pub proof fn lemma_padded_size(n: int)
    requires
        n >= 0,
    ensures
        padded_size(n) % 8 == 0,
        n <= padded_size(n) < n + 8,
        n % 8 == 0 ==> padded_size(n) == n,
{
}

/// A message's metadata and body bytes, before framing.
pub struct EncodedMsg {
    pub metadata: Seq<u8>,
    pub body: Seq<u8>,
}

/// One encoded message: a metadata table and the body bytes it describes.
#[derive(Debug)]
pub struct EncodedData {
    /// The self-describing metadata table.
    pub ipc_message: Vec<u8>,
    /// The concatenated, individually padded buffers of the message body.
    pub body_data: Vec<u8>,
}

impl View for EncodedData {
    type V = EncodedMsg;

    open spec fn view(&self) -> EncodedMsg {
        EncodedMsg { metadata: self.ipc_message@, body: self.body_data@ }
    }
}

/// The fixed 4-byte sentinel that precedes every message.
pub open spec fn continuation_bytes() -> Seq<u8> {
    seq![0xffu8, 0xffu8, 0xffu8, 0xffu8]
}

/// The 4-byte little-endian length prefix.
pub open spec fn length_field(len: i32) -> Seq<u8> {
    spec_u32_to_le_bytes(len as u32)
}

/// The 8 bytes that close a stream: a continuation marker with length zero.
pub open spec fn stream_end_bytes() -> Seq<u8> {
    continuation_bytes() + length_field(0)
}

/// Whether a metadata table is small enough for its padded size, less the
/// 8-byte header, to be stated in the signed 32-bit length prefix.
pub open spec fn frame_fits(metadata: Seq<u8>) -> bool {
    padded_size(metadata.len() as int + 8) - 8 <= i32::MAX as int
}

/// The full wire framing of one message.
pub open spec fn frame_bytes(m: EncodedMsg) -> Seq<u8> {
    let aligned = padded_size(m.metadata.len() as int + 8);
    continuation_bytes() + length_field((aligned - 8) as i32) + m.metadata + zero_bytes(
        aligned - 8 - m.metadata.len(),
    ) + m.body
}

/// Rounds a length up to a multiple of 8, returning the number of zero bytes
/// to add.
#[inline]
pub fn pad_to_8(len: usize) -> (r: usize)
    ensures
        r as int == pad_of(len as int),
{
    let rem: usize = len % BLOCK_SIZE;
    if rem == 0 {
        0
    } else {
        BLOCK_SIZE - rem
    }
}

/// Adds zeros to the end of a stream, `pad_len` of them.
pub fn pad_output_stream(writer: &mut Vec<u8>, pad_len: usize)
    ensures
        final(writer)@ == old(writer)@ + zero_bytes(pad_len as int),
{
    let mut i: usize = 0;
    while i < pad_len
        invariant
            i <= pad_len,
            writer@ == old(writer)@ + zero_bytes(i as int),
        decreases pad_len - i,
    {
        writer.push(0u8);
        i = i + 1;
        proof {
            assert(writer@ =~= old(writer)@ + zero_bytes(i as int));
        }
    }
}

/// Appends a slice of bytes to a stream, unchanged.
pub fn push_slice(writer: &mut Vec<u8>, data: &[u8])
    ensures
        final(writer)@ == old(writer)@ + data@,
{
    let mut i: usize = 0;
    while i < data.len()
        invariant
            i <= data@.len(),
            writer@ == old(writer)@ + data@.subrange(0, i as int),
        decreases data@.len() - i,
    {
        let b: u8 = data[i];
        writer.push(b);
        i = i + 1;
        proof {
            assert(writer@ =~= old(writer)@ + data@.subrange(0, i as int));
        }
    }
    proof {
        assert(data@.subrange(0, data@.len() as int) =~= data@);
    }
}

/// Writes bytes to a stream, padding with zeros up to the nearest multiple of
/// 8, and returns the padded total length.
pub fn write_bytes_to_stream(writer: &mut Vec<u8>, data: &[u8]) -> (total: usize)
    requires
        pad_of(data@.len() as int) == 0 || data@.len() + 7 <= usize::MAX,
    ensures
        final(writer)@ == old(writer)@ + pad8(data@),
        total as int == padded_size(data@.len() as int),
{
    let len: usize = data.len();
    let pad_len: usize = pad_to_8(len);
    push_slice(writer, data);
    if pad_len > 0 {
        pad_output_stream(writer, pad_len);
    } else {
        proof {
            assert(writer@ =~= writer@ + zero_bytes(0));
        }
    }
    proof {
        assert(writer@ =~= old(writer)@ + pad8(data@));
    }
    len + pad_len
}

/// Writes a continuation marker and a little-endian length field to a stream.
/// This precedes the contents of every message.
pub fn write_continuation_marker(writer: &mut Vec<u8>, total_len: i32)
    requires
        total_len >= 0,
    ensures
        final(writer)@ == old(writer)@ + continuation_bytes() + length_field(total_len),
{
    writer.push(0xff);
    writer.push(0xff);
    writer.push(0xff);
    writer.push(0xff);
    proof {
        assert(writer@ =~= old(writer)@ + continuation_bytes());
    }
    let mut len_bytes = u32_to_le_bytes(total_len as u32);
    writer.append(&mut len_bytes);
}

/// Writes the contents of an [`EncodedData`] to a stream: the continuation
/// marker, the length prefix, the zero-padded metadata, then the body.
///
/// Returns the padded metadata region size (header included) and the body
/// length.  Fails with [`EncodeError::AlignmentViolation`] when the body is
/// not a multiple of 8 bytes, and with [`EncodeError::UnsupportedInput`] when
/// the metadata is too large for the signed 32-bit length prefix; on failure
/// nothing is written.
pub fn write_encoded_data_to_stream(writer: &mut Vec<u8>, encoded: EncodedData) -> (r: Result<
    (usize, usize),
    EncodeError,
>)
    ensures
        match r {
            Ok((aligned_size, body_len)) => {
                &&& encoded@.body.len() % 8 == 0
                &&& frame_fits(encoded@.metadata)
                &&& final(writer)@ == old(writer)@ + frame_bytes(encoded@)
                &&& aligned_size as int == padded_size(encoded@.metadata.len() as int + 8)
                &&& body_len == encoded@.body.len()
            },
            Err(e) => {
                &&& final(writer)@ == old(writer)@
                &&& e != EncodeError::EncodingFailure
                &&& e != EncodeError::WriteFailure
                &&& (e == EncodeError::AlignmentViolation <==> encoded@.body.len() % 8 != 0)
                &&& (e == EncodeError::UnsupportedInput ==> !frame_fits(encoded@.metadata))
            },
        },
        r is Err <==> (encoded@.body.len() % 8 != 0 || !frame_fits(encoded@.metadata)),
{
    let mut encoded = encoded;
    let ghost orig: EncodedMsg = encoded@;
    let body_data_len: usize = encoded.body_data.len();
    if body_data_len % 8 != 0 {
        return Err(EncodeError::AlignmentViolation);
    }
    let flatbuf_size: usize = encoded.ipc_message.len();
    if flatbuf_size > usize::MAX - PREFIX_SIZE - 7 {
        proof {
            lemma_padded_size(flatbuf_size as int + 8);
        }
        return Err(EncodeError::UnsupportedInput);
    }
    let padding_bytes: usize = pad_to_8(flatbuf_size + PREFIX_SIZE);
    let len_without_prefix: usize = flatbuf_size + padding_bytes;
    if len_without_prefix > i32::MAX as usize {
        return Err(EncodeError::UnsupportedInput);
    }
    let aligned_size: usize = len_without_prefix + PREFIX_SIZE;
    write_continuation_marker(writer, len_without_prefix as i32);
    writer.append(&mut encoded.ipc_message);
    pad_output_stream(writer, padding_bytes);
    let body_len: usize = if body_data_len > 0 {
        write_bytes_to_stream(writer, encoded.body_data.as_slice())
    } else {
        0
    };
    proof {
        lemma_auto_spec_u32_to_from_le_bytes();
        lemma_padded_size(flatbuf_size as int + 8);
        assert(pad8(orig.body) =~= orig.body);
        assert(writer@ =~= old(writer)@ + frame_bytes(orig));
    }
    Ok((aligned_size, body_len))
}

} // verus!
