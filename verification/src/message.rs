//! The three message kinds — Schema, RecordBatch and DictionaryBatch — built
//! as minimal self-describing tables over a flat byte layout.
//!
//! Metadata layout.  Every numeric field is a signed 64-bit little-endian
//! integer.  A message is `[kind byte][body length][kind-specific header]`.
//! The Schema header is a vector of fields, each
//! `[name length][name bytes][nullable byte][type descriptor]`, where a type
//! descriptor is a tag byte followed by its parts; the RecordBatch header is
//! `[row count][node count][nodes][buffer count][buffer descriptors]`; the
//! DictionaryBatch header is `[dictionary id]` followed by a
//! RecordBatch-shaped header for the single value array.
//!
//! Bodies are built by flattening each array depth-first: a validity bitmap
//! (synthesized all-valid when absent), then the value buffers, then the
//! children — except that the null type writes no buffers at all, and a
//! dictionary array writes only its index buffers, never its values.  Every
//! buffer is padded with trailing zeros to a multiple of 8 bytes, and its
//! descriptor records its offset within the body and its padded length.

use crate::error::EncodeError;
use crate::framing::EncodedData;
use crate::framing::pad8;
use crate::framing::pad_output_stream;
use crate::framing::pad_to_8;
use crate::framing::padded_size;
use crate::framing::push_slice;
use crate::model::ArrayData;
use crate::model::ColumnType;
use crate::model::Field;
use crate::model::RecordBatch;
use crate::model::Schema;
use crate::model::array_consistent;
use crate::model::array_fits;
use crate::model::field_fits;
use crate::model::schema_fits;
use crate::model::type_fits;
use vstd::bytes::*;
use vstd::prelude::*;

verus! {

broadcast use vstd::seq::group_seq_axioms, vstd::std_specs::vec::group_vec_axioms;

/// The message-kind byte of a Schema message.
pub const SCHEMA_KIND: u8 = 1;

/// The message-kind byte of a RecordBatch message.
pub const RECORD_BATCH_KIND: u8 = 2;

/// The message-kind byte of a DictionaryBatch message.
pub const DICTIONARY_BATCH_KIND: u8 = 3;

/// The type-descriptor tag of the null type.
pub const TYPE_NULL: u8 = 0;

/// The type-descriptor tag of a fixed-width primitive type.
pub const TYPE_PRIMITIVE: u8 = 1;

/// The type-descriptor tag of a list type.
pub const TYPE_LIST: u8 = 2;

/// The type-descriptor tag of a struct type.
pub const TYPE_STRUCT: u8 = 3;

/// The type-descriptor tag of a dictionary type.
pub const TYPE_DICTIONARY: u8 = 4;

/// One field-node entry: the row count and null count of one array in the
/// depth-first flattening.
#[derive(Clone, Copy, Debug, PartialEq, Eq, Structural)]
pub struct FieldNode {
    pub length: i64,
    pub null_count: i64,
}

/// One buffer descriptor: a buffer's offset within the message body and its
/// padded length.
#[derive(Clone, Copy, Debug, PartialEq, Eq, Structural)]
pub struct BufferDesc {
    pub offset: usize,
    pub length: usize,
}

/// The unsigned reinterpretation of a signed 64-bit value.
pub open spec fn as_u64(v: i64) -> u64 {
    if v >= 0 {
        v as u64
    } else {
        (v + 0x1_0000_0000_0000_0000) as u64
    }
}

/// A signed 64-bit value as 8 little-endian bytes.
pub open spec fn enc_i64(v: i64) -> Seq<u8> {
    spec_u64_to_le_bytes(as_u64(v))
}

/// Appends a signed 64-bit value as 8 little-endian bytes.
pub fn push_i64(out: &mut Vec<u8>, v: i64)
    ensures
        final(out)@ == old(out)@ + enc_i64(v),
{
    let u: u64 = if v >= 0 {
        v as u64
    } else {
        let shifted: i64 = (v + 9223372036854775807i64) + 1;
        (shifted as u64) + 9223372036854775808u64
    };
    proof {
        assert(u == as_u64(v));
    }
    let mut b = u64_to_le_bytes(u);
    out.append(&mut b);
}

/// The synthesized all-valid bitmap for `rows` rows: one set bit per row,
/// `ceil(rows / 8)` bytes of `0xFF`.
pub open spec fn synth_validity(rows: int) -> Seq<u8> {
    Seq::new(((rows + 7) / 8) as nat, |i: int| 0xffu8)
}

/// The validity bitmap transmitted for an array: its own, or the synthesized
/// all-valid bitmap when it has none.
pub open spec fn validity_chunk(a: ArrayData) -> Seq<u8> {
    match a.validity {
        Some(v) => v@,
        None => synth_validity(a.row_count as int),
    }
}

/// The unpadded buffers an array itself contributes to a message body, in
/// write order: the validity bitmap (omitted for the null type) and then the
/// value buffers.
pub open spec fn own_chunks(a: ArrayData) -> Seq<Seq<u8>> {
    let vals = a.buffers@.map_values(|b: Vec<u8>| b@);
    if a.dtype is Null {
        vals
    } else {
        seq![validity_chunk(a)] + vals
    }
}

/// The unpadded buffers contributed by the first `n` arrays of `cs`, each
/// flattened depth-first.
pub open spec fn child_chunks(cs: Seq<ArrayData>, n: int) -> Seq<Seq<u8>>
    decreases cs, n,
{
    if n <= 0 || n > cs.len() {
        Seq::empty()
    } else {
        child_chunks(cs, n - 1) + chunk_list(cs[n - 1])
    }
}

/// The unpadded buffers of one array's depth-first flattening: its own, then
/// its children's — except below a dictionary array, whose values travel in
/// separate dictionary batches.
pub open spec fn chunk_list(a: ArrayData) -> Seq<Seq<u8>>
    decreases a, 0int,
{
    own_chunks(a) + if a.dtype is Dictionary {
        Seq::<Seq<u8>>::empty()
    } else {
        child_chunks(a.children@, a.children@.len() as int)
    }
}

/// The field nodes of the first `n` arrays of `cs`, flattened depth-first.
pub open spec fn child_nodes(cs: Seq<ArrayData>, n: int) -> Seq<FieldNode>
    decreases cs, n,
{
    if n <= 0 || n > cs.len() {
        Seq::empty()
    } else {
        child_nodes(cs, n - 1) + node_list(cs[n - 1])
    }
}

/// The field nodes of one array's depth-first flattening: itself, then its
/// children — except below a dictionary array.
pub open spec fn node_list(a: ArrayData) -> Seq<FieldNode>
    decreases a, 0int,
{
    seq![FieldNode { length: a.row_count as i64, null_count: a.null_count as i64 }]
        + if a.dtype is Dictionary {
        Seq::<FieldNode>::empty()
    } else {
        child_nodes(a.children@, a.children@.len() as int)
    }
}

/// The concatenation of a chunk list, each chunk padded to a multiple of 8.
pub open spec fn cat_padded(cs: Seq<Seq<u8>>) -> Seq<u8>
    decreases cs.len(),
{
    if cs.len() == 0 {
        Seq::empty()
    } else {
        cat_padded(cs.drop_last()) + pad8(cs.last())
    }
}

/// The buffer descriptors of a chunk list laid out from byte offset `start`:
/// each chunk's descriptor records where its padded bytes begin and their
/// padded length.
pub open spec fn descs_from(cs: Seq<Seq<u8>>, start: int) -> Seq<BufferDesc>
    decreases cs.len(),
{
    if cs.len() == 0 {
        Seq::empty()
    } else {
        descs_from(cs.drop_last(), start) + seq![
            BufferDesc {
                offset: (start + cat_padded(cs.drop_last()).len()) as usize,
                length: padded_size(cs.last().len() as int) as usize,
            },
        ]
    }
}

pub proof fn lemma_cat_padded_app(xs: Seq<Seq<u8>>, ys: Seq<Seq<u8>>)
    ensures
        cat_padded(xs + ys) == cat_padded(xs) + cat_padded(ys),
    decreases ys.len(),
{
    if ys.len() == 0 {
        assert(xs + ys =~= xs);
        assert(cat_padded(xs) + cat_padded(ys) =~= cat_padded(xs));
    } else {
        lemma_cat_padded_app(xs, ys.drop_last());
        assert((xs + ys).drop_last() =~= xs + ys.drop_last());
        assert((xs + ys).last() == ys.last());
        assert(cat_padded(xs) + cat_padded(ys.drop_last()) + pad8(ys.last()) =~= cat_padded(xs)
            + cat_padded(ys));
    }
}

pub proof fn lemma_descs_from_app(xs: Seq<Seq<u8>>, ys: Seq<Seq<u8>>, start: int)
    ensures
        descs_from(xs + ys, start) == descs_from(xs, start) + descs_from(
            ys,
            start + cat_padded(xs).len(),
        ),
    decreases ys.len(),
{
    if ys.len() == 0 {
        assert(xs + ys =~= xs);
        assert(descs_from(xs, start) + descs_from(ys, start + cat_padded(xs).len()) =~= descs_from(
            xs,
            start,
        ));
    } else {
        lemma_descs_from_app(xs, ys.drop_last(), start);
        lemma_cat_padded_app(xs, ys.drop_last());
        assert((xs + ys).drop_last() =~= xs + ys.drop_last());
        assert((xs + ys).last() == ys.last());
        assert(descs_from(xs + ys, start) =~= descs_from(xs, start) + descs_from(
            ys,
            start + cat_padded(xs).len(),
        ));
    }
}

/// Every padded concatenation is a multiple of 8 bytes long.
pub proof fn lemma_cat_padded_mod8(cs: Seq<Seq<u8>>)
    ensures
        cat_padded(cs).len() % 8 == 0,
    decreases cs.len(),
{
    if cs.len() != 0 {
        lemma_cat_padded_mod8(cs.drop_last());
        crate::framing::lemma_padded_size(cs.last().len() as int);
    }
}

pub proof fn lemma_descs_from_len(cs: Seq<Seq<u8>>, start: int)
    ensures
        descs_from(cs, start).len() == cs.len(),
    decreases cs.len(),
{
    if cs.len() != 0 {
        lemma_descs_from_len(cs.drop_last(), start);
    }
}

/// Every descriptor of a laid-out chunk list stays within
/// `[start, start + total length]`.
pub proof fn lemma_descs_bounded(cs: Seq<Seq<u8>>, start: int)
    requires
        0 <= start,
        start + cat_padded(cs).len() <= usize::MAX,
    ensures
        forall|i: int|
            0 <= i < descs_from(cs, start).len() ==> start <= (#[trigger] descs_from(cs, start)[i]).offset
                && descs_from(cs, start)[i].offset + descs_from(cs, start)[i].length <= start
                + cat_padded(cs).len(),
    decreases cs.len(),
{
    if cs.len() != 0 {
        crate::framing::lemma_padded_size(cs.last().len() as int);
        lemma_descs_bounded(cs.drop_last(), start);
        lemma_descs_from_len(cs.drop_last(), start);
        assert forall|i: int|
            0 <= i < descs_from(cs, start).len() implies start <= (#[trigger] descs_from(
            cs,
            start,
        )[i]).offset && descs_from(cs, start)[i].offset + descs_from(cs, start)[i].length <= start
            + cat_padded(cs).len() by {
            if i < cs.len() - 1 {
                assert(descs_from(cs, start)[i] == descs_from(cs.drop_last(), start)[i]);
            } else {
                assert(descs_from(cs, start)[i] == BufferDesc {
                    offset: (start + cat_padded(cs.drop_last()).len()) as usize,
                    length: padded_size(cs.last().len() as int) as usize,
                });
            }
        }
    }
}

/// The nodes vector encoding: each node's row count then null count.
pub open spec fn enc_nodes(ns: Seq<FieldNode>) -> Seq<u8>
    decreases ns.len(),
{
    if ns.len() == 0 {
        Seq::empty()
    } else {
        enc_nodes(ns.drop_last()) + enc_i64(ns.last().length) + enc_i64(ns.last().null_count)
    }
}

/// The buffer-descriptor vector encoding: each descriptor's offset then
/// padded length.
pub open spec fn enc_descs(ds: Seq<BufferDesc>) -> Seq<u8>
    decreases ds.len(),
{
    if ds.len() == 0 {
        Seq::empty()
    } else {
        enc_descs(ds.drop_last()) + enc_i64(ds.last().offset as i64) + enc_i64(
            ds.last().length as i64,
        )
    }
}

/// The RecordBatch-shaped header: row count, the node vector, the
/// buffer-descriptor vector.
pub open spec fn record_batch_header(rows: int, ns: Seq<FieldNode>, ds: Seq<BufferDesc>) -> Seq<
    u8,
> {
    enc_i64(rows as i64) + enc_i64(ns.len() as i64) + enc_nodes(ns) + enc_i64(ds.len() as i64)
        + enc_descs(ds)
}

/// A whole metadata table: the message kind, the body length, the header.
pub open spec fn message_metadata(kind: u8, body_len: int, header: Seq<u8>) -> Seq<u8> {
    seq![kind] + enc_i64(body_len as i64) + header
}

/// A type descriptor: a tag byte and the tag-specific parts.
pub open spec fn enc_type(t: ColumnType) -> Seq<u8>
    decreases t, 0int,
{
    match t {
        ColumnType::Null => seq![TYPE_NULL],
        ColumnType::Primitive { byte_width } => seq![TYPE_PRIMITIVE, byte_width],
        ColumnType::List { item } => seq![TYPE_LIST] + enc_type(*item),
        ColumnType::Struct { fields } => seq![TYPE_STRUCT] + enc_i64(fields@.len() as i64)
            + enc_fields(fields@, fields@.len() as int),
        ColumnType::Dictionary { dict_id, key, value } => seq![TYPE_DICTIONARY] + enc_i64(dict_id)
            + enc_type(*key) + enc_type(*value),
    }
}

/// The encodings of the first `n` fields of `fs`, concatenated.
pub open spec fn enc_fields(fs: Seq<Field>, n: int) -> Seq<u8>
    decreases fs, n,
{
    if n <= 0 || n > fs.len() {
        Seq::empty()
    } else {
        enc_fields(fs, n - 1) + enc_field(fs[n - 1])
    }
}

/// A field's encoding: name length, name bytes, nullability, type.
pub open spec fn enc_field(f: Field) -> Seq<u8>
    decreases f, 1int,
{
    enc_i64(f.name@.len() as i64) + f.name@ + seq![
        if f.nullable {
            1u8
        } else {
            0u8
        },
    ] + enc_type(f.dtype)
}

/// The Schema header: the field count and the field vector.
pub open spec fn schema_header(s: Schema) -> Seq<u8> {
    enc_i64(s.fields@.len() as i64) + enc_fields(s.fields@, s.fields@.len() as int)
}

/// The whole Schema message metadata; a Schema message has no body.
pub open spec fn schema_metadata(s: Schema) -> Seq<u8> {
    message_metadata(SCHEMA_KIND, 0, schema_header(s))
}

/// The unpadded buffer chunks of a batch's first `n` columns.
pub open spec fn batch_chunks(cols: Seq<ArrayData>, n: int) -> Seq<Seq<u8>>
    decreases n,
{
    if n <= 0 {
        Seq::empty()
    } else {
        batch_chunks(cols, n - 1) + chunk_list(cols[n - 1])
    }
}

/// The field nodes of a batch's first `n` columns.
pub open spec fn batch_nodes(cols: Seq<ArrayData>, n: int) -> Seq<FieldNode>
    decreases n,
{
    if n <= 0 {
        Seq::empty()
    } else {
        batch_nodes(cols, n - 1) + node_list(cols[n - 1])
    }
}

/// A record batch's body: its columns' padded buffers, in schema order.
pub open spec fn batch_body(b: RecordBatch) -> Seq<u8> {
    cat_padded(batch_chunks(b.columns@, b.columns@.len() as int))
}

/// A record batch's buffer descriptors, relative to the start of its body.
pub open spec fn batch_descs(b: RecordBatch) -> Seq<BufferDesc> {
    descs_from(batch_chunks(b.columns@, b.columns@.len() as int), 0)
}

/// A record batch's whole metadata table.
pub open spec fn record_batch_metadata(b: RecordBatch) -> Seq<u8> {
    message_metadata(
        RECORD_BATCH_KIND,
        batch_body(b).len() as int,
        record_batch_header(
            b.row_count as int,
            batch_nodes(b.columns@, b.columns@.len() as int),
            batch_descs(b),
        ),
    )
}

/// A dictionary batch's body: the value array's padded buffers.
pub open spec fn dictionary_body(values: ArrayData) -> Seq<u8> {
    cat_padded(chunk_list(values))
}

/// A dictionary batch's whole metadata table: the dictionary identifier and
/// a RecordBatch-shaped header for the value array.
pub open spec fn dictionary_metadata(id: i64, values: ArrayData) -> Seq<u8> {
    message_metadata(
        DICTIONARY_BATCH_KIND,
        dictionary_body(values).len() as int,
        enc_i64(id) + record_batch_header(
            values.row_count as int,
            node_list(values),
            descs_from(chunk_list(values), 0),
        ),
    )
}

/// Whether one array's flattening can be stated in the metadata's signed
/// 64-bit fields.
pub open spec fn array_encodable(a: ArrayData) -> bool {
    array_consistent(a) && array_fits(a)
}

/// Whether a whole record batch can be encoded: every column consistent and
/// within numeric range, and the flattened counts and body length within the
/// signed 64-bit metadata fields.
pub open spec fn batch_encodable(b: RecordBatch) -> bool {
    &&& (forall|i: int| 0 <= i < b.columns@.len() ==> array_encodable(#[trigger] b.columns@[i]))
    &&& b.row_count <= i64::MAX
    &&& batch_body(b).len() <= i64::MAX
    &&& batch_nodes(b.columns@, b.columns@.len() as int).len() <= i64::MAX
    &&& batch_chunks(b.columns@, b.columns@.len() as int).len() <= i64::MAX
}

/// Whether a dictionary batch for `values` can be encoded.
pub open spec fn dictionary_encodable(values: ArrayData) -> bool {
    &&& array_encodable(values)
    &&& dictionary_body(values).len() <= i64::MAX
    &&& node_list(values).len() <= i64::MAX
    &&& chunk_list(values).len() <= i64::MAX
}

/// Appending one chunk to a laid-out chunk list appends its padded bytes and
/// one descriptor.
pub proof fn lemma_append_chunk(done: Seq<Seq<u8>>, c: Seq<u8>, base: int)
    ensures
        cat_padded(done.push(c)) == cat_padded(done) + pad8(c),
        descs_from(done.push(c), base) == descs_from(done, base).push(
            BufferDesc {
                offset: (base + cat_padded(done).len()) as usize,
                length: padded_size(c.len() as int) as usize,
            },
        ),
{
    assert(done.push(c) =~= done + seq![c]);
    lemma_cat_padded_app(done, seq![c]);
    lemma_descs_from_app(done, seq![c], base);
    assert(seq![c].drop_last() =~= Seq::<Seq<u8>>::empty());
    let s = base + cat_padded(done).len();
    assert(cat_padded(Seq::<Seq<u8>>::empty()) =~= Seq::<u8>::empty());
    assert(descs_from(Seq::<Seq<u8>>::empty(), s) =~= Seq::<BufferDesc>::empty());
    assert(seq![c].last() == c);
    assert(cat_padded(seq![c]) =~= pad8(c));
    assert(cat_padded(done) + cat_padded(seq![c]) =~= cat_padded(done) + pad8(c));
    assert(descs_from(seq![c], base + cat_padded(done).len()) =~= seq![
        BufferDesc {
            offset: (base + cat_padded(done).len()) as usize,
            length: padded_size(c.len() as int) as usize,
        },
    ]);
    assert(descs_from(done, base) + descs_from(seq![c], base + cat_padded(done).len())
        =~= descs_from(done, base).push(
        BufferDesc {
            offset: (base + cat_padded(done).len()) as usize,
            length: padded_size(c.len() as int) as usize,
        },
    ));
}

/// Writes one buffer into a message body, padded with zeros to a multiple of
/// 8 bytes, and records its descriptor; returns the body length afterwards.
#[verifier::loop_isolation(false)]
pub fn write_buffer(buffer: &Vec<u8>, buffers: &mut Vec<BufferDesc>, body_data: &mut Vec<u8>) -> (
    end: usize)
    ensures
        final(body_data)@ == old(body_data)@ + pad8(buffer@),
        final(buffers)@ == old(buffers)@.push(
            BufferDesc {
                offset: old(body_data)@.len() as usize,
                length: padded_size(buffer@.len() as int) as usize,
            },
        ),
        end == final(body_data)@.len(),
{
    let offset: usize = body_data.len();
    let pad_len: usize = pad_to_8(buffer.len());
    push_slice(body_data, buffer.as_slice());
    pad_output_stream(body_data, pad_len);
    let end: usize = body_data.len();
    buffers.push(BufferDesc { offset, length: end - offset });
    end
}

/// Builds the synthesized all-valid bitmap for `rows` rows: one set bit per
/// row, in `ceil(rows / 8)` bytes of `0xFF`.
#[verifier::loop_isolation(false)]
pub fn all_valid_bitmap(rows: usize) -> (bitmap: Vec<u8>)
    ensures
        bitmap@ == synth_validity(rows as int),
{
    let num_bytes: usize = rows / 8 + if rows % 8 == 0 {
        0
    } else {
        1
    };
    let mut bitmap: Vec<u8> = Vec::new();
    let mut i: usize = 0;
    while i < num_bytes
        invariant
            i <= num_bytes,
            bitmap@ == Seq::new(i as nat, |j: int| 0xffu8),
        decreases num_bytes - i,
    {
        bitmap.push(0xffu8);
        i = i + 1;
        proof {
            assert(bitmap@ =~= Seq::new(i as nat, |j: int| 0xffu8));
        }
    }
    proof {
        assert(num_bytes as int == (rows as int + 7) / 8);
        assert(bitmap@ =~= synth_validity(rows as int));
    }
    bitmap
}

/// Flattens one array depth-first into a message body: pushes its field
/// node, writes its validity bitmap (synthesized all-valid when absent;
/// omitted for the null type) and value buffers, then recurses into its
/// children — except below a dictionary array, whose values travel in
/// separate dictionary batches.  Fails when the array is internally
/// inconsistent or its counts exceed the signed 64-bit metadata fields.
#[verifier::loop_isolation(false)]
#[verifier::rlimit(100)]
pub fn write_array_data(
    array_data: &ArrayData,
    buffers: &mut Vec<BufferDesc>,
    body_data: &mut Vec<u8>,
    nodes: &mut Vec<FieldNode>,
) -> (r: Result<(), EncodeError>)
    ensures
        match r {
            Ok(()) => {
                &&& array_consistent(*array_data)
                &&& array_fits(*array_data)
                &&& final(nodes)@ == old(nodes)@ + node_list(*array_data)
                &&& final(body_data)@ == old(body_data)@ + cat_padded(chunk_list(*array_data))
                &&& final(buffers)@ == old(buffers)@ + descs_from(
                    chunk_list(*array_data),
                    old(body_data)@.len() as int,
                )
            },
            Err(e) => {
                &&& !(array_consistent(*array_data) && array_fits(*array_data))
                &&& (e == EncodeError::EncodingFailure || e == EncodeError::UnsupportedInput)
                &&& (e == EncodeError::EncodingFailure ==> !array_consistent(*array_data))
                &&& (e == EncodeError::UnsupportedInput ==> !array_fits(*array_data))
            },
        },
    decreases *array_data,
{
    let ghost base: int = body_data@.len() as int;
    if (array_data.row_count as u64) > (i64::MAX as u64) {
        return Err(EncodeError::UnsupportedInput);
    }
    if array_data.null_count > array_data.row_count {
        return Err(EncodeError::EncodingFailure);
    }
    nodes.push(
        FieldNode {
            length: array_data.row_count as i64,
            null_count: array_data.null_count as i64,
        },
    );
    let ghost mut done: Seq<Seq<u8>> = Seq::empty();
    proof {
        assert(cat_padded(done) =~= Seq::<u8>::empty());
        assert(body_data@ =~= old(body_data)@ + cat_padded(done));
        assert(buffers@ =~= old(buffers)@ + descs_from(done, base));
    }
    let rows: usize = array_data.row_count;
    let num_bytes: usize = rows / 8 + if rows % 8 == 0 {
        0
    } else {
        1
    };
    proof {
        assert(num_bytes as int == (rows as int + 7) / 8);
    }
    if let Some(v) = &array_data.validity {
        if v.len() < num_bytes {
            proof {
                assert(v@.len() * 8 < rows as int);
            }
            return Err(EncodeError::EncodingFailure);
        }
        proof {
            assert(v@.len() * 8 >= rows as int);
        }
    }
    let is_null_type: bool = matches!(&array_data.dtype, ColumnType::Null);
    if !is_null_type {
        match &array_data.validity {
            Some(v) => {
                let _ = write_buffer(v, buffers, body_data);
                proof {
                    lemma_append_chunk(done, v@, base);
                    done = done.push(v@);
                }
            },
            None => {
                let bitmap = all_valid_bitmap(rows);
                let _ = write_buffer(&bitmap, buffers, body_data);
                proof {
                    lemma_append_chunk(done, bitmap@, base);
                    done = done.push(bitmap@);
                }
            },
        }
        proof {
            assert(done =~= seq![validity_chunk(*array_data)]);
        }
    }
    let mut i: usize = 0;
    while i < array_data.buffers.len()
        invariant
            i <= array_data.buffers@.len(),
            done == (if array_data.dtype is Null {
                Seq::<Seq<u8>>::empty()
            } else {
                seq![validity_chunk(*array_data)]
            }) + array_data.buffers@.subrange(0, i as int).map_values(|b: Vec<u8>| b@),
            nodes@ == old(nodes)@.push(
                FieldNode {
                    length: array_data.row_count as i64,
                    null_count: array_data.null_count as i64,
                },
            ),
            body_data@ == old(body_data)@ + cat_padded(done),
            buffers@ == old(buffers)@ + descs_from(done, base),
        decreases array_data.buffers@.len() - i,
    {
        let _ = write_buffer(&array_data.buffers[i], buffers, body_data);
        proof {
            lemma_append_chunk(done, array_data.buffers@[i as int]@, base);
            done = done.push(array_data.buffers@[i as int]@);
        }
        i = i + 1;
        proof {
            assert(done =~= (if array_data.dtype is Null {
                Seq::<Seq<u8>>::empty()
            } else {
                seq![validity_chunk(*array_data)]
            }) + array_data.buffers@.subrange(0, i as int).map_values(|b: Vec<u8>| b@));
        }
    }
    proof {
        assert(array_data.buffers@.subrange(0, array_data.buffers@.len() as int)
            =~= array_data.buffers@);
        assert(array_data.buffers@.map_values(|b: Vec<u8>| b@) =~= array_data.buffers@.subrange(
            0,
            array_data.buffers@.len() as int,
        ).map_values(|b: Vec<u8>| b@));
        assert(done =~= own_chunks(*array_data));
    }
    let is_dict: bool = matches!(&array_data.dtype, ColumnType::Dictionary { .. });
    if is_dict {
        if array_data.children.len() != 1 {
            return Err(EncodeError::EncodingFailure);
        }
        proof {
            assert(done =~= chunk_list(*array_data));
            assert(nodes@ =~= old(nodes)@ + node_list(*array_data));
        }
    } else {
        proof {
            assert(done =~= own_chunks(*array_data) + child_chunks(array_data.children@, 0));
        }
        let mut i: usize = 0;
        while i < array_data.children.len()
            invariant
                i <= array_data.children@.len(),
                done == own_chunks(*array_data) + child_chunks(array_data.children@, i as int),
                nodes@ == old(nodes)@ + seq![
                    FieldNode {
                        length: array_data.row_count as i64,
                        null_count: array_data.null_count as i64,
                    },
                ] + child_nodes(array_data.children@, i as int),
                body_data@ == old(body_data)@ + cat_padded(done),
                buffers@ == old(buffers)@ + descs_from(done, base),
                forall|j: int|
                    0 <= j < i ==> array_consistent(#[trigger] array_data.children@[j])
                        && array_fits(array_data.children@[j]),
            decreases array_data.children@.len() - i,
        {
            proof {
                assert(decreases_to!(*array_data => array_data.children@[i as int]));
            }
            match write_array_data(&array_data.children[i], buffers, body_data, nodes) {
                Ok(()) => {},
                Err(e) => {
                    return Err(e);
                },
            }
            proof {
                lemma_cat_padded_app(done, chunk_list(array_data.children@[i as int]));
                lemma_descs_from_app(done, chunk_list(array_data.children@[i as int]), base);
                done = done + chunk_list(array_data.children@[i as int]);
            }
            i = i + 1;
        }
        proof {
            assert(done =~= chunk_list(*array_data));
            assert(nodes@ =~= old(nodes)@ + node_list(*array_data));
        }
    }
    proof {
        assert(array_consistent(*array_data));
        assert(array_fits(*array_data));
        assert(nodes@ == old(nodes)@ + node_list(*array_data));
        assert(body_data@ == old(body_data)@ + cat_padded(chunk_list(*array_data)));
        assert(buffers@ == old(buffers)@ + descs_from(chunk_list(*array_data), base));
    }
    Ok(())
}

/// Appends the node vector encoding.
#[verifier::loop_isolation(false)]
pub fn push_nodes(out: &mut Vec<u8>, nodes: &Vec<FieldNode>)
    ensures
        final(out)@ == old(out)@ + enc_nodes(nodes@),
{
    let mut i: usize = 0;
    while i < nodes.len()
        invariant
            i <= nodes@.len(),
            out@ == old(out)@ + enc_nodes(nodes@.subrange(0, i as int)),
        decreases nodes@.len() - i,
    {
        push_i64(out, nodes[i].length);
        push_i64(out, nodes[i].null_count);
        i = i + 1;
        proof {
            assert(nodes@.subrange(0, i as int).drop_last() =~= nodes@.subrange(0, i as int - 1));
            assert(out@ =~= old(out)@ + enc_nodes(nodes@.subrange(0, i as int)));
        }
    }
    proof {
        assert(nodes@.subrange(0, nodes@.len() as int) =~= nodes@);
    }
}

/// Appends the buffer-descriptor vector encoding.
#[verifier::loop_isolation(false)]
pub fn push_descs(out: &mut Vec<u8>, descs: &Vec<BufferDesc>)
    requires
        forall|i: int|
            0 <= i < descs@.len() ==> (#[trigger] descs@[i]).offset <= i64::MAX
                && descs@[i].length <= i64::MAX,
    ensures
        final(out)@ == old(out)@ + enc_descs(descs@),
{
    let mut i: usize = 0;
    while i < descs.len()
        invariant
            i <= descs@.len(),
            out@ == old(out)@ + enc_descs(descs@.subrange(0, i as int)),
        decreases descs@.len() - i,
    {
        push_i64(out, descs[i].offset as i64);
        push_i64(out, descs[i].length as i64);
        i = i + 1;
        proof {
            assert(descs@.subrange(0, i as int).drop_last() =~= descs@.subrange(0, i as int - 1));
            assert(out@ =~= old(out)@ + enc_descs(descs@.subrange(0, i as int)));
        }
    }
    proof {
        assert(descs@.subrange(0, descs@.len() as int) =~= descs@);
    }
}

/// Writes a type descriptor.  Fails when a field count exceeds the signed
/// 64-bit metadata fields; nothing written then counts.
#[verifier::loop_isolation(false)]
pub fn write_type(out: &mut Vec<u8>, t: &ColumnType) -> (r: Result<(), EncodeError>)
    ensures
        match r {
            Ok(()) => type_fits(*t) && final(out)@ == old(out)@ + enc_type(*t),
            Err(e) => !type_fits(*t) && e == EncodeError::UnsupportedInput,
        },
    decreases *t,
{
    match t {
        ColumnType::Null => {
            out.push(TYPE_NULL);
            proof {
                assert(out@ =~= old(out)@ + enc_type(*t));
            }
        },
        ColumnType::Primitive { byte_width } => {
            out.push(TYPE_PRIMITIVE);
            out.push(*byte_width);
            proof {
                assert(out@ =~= old(out)@ + enc_type(*t));
            }
        },
        ColumnType::List { item } => {
            out.push(TYPE_LIST);
            match write_type(out, item) {
                Ok(()) => {},
                Err(e) => {
                    return Err(e);
                },
            }
            proof {
                assert(out@ =~= old(out)@ + enc_type(*t));
            }
        },
        ColumnType::Struct { fields } => {
            out.push(TYPE_STRUCT);
            if (fields.len() as u64) > (i64::MAX as u64) {
                return Err(EncodeError::UnsupportedInput);
            }
            push_i64(out, fields.len() as i64);
            let mut i: usize = 0;
            while i < fields.len()
                invariant
                    i <= fields@.len(),
                    out@ == old(out)@ + seq![TYPE_STRUCT] + enc_i64(fields@.len() as i64)
                        + enc_fields(fields@, i as int),
                    forall|j: int| 0 <= j < i ==> field_fits(#[trigger] fields@[j]),
                decreases fields@.len() - i,
            {
                proof {
                    assert(decreases_to!(*t => *fields));
                    assert(decreases_to!(*fields => fields@[i as int]));
                }
                match write_field(out, &fields[i]) {
                    Ok(()) => {},
                    Err(e) => {
                        return Err(e);
                    },
                }
                i = i + 1;
                proof {
                    assert(out@ =~= old(out)@ + seq![TYPE_STRUCT] + enc_i64(fields@.len() as i64)
                        + enc_fields(fields@, i as int));
                }
            }
            proof {
                assert(out@ =~= old(out)@ + enc_type(*t));
            }
        },
        ColumnType::Dictionary { dict_id, key, value } => {
            out.push(TYPE_DICTIONARY);
            push_i64(out, *dict_id);
            match write_type(out, key) {
                Ok(()) => {},
                Err(e) => {
                    return Err(e);
                },
            }
            match write_type(out, value) {
                Ok(()) => {},
                Err(e) => {
                    return Err(e);
                },
            }
            proof {
                assert(out@ =~= old(out)@ + enc_type(*t));
            }
        },
    }
    Ok(())
}

/// Writes one field: name length, name bytes, nullability, type descriptor.
#[verifier::loop_isolation(false)]
pub fn write_field(out: &mut Vec<u8>, f: &Field) -> (r: Result<(), EncodeError>)
    ensures
        match r {
            Ok(()) => field_fits(*f) && final(out)@ == old(out)@ + enc_field(*f),
            Err(e) => !field_fits(*f) && e == EncodeError::UnsupportedInput,
        },
    decreases *f,
{
    if (f.name.len() as u64) > (i64::MAX as u64) {
        return Err(EncodeError::UnsupportedInput);
    }
    push_i64(out, f.name.len() as i64);
    push_slice(out, f.name.as_slice());
    out.push(
        if f.nullable {
            1u8
        } else {
            0u8
        },
    );
    match write_type(out, &f.dtype) {
        Ok(()) => {},
        Err(e) => {
            return Err(e);
        },
    }
    proof {
        assert(out@ =~= old(out)@ + enc_field(*f));
    }
    Ok(())
}

/// Builds the Schema message: metadata only, no body.  Fails when a name
/// length or field count exceeds the signed 64-bit metadata fields.
#[verifier::loop_isolation(false)]
pub fn schema_to_bytes(schema: &Schema) -> (r: Result<EncodedData, EncodeError>)
    ensures
        match r {
            Ok(e) => {
                &&& schema_fits(*schema)
                &&& e@.metadata == schema_metadata(*schema)
                &&& e@.body == Seq::<u8>::empty()
            },
            Err(err) => !schema_fits(*schema) && err == EncodeError::UnsupportedInput,
        },
{
    let mut meta: Vec<u8> = Vec::new();
    meta.push(SCHEMA_KIND);
    push_i64(&mut meta, 0);
    if (schema.fields.len() as u64) > (i64::MAX as u64) {
        return Err(EncodeError::UnsupportedInput);
    }
    push_i64(&mut meta, schema.fields.len() as i64);
    let mut i: usize = 0;
    while i < schema.fields.len()
        invariant
            i <= schema.fields@.len(),
            meta@ == seq![SCHEMA_KIND] + enc_i64(0) + enc_i64(schema.fields@.len() as i64)
                + enc_fields(schema.fields@, i as int),
            forall|j: int| 0 <= j < i ==> field_fits(#[trigger] schema.fields@[j]),
        decreases schema.fields@.len() - i,
    {
        match write_field(&mut meta, &schema.fields[i]) {
            Ok(()) => {},
            Err(e) => {
                return Err(e);
            },
        }
        i = i + 1;
        proof {
            assert(meta@ =~= seq![SCHEMA_KIND] + enc_i64(0) + enc_i64(schema.fields@.len() as i64)
                + enc_fields(schema.fields@, i as int));
        }
    }
    proof {
        assert(meta@ =~= schema_metadata(*schema));
    }
    Ok(EncodedData { ipc_message: meta, body_data: Vec::new() })
}

/// Builds a RecordBatch message: the batch's row count and flattened nodes
/// and buffer descriptors as metadata, the padded buffers as body.
#[verifier::loop_isolation(false)]
#[verifier::rlimit(100)]
pub fn record_batch_to_bytes(batch: &RecordBatch) -> (r: Result<EncodedData, EncodeError>)
    ensures
        match r {
            Ok(e) => {
                &&& batch_encodable(*batch)
                &&& e@.metadata == record_batch_metadata(*batch)
                &&& e@.body == batch_body(*batch)
            },
            Err(err) => {
                &&& !batch_encodable(*batch)
                &&& (err == EncodeError::EncodingFailure || err == EncodeError::UnsupportedInput)
                &&& (err == EncodeError::EncodingFailure ==> exists|i: int|
                    0 <= i < batch.columns@.len() && !array_consistent(
                        #[trigger] batch.columns@[i],
                    ))
            },
        },
{
    let ghost cols: Seq<ArrayData> = batch.columns@;
    let mut nodes: Vec<FieldNode> = Vec::new();
    let mut buffers: Vec<BufferDesc> = Vec::new();
    let mut body_data: Vec<u8> = Vec::new();
    let mut i: usize = 0;
    proof {
        assert(nodes@ =~= batch_nodes(cols, 0));
        assert(body_data@ =~= cat_padded(batch_chunks(cols, 0)));
        assert(buffers@ =~= descs_from(batch_chunks(cols, 0), 0));
    }
    while i < batch.columns.len()
        invariant
            i <= cols.len(),
            nodes@ == batch_nodes(cols, i as int),
            body_data@ == cat_padded(batch_chunks(cols, i as int)),
            buffers@ == descs_from(batch_chunks(cols, i as int), 0),
            forall|j: int|
                0 <= j < i ==> array_consistent(#[trigger] cols[j]) && array_fits(cols[j]),
        decreases cols.len() - i,
    {
        match write_array_data(&batch.columns[i], &mut buffers, &mut body_data, &mut nodes) {
            Ok(()) => {},
            Err(e) => {
                return Err(e);
            },
        }
        proof {
            lemma_cat_padded_app(batch_chunks(cols, i as int), chunk_list(cols[i as int]));
            lemma_descs_from_app(batch_chunks(cols, i as int), chunk_list(cols[i as int]), 0);
        }
        i = i + 1;
    }
    if (batch.row_count as u64) > (i64::MAX as u64) {
        return Err(EncodeError::UnsupportedInput);
    }
    if (body_data.len() as u64) > (i64::MAX as u64) {
        return Err(EncodeError::UnsupportedInput);
    }
    if (nodes.len() as u64) > (i64::MAX as u64) {
        return Err(EncodeError::UnsupportedInput);
    }
    proof {
        lemma_descs_from_len(batch_chunks(cols, cols.len() as int), 0);
    }
    if (buffers.len() as u64) > (i64::MAX as u64) {
        return Err(EncodeError::UnsupportedInput);
    }
    proof {
        lemma_descs_bounded(batch_chunks(cols, cols.len() as int), 0);
    }
    let mut meta: Vec<u8> = Vec::new();
    meta.push(RECORD_BATCH_KIND);
    push_i64(&mut meta, body_data.len() as i64);
    push_i64(&mut meta, batch.row_count as i64);
    push_i64(&mut meta, nodes.len() as i64);
    push_nodes(&mut meta, &nodes);
    push_i64(&mut meta, buffers.len() as i64);
    push_descs(&mut meta, &buffers);
    proof {
        assert(meta@ =~= record_batch_metadata(*batch));
    }
    Ok(EncodedData { ipc_message: meta, body_data })
}

/// Builds a DictionaryBatch message for identifier `dict_id`: the value
/// array described as a single-column record batch.
#[verifier::loop_isolation(false)]
#[verifier::rlimit(100)]
pub fn dictionary_batch_to_bytes(dict_id: i64, array_data: &ArrayData) -> (r: Result<
    EncodedData,
    EncodeError,
>)
    ensures
        match r {
            Ok(e) => {
                &&& dictionary_encodable(*array_data)
                &&& e@.metadata == dictionary_metadata(dict_id, *array_data)
                &&& e@.body == dictionary_body(*array_data)
            },
            Err(err) => {
                &&& !dictionary_encodable(*array_data)
                &&& (err == EncodeError::EncodingFailure || err == EncodeError::UnsupportedInput)
                &&& (err == EncodeError::EncodingFailure ==> !array_consistent(*array_data))
            },
        },
{
    let mut nodes: Vec<FieldNode> = Vec::new();
    let mut buffers: Vec<BufferDesc> = Vec::new();
    let mut body_data: Vec<u8> = Vec::new();
    match write_array_data(array_data, &mut buffers, &mut body_data, &mut nodes) {
        Ok(()) => {},
        Err(e) => {
            return Err(e);
        },
    }
    proof {
        assert(nodes@ =~= node_list(*array_data));
        assert(body_data@ =~= cat_padded(chunk_list(*array_data)));
        assert(buffers@ =~= descs_from(chunk_list(*array_data), 0));
    }
    if (body_data.len() as u64) > (i64::MAX as u64) {
        return Err(EncodeError::UnsupportedInput);
    }
    if (nodes.len() as u64) > (i64::MAX as u64) {
        return Err(EncodeError::UnsupportedInput);
    }
    proof {
        lemma_descs_from_len(chunk_list(*array_data), 0);
    }
    if (buffers.len() as u64) > (i64::MAX as u64) {
        return Err(EncodeError::UnsupportedInput);
    }
    proof {
        lemma_descs_bounded(chunk_list(*array_data), 0);
    }
    let mut meta: Vec<u8> = Vec::new();
    meta.push(DICTIONARY_BATCH_KIND);
    push_i64(&mut meta, body_data.len() as i64);
    push_i64(&mut meta, dict_id);
    push_i64(&mut meta, array_data.row_count as i64);
    push_i64(&mut meta, nodes.len() as i64);
    push_nodes(&mut meta, &nodes);
    push_i64(&mut meta, buffers.len() as i64);
    push_descs(&mut meta, &buffers);
    proof {
        assert(meta@ =~= dictionary_metadata(dict_id, *array_data));
    }
    Ok(EncodedData { ipc_message: meta, body_data })
}

} // verus!
