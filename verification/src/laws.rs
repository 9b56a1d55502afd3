//! The properties the wire format promises, proved over the byte-level
//! specifications: alignment, framing, dictionary deduplication and change
//! detection, the empty stream, and synthesized validity bitmaps.

use crate::framing::EncodedMsg;
use crate::framing::frame_bytes;
use crate::framing::frame_fits;
use crate::framing::lemma_padded_size;
use crate::framing::padded_size;
use crate::framing::stream_end_bytes;
use crate::message::BufferDesc;
use crate::message::batch_body;
use crate::message::chunk_list;
use crate::message::descs_from;
use crate::message::dictionary_body;
use crate::message::dictionary_metadata;
use crate::message::record_batch_metadata;
use crate::message::synth_validity;
use crate::model::ArrayData;
use crate::model::RecordBatch;
use crate::model::Schema;
use crate::model::dict_id_of;
use crate::model::dict_values;
use crate::stream::batch_frames;
use crate::stream::cat_frames;
use crate::stream::dict_msgs;
use crate::stream::dicts_after_cols;
use crate::stream::schema_frame;
use crate::stream::stream_bytes;
use crate::stream::stream_frames;
use crate::tracker::must_emit;
use crate::framing::continuation_bytes;
use crate::framing::zero_bytes;
use crate::message::enc_i64;
use crate::message::message_metadata;
use vstd::bytes::lemma_auto_spec_u32_to_from_le_bytes;
use vstd::bytes::lemma_auto_spec_u64_to_from_le_bytes;
use vstd::bytes::spec_u32_from_le_bytes;
use vstd::bytes::spec_u32_to_le_bytes;
use vstd::bytes::spec_u64_from_le_bytes;
use vstd::prelude::*;

verus! {

broadcast use vstd::seq::group_seq_axioms, vstd::std_specs::vec::group_vec_axioms;

/// Alignment invariant: in every produced message the body starts at an
/// 8-byte boundary, and the metadata region (header and padding included) is
/// a multiple of 8 bytes.
pub proof fn lemma_frame_alignment(m: EncodedMsg)
    requires
        m.body.len() % 8 == 0,
        frame_fits(m.metadata),
    ensures
        frame_bytes(m).len() == padded_size(m.metadata.len() as int + 8) + m.body.len(),
        (frame_bytes(m).len() - m.body.len()) % 8 == 0,
        padded_size(m.metadata.len() as int + 8) % 8 == 0,
{
    lemma_auto_spec_u32_to_from_le_bytes();
    lemma_padded_size(m.metadata.len() as int + 8);
}

/// Framing invariant: the little-endian length field in bytes 4 to 8 of a
/// frame states exactly the byte distance from the end of that field to the
/// end of the zero-padded metadata, and never includes the body.
pub proof fn lemma_frame_length_field(m: EncodedMsg)
    requires
        frame_fits(m.metadata),
    ensures
        frame_bytes(m).subrange(4, 8) == spec_u32_to_le_bytes(
            (padded_size(m.metadata.len() as int + 8) - 8) as u32,
        ),
        8 + (padded_size(m.metadata.len() as int + 8) - 8) == frame_bytes(m).len()
            - m.body.len(),
{
    lemma_auto_spec_u32_to_from_le_bytes();
    lemma_padded_size(m.metadata.len() as int + 8);
    assert(frame_bytes(m).subrange(4, 8) =~= spec_u32_to_le_bytes(
        (padded_size(m.metadata.len() as int + 8) - 8) as u32,
    ));
}

/// Whether the dictionary columns of a batch carry pairwise distinct
/// identifiers — the schema invariant for dictionary fields.
pub open spec fn dict_ids_unique(cols: Seq<ArrayData>) -> bool {
    forall|i: int, j: int|
        0 <= i < j < cols.len() && (#[trigger] cols[i]).dtype is Dictionary
            && (#[trigger] cols[j]).dtype is Dictionary ==> dict_id_of(cols[i].dtype)
            != dict_id_of(cols[j].dtype)
}

/// Recording a batch's columns leaves identifiers that none of its
/// dictionary columns carry untouched.
pub proof fn lemma_dicts_after_cols_other(
    cols: Seq<ArrayData>,
    n: int,
    dicts: Map<i64, ArrayData>,
    k: i64,
)
    requires
        forall|j: int|
            0 <= j < n && j < cols.len() && (#[trigger] cols[j]).dtype is Dictionary
                ==> dict_id_of(cols[j].dtype) != k,
    ensures
        dicts_after_cols(cols, n, dicts).contains_key(k) == dicts.contains_key(k),
        dicts.contains_key(k) ==> dicts_after_cols(cols, n, dicts)[k] == dicts[k],
    decreases n,
{
    if n <= 0 || n > cols.len() {
    } else {
        lemma_dicts_after_cols_other(cols, n - 1, dicts, k);
    }
}

/// After recording a batch with distinct dictionary identifiers, the table
/// holds, for each dictionary column, exactly that column's values.
pub proof fn lemma_dicts_after_cols_recorded(
    cols: Seq<ArrayData>,
    dicts: Map<i64, ArrayData>,
    i: int,
)
    requires
        dict_ids_unique(cols),
        0 <= i < cols.len(),
        cols[i].dtype is Dictionary,
    ensures
        dicts_after_cols(cols, cols.len() as int, dicts).contains_key(dict_id_of(cols[i].dtype)),
        dicts_after_cols(cols, cols.len() as int, dicts)[dict_id_of(cols[i].dtype)]
            == dict_values(cols[i]),
{
    lemma_dicts_after_recorded_rec(cols, dicts, i, cols.len() as int);
}

proof fn lemma_dicts_after_recorded_rec(
    cols: Seq<ArrayData>,
    dicts: Map<i64, ArrayData>,
    i: int,
    n: int,
)
    requires
        dict_ids_unique(cols),
        0 <= i < n <= cols.len(),
        cols[i].dtype is Dictionary,
    ensures
        dicts_after_cols(cols, n, dicts).contains_key(dict_id_of(cols[i].dtype)),
        dicts_after_cols(cols, n, dicts)[dict_id_of(cols[i].dtype)] == dict_values(cols[i]),
    decreases n,
{
    if n == i + 1 {
    } else {
        lemma_dicts_after_recorded_rec(cols, dicts, i, n - 1);
    }
}

/// Dictionary dedup: a batch whose every dictionary column repeats, byte for
/// byte, the values last emitted for its identifier adds no dictionary
/// message — its wire bytes are the record-batch frame alone.
pub proof fn lemma_dictionary_dedup(b: RecordBatch, dicts: Map<i64, ArrayData>)
    requires
        dict_ids_unique(b.columns@),
        forall|i: int|
            0 <= i < b.columns@.len() && (#[trigger] b.columns@[i]).dtype is Dictionary
                ==> !must_emit(dicts, dict_id_of(b.columns@[i].dtype), dict_values(b.columns@[i])),
    ensures
        dict_msgs(b.columns@, b.columns@.len() as int, dicts) == Seq::<EncodedMsg>::empty(),
        batch_frames(b, dicts) == frame_bytes(
            EncodedMsg { metadata: record_batch_metadata(b), body: batch_body(b) },
        ),
{
    lemma_dedup_rec(b.columns@, b.columns@.len() as int, dicts);
    assert(Seq::<u8>::empty() + frame_bytes(
        EncodedMsg { metadata: record_batch_metadata(b), body: batch_body(b) },
    ) =~= frame_bytes(EncodedMsg { metadata: record_batch_metadata(b), body: batch_body(b) }));
}

proof fn lemma_dedup_rec(cols: Seq<ArrayData>, n: int, dicts: Map<i64, ArrayData>)
    requires
        dict_ids_unique(cols),
        n <= cols.len(),
        forall|i: int|
            0 <= i < cols.len() && (#[trigger] cols[i]).dtype is Dictionary ==> !must_emit(
                dicts,
                dict_id_of(cols[i].dtype),
                dict_values(cols[i]),
            ),
    ensures
        dict_msgs(cols, n, dicts) == Seq::<EncodedMsg>::empty(),
    decreases n,
{
    if n <= 0 {
    } else {
        lemma_dedup_rec(cols, n - 1, dicts);
        let c = cols[n - 1];
        if c.dtype is Dictionary {
            lemma_dicts_after_cols_other(cols, n - 1, dicts, dict_id_of(c.dtype));
            assert(!must_emit(
                dicts_after_cols(cols, n - 1, dicts),
                dict_id_of(c.dtype),
                dict_values(c),
            ));
        }
        assert(dict_msgs(cols, n, dicts) =~= Seq::<EncodedMsg>::empty());
    }
}

/// Dictionary dedup across consecutive batches: when every dictionary
/// column of the next batch repeats, byte for byte, the values some
/// dictionary column of the previous batch carried under the same
/// identifier, the next batch emits no dictionary message at all.
pub proof fn lemma_dictionary_dedup_consecutive(
    b1: RecordBatch,
    b2: RecordBatch,
    dicts: Map<i64, ArrayData>,
)
    requires
        dict_ids_unique(b1.columns@),
        dict_ids_unique(b2.columns@),
        forall|j: int|
            0 <= j < b2.columns@.len() && (#[trigger] b2.columns@[j]).dtype is Dictionary
                ==> exists|i: int|
                0 <= i < b1.columns@.len() && (#[trigger] b1.columns@[i]).dtype is Dictionary
                    && dict_id_of(b1.columns@[i].dtype) == dict_id_of(b2.columns@[j].dtype)
                    && crate::model::array_same(
                    dict_values(b2.columns@[j]),
                    dict_values(b1.columns@[i]),
                ),
    ensures
        dict_msgs(
            b2.columns@,
            b2.columns@.len() as int,
            dicts_after_cols(b1.columns@, b1.columns@.len() as int, dicts),
        ) == Seq::<EncodedMsg>::empty(),
{
    let after1 = dicts_after_cols(b1.columns@, b1.columns@.len() as int, dicts);
    assert forall|j: int|
        0 <= j < b2.columns@.len() && (#[trigger] b2.columns@[j]).dtype is Dictionary implies !must_emit(
        after1,
        dict_id_of(b2.columns@[j].dtype),
        dict_values(b2.columns@[j]),
    ) by {
        let i = choose|i: int|
            0 <= i < b1.columns@.len() && (#[trigger] b1.columns@[i]).dtype is Dictionary
                && dict_id_of(b1.columns@[i].dtype) == dict_id_of(b2.columns@[j].dtype)
                && crate::model::array_same(
                dict_values(b2.columns@[j]),
                dict_values(b1.columns@[i]),
            );
        lemma_dicts_after_cols_recorded(b1.columns@, dicts, i);
        crate::model::lemma_array_same_sym(
            dict_values(b2.columns@[j]),
            dict_values(b1.columns@[i]),
        );
    }
    lemma_dictionary_dedup(b2, after1);
}

/// Dictionary change detection: when a batch's only dictionary column
/// carries an identifier that is new or whose values changed, exactly one
/// dictionary message appears, immediately before the record-batch frame.
pub proof fn lemma_dictionary_change(b: RecordBatch, dicts: Map<i64, ArrayData>, i: int)
    requires
        0 <= i < b.columns@.len(),
        b.columns@[i].dtype is Dictionary,
        must_emit(dicts, dict_id_of(b.columns@[i].dtype), dict_values(b.columns@[i])),
        forall|j: int|
            0 <= j < b.columns@.len() && j != i ==> !((#[trigger] b.columns@[j]).dtype
                is Dictionary),
    ensures
        dict_msgs(b.columns@, b.columns@.len() as int, dicts) == seq![
            EncodedMsg {
                metadata: dictionary_metadata(
                    dict_id_of(b.columns@[i].dtype),
                    dict_values(b.columns@[i]),
                ),
                body: dictionary_body(dict_values(b.columns@[i])),
            },
        ],
        batch_frames(b, dicts) == frame_bytes(
            EncodedMsg {
                metadata: dictionary_metadata(
                    dict_id_of(b.columns@[i].dtype),
                    dict_values(b.columns@[i]),
                ),
                body: dictionary_body(dict_values(b.columns@[i])),
            },
        ) + frame_bytes(EncodedMsg { metadata: record_batch_metadata(b), body: batch_body(b) }),
{
    let msg = EncodedMsg {
        metadata: dictionary_metadata(dict_id_of(b.columns@[i].dtype), dict_values(b.columns@[i])),
        body: dictionary_body(dict_values(b.columns@[i])),
    };
    lemma_change_rec(b.columns@, b.columns@.len() as int, dicts, i);
    assert(seq![msg].drop_last() =~= Seq::<EncodedMsg>::empty());
    assert(seq![msg].last() == msg);
    assert(cat_frames(Seq::<EncodedMsg>::empty()) == Seq::<u8>::empty());
    assert(cat_frames(seq![msg]) =~= frame_bytes(msg));
    assert(batch_frames(b, dicts) =~= frame_bytes(msg) + frame_bytes(
        EncodedMsg { metadata: record_batch_metadata(b), body: batch_body(b) },
    ));
}

proof fn lemma_change_rec(cols: Seq<ArrayData>, n: int, dicts: Map<i64, ArrayData>, i: int)
    requires
        0 <= i < cols.len(),
        n <= cols.len(),
        cols[i].dtype is Dictionary,
        must_emit(dicts, dict_id_of(cols[i].dtype), dict_values(cols[i])),
        forall|j: int|
            0 <= j < cols.len() && j != i ==> !((#[trigger] cols[j]).dtype is Dictionary),
    ensures
        n <= i ==> dict_msgs(cols, n, dicts) == Seq::<EncodedMsg>::empty(),
        n > i ==> dict_msgs(cols, n, dicts) == seq![
            EncodedMsg {
                metadata: dictionary_metadata(dict_id_of(cols[i].dtype), dict_values(cols[i])),
                body: dictionary_body(dict_values(cols[i])),
            },
        ],
    decreases n,
{
    if n <= 0 {
    } else {
        lemma_change_rec(cols, n - 1, dicts, i);
        if n - 1 == i {
            lemma_dicts_after_cols_other(cols, n - 1, dicts, dict_id_of(cols[i].dtype));
            assert(dict_msgs(cols, n, dicts) =~= seq![
                EncodedMsg {
                    metadata: dictionary_metadata(dict_id_of(cols[i].dtype), dict_values(cols[i])),
                    body: dictionary_body(dict_values(cols[i])),
                },
            ]);
        } else {
            assert(dict_msgs(cols, n, dicts) =~= dict_msgs(cols, n - 1, dicts));
        }
    }
}

/// Empty stream: encoding zero batches produces exactly the schema frame
/// followed by the 8-byte end-of-stream marker.
pub proof fn lemma_empty_stream(s: Schema)
    ensures
        stream_bytes(s, Seq::<RecordBatch>::empty()) == schema_frame(s) + stream_end_bytes(),
        frame_fits(crate::message::schema_metadata(s)) ==> stream_bytes(
            s,
            Seq::<RecordBatch>::empty(),
        ).len() == schema_frame(s).len() + 8,
{
    lemma_auto_spec_u32_to_from_le_bytes();
    assert(stream_frames(Seq::<RecordBatch>::empty(), 0) == Seq::<u8>::empty());
    assert(schema_frame(s) + stream_frames(Seq::<RecordBatch>::empty(), 0) + stream_end_bytes()
        =~= schema_frame(s) + stream_end_bytes());
}

/// Null handling: an array without an explicit validity bitmap (and not of
/// the null type) still contributes a first buffer — a synthesized all-valid
/// bitmap of `ceil(row_count / 8)` bytes before padding — and its descriptor
/// stands at offset 0 with the padded length.
pub proof fn lemma_null_handling(a: ArrayData)
    requires
        a.validity is None,
        !(a.dtype is Null),
    ensures
        chunk_list(a).len() > 0,
        chunk_list(a)[0] == synth_validity(a.row_count as int),
        synth_validity(a.row_count as int).len() == (a.row_count as int + 7) / 8,
        descs_from(chunk_list(a), 0)[0] == (BufferDesc {
            offset: 0usize,
            length: padded_size(((a.row_count as int + 7) / 8)) as usize,
        }),
{
    let cs = chunk_list(a);
    assert(cs[0] == synth_validity(a.row_count as int));
    lemma_descs_first(cs, 0);
}

/// What a conformant reader does with the front of a stream: it checks the
/// continuation marker, reads the length field, takes that many bytes of
/// padded metadata, reads the body length from the metadata's fixed field,
/// and takes that many body bytes.  Returns the padded metadata, the body,
/// and how many bytes the message occupied.
pub open spec fn parse_frame(s: Seq<u8>) -> Option<(Seq<u8>, Seq<u8>, int)> {
    if s.len() >= 8 && s.subrange(0, 4) == continuation_bytes() {
        let len = spec_u32_from_le_bytes(s.subrange(4, 8)) as int;
        if len >= 9 && s.len() >= 8 + len {
            let meta = s.subrange(8, 8 + len);
            let body_len = spec_u64_from_le_bytes(meta.subrange(1, 9)) as int;
            if s.len() >= 8 + len + body_len {
                Some((meta, s.subrange(8 + len, 8 + len + body_len), 8 + len + body_len))
            } else {
                None
            }
        } else {
            None
        }
    } else {
        None
    }
}

/// Every metadata table this library builds states its body length in the 8
/// bytes after the kind byte.
pub proof fn lemma_message_metadata_body_length(kind: u8, body_len: int, header: Seq<u8>)
    ensures
        message_metadata(kind, body_len, header).len() == 9 + header.len(),
        message_metadata(kind, body_len, header).subrange(1, 9) == enc_i64(body_len as i64),
{
    lemma_auto_spec_u64_to_from_le_bytes();
    assert(message_metadata(kind, body_len, header).subrange(1, 9) =~= enc_i64(body_len as i64));
}

/// Round-trip, at the framing level: a reader that follows the protocol
/// recovers from the wire bytes exactly the padded metadata and the body
/// that were framed, whatever follows them in the stream, and knows where
/// the next message starts.  Decoding the metadata tables and body buffers
/// back into logical columns is the conformant external reader's side.
pub proof fn lemma_frame_round_trip(m: EncodedMsg, rest: Seq<u8>)
    requires
        frame_fits(m.metadata),
        m.metadata.len() >= 9,
        0 <= m.body.len() <= i64::MAX,
        m.metadata.subrange(1, 9) == enc_i64(m.body.len() as i64),
    ensures
        ({
            let padding = padded_size(m.metadata.len() as int + 8) - 8 - m.metadata.len();
            let padded_meta = m.metadata + zero_bytes(padding);
            &&& parse_frame(frame_bytes(m) + rest) == Some(
                (padded_meta, m.body, frame_bytes(m).len() as int),
            )
            &&& padded_meta.subrange(0, m.metadata.len() as int) == m.metadata
        }),
{
    lemma_auto_spec_u32_to_from_le_bytes();
    lemma_auto_spec_u64_to_from_le_bytes();
    lemma_padded_size(m.metadata.len() as int + 8);
    let aligned = padded_size(m.metadata.len() as int + 8);
    let padding = aligned - 8 - m.metadata.len();
    let padded_meta = m.metadata + zero_bytes(padding);
    let s = frame_bytes(m) + rest;
    assert(s.subrange(0, 4) =~= continuation_bytes());
    assert(s.subrange(4, 8) =~= spec_u32_to_le_bytes((aligned - 8) as u32));
    assert(spec_u32_from_le_bytes(s.subrange(4, 8)) == (aligned - 8) as u32);
    let len = aligned - 8;
    assert(s.subrange(8, 8 + len) =~= padded_meta);
    assert(padded_meta.subrange(1, 9) =~= m.metadata.subrange(1, 9));
    assert(spec_u64_from_le_bytes(padded_meta.subrange(1, 9)) == crate::message::as_u64(
        m.body.len() as i64,
    ));
    assert(s.subrange(8 + len, 8 + len + m.body.len()) =~= m.body);
    assert(padded_meta.subrange(0, m.metadata.len() as int) =~= m.metadata);
}

/// The conditions under which one framed message parses back: it fits the
/// length prefix, and its metadata states the body length in the fixed field
/// after the kind byte.  Every metadata table this library builds does.
pub open spec fn msg_wf(m: EncodedMsg) -> bool {
    &&& frame_fits(m.metadata)
    &&& m.metadata.len() >= 9
    &&& m.body.len() <= i64::MAX
    &&& m.metadata.subrange(1, 9) == enc_i64(m.body.len() as i64)
}

/// The (padded metadata, body) pair a reader recovers for one message.
pub open spec fn msg_pair(m: EncodedMsg) -> (Seq<u8>, Seq<u8>) {
    (
        m.metadata + zero_bytes(
            padded_size(m.metadata.len() as int + 8) - 8 - m.metadata.len(),
        ),
        m.body,
    )
}

/// What a conformant reader does with a whole stream: it parses message
/// after message until the zero-length continuation marker, which must close
/// the stream.
pub open spec fn parse_stream(s: Seq<u8>) -> Option<Seq<(Seq<u8>, Seq<u8>)>>
    decreases s.len(),
{
    if s.len() >= 8 && s.subrange(0, 4) == continuation_bytes() && spec_u32_from_le_bytes(
        s.subrange(4, 8),
    ) == 0 {
        if s.len() == 8 {
            Some(Seq::empty())
        } else {
            None
        }
    } else {
        match parse_frame(s) {
            Some(p) => {
                if 0 < p.2 <= s.len() {
                    match parse_stream(s.skip(p.2)) {
                        Some(r) => Some(seq![(p.0, p.1)] + r),
                        None => None,
                    }
                } else {
                    None
                }
            },
            None => None,
        }
    }
}

/// Parsing peels one well-formed framed message off the front of a stream.
pub proof fn lemma_parse_cons(m: EncodedMsg, rest: Seq<u8>)
    requires
        msg_wf(m),
    ensures
        parse_stream(frame_bytes(m) + rest) == (match parse_stream(rest) {
            Some(r) => Some(seq![msg_pair(m)] + r),
            None => None::<Seq<(Seq<u8>, Seq<u8>)>>,
        }),
{
    lemma_auto_spec_u32_to_from_le_bytes();
    lemma_padded_size(m.metadata.len() as int + 8);
    lemma_frame_round_trip(m, rest);
    let s = frame_bytes(m) + rest;
    let aligned = padded_size(m.metadata.len() as int + 8);
    assert(s.subrange(4, 8) =~= spec_u32_to_le_bytes((aligned - 8) as u32));
    assert(spec_u32_from_le_bytes(s.subrange(4, 8)) == (aligned - 8) as u32);
    assert((aligned - 8) as u32 != 0);
    assert(s.skip(frame_bytes(m).len() as int) =~= rest);
}

pub proof fn lemma_cat_frames_app(xs: Seq<EncodedMsg>, ys: Seq<EncodedMsg>)
    ensures
        cat_frames(xs + ys) == cat_frames(xs) + cat_frames(ys),
    decreases ys.len(),
{
    if ys.len() == 0 {
        assert(xs + ys =~= xs);
        assert(cat_frames(xs) + cat_frames(ys) =~= cat_frames(xs));
    } else {
        lemma_cat_frames_app(xs, ys.drop_last());
        assert((xs + ys).drop_last() =~= xs + ys.drop_last());
        assert((xs + ys).last() == ys.last());
        assert(cat_frames(xs) + cat_frames(ys.drop_last()) + frame_bytes(ys.last())
            =~= cat_frames(xs) + cat_frames(ys));
    }
}

/// Parsing recovers, from concatenated well-formed frames followed by any
/// remainder, exactly their (padded metadata, body) pairs and then whatever
/// the remainder parses to.
pub proof fn lemma_parse_cat(msgs: Seq<EncodedMsg>, rest: Seq<u8>)
    requires
        forall|j: int| 0 <= j < msgs.len() ==> msg_wf(#[trigger] msgs[j]),
    ensures
        parse_stream(cat_frames(msgs) + rest) == (match parse_stream(rest) {
            Some(r) => Some(msgs.map_values(|m: EncodedMsg| msg_pair(m)) + r),
            None => None::<Seq<(Seq<u8>, Seq<u8>)>>,
        }),
    decreases msgs.len(),
{
    if msgs.len() == 0 {
        assert(cat_frames(msgs) + rest =~= rest);
        match parse_stream(rest) {
            Some(r) => {
                assert(msgs.map_values(|m: EncodedMsg| msg_pair(m)) + r =~= r);
            },
            None => {},
        }
    } else {
        let first = msgs[0];
        let tail = msgs.skip(1);
        assert(msgs =~= seq![first] + tail);
        lemma_cat_frames_app(seq![first], tail);
        assert(seq![first].drop_last() =~= Seq::<EncodedMsg>::empty());
        assert(cat_frames(Seq::<EncodedMsg>::empty()) == Seq::<u8>::empty());
        assert(cat_frames(seq![first]) =~= frame_bytes(first));
        assert(cat_frames(msgs) + rest =~= frame_bytes(first) + (cat_frames(tail) + rest));
        assert(forall|j: int| 0 <= j < tail.len() ==> msg_wf(#[trigger] tail[j]));
        lemma_parse_cat(tail, rest);
        lemma_parse_cons(first, cat_frames(tail) + rest);
        match parse_stream(rest) {
            Some(r) => {
                assert(seq![msg_pair(first)] + (tail.map_values(|m: EncodedMsg| msg_pair(m)) + r)
                    =~= msgs.map_values(|m: EncodedMsg| msg_pair(m)) + r);
            },
            None => {},
        }
    }
}

/// The 8 bytes that close a stream parse as a continuation marker whose
/// length field is zero: a reader recognizes them as "no more messages".
pub proof fn lemma_end_marker()
    ensures
        stream_end_bytes().len() == 8,
        stream_end_bytes().subrange(0, 4) == continuation_bytes(),
        spec_u32_from_le_bytes(stream_end_bytes().subrange(4, 8)) == 0,
{
    lemma_auto_spec_u32_to_from_le_bytes();
    assert(stream_end_bytes().subrange(0, 4) =~= continuation_bytes());
    assert(stream_end_bytes().subrange(4, 8) =~= spec_u32_to_le_bytes(0u32));
}

/// The messages one batch contributes to a stream: its due dictionary
/// batches, then its record batch.
pub open spec fn batch_msgs(b: RecordBatch, dicts: Map<i64, ArrayData>) -> Seq<EncodedMsg> {
    dict_msgs(b.columns@, b.columns@.len() as int, dicts) + seq![
        EncodedMsg { metadata: record_batch_metadata(b), body: batch_body(b) },
    ]
}

/// The messages of the first `n` batches, in input order.
pub open spec fn stream_msgs(batches: Seq<RecordBatch>, n: int) -> Seq<EncodedMsg>
    decreases n,
{
    if n <= 0 || n > batches.len() {
        Seq::empty()
    } else {
        stream_msgs(batches, n - 1) + batch_msgs(
            batches[n - 1],
            crate::stream::dicts_after_batches(batches, n - 1),
        )
    }
}

/// Every message of a stream: the schema message, then every batch's.
pub open spec fn all_stream_msgs(s: Schema, batches: Seq<RecordBatch>) -> Seq<EncodedMsg> {
    seq![EncodedMsg { metadata: crate::message::schema_metadata(s), body: Seq::empty() }]
        + stream_msgs(batches, batches.len() as int)
}

proof fn lemma_batch_frames_are_cat(b: RecordBatch, dicts: Map<i64, ArrayData>)
    ensures
        batch_frames(b, dicts) == cat_frames(batch_msgs(b, dicts)),
{
    let rb = EncodedMsg { metadata: record_batch_metadata(b), body: batch_body(b) };
    lemma_cat_frames_app(dict_msgs(b.columns@, b.columns@.len() as int, dicts), seq![rb]);
    assert(seq![rb].drop_last() =~= Seq::<EncodedMsg>::empty());
    assert(seq![rb].last() == rb);
    assert(cat_frames(Seq::<EncodedMsg>::empty()) == Seq::<u8>::empty());
    assert(cat_frames(seq![rb]) =~= frame_bytes(rb));
    assert(batch_frames(b, dicts) =~= cat_frames(batch_msgs(b, dicts)));
}

proof fn lemma_stream_frames_are_cat(batches: Seq<RecordBatch>, n: int)
    ensures
        stream_frames(batches, n) == cat_frames(stream_msgs(batches, n)),
    decreases n,
{
    if n <= 0 || n > batches.len() {
    } else {
        lemma_stream_frames_are_cat(batches, n - 1);
        lemma_batch_frames_are_cat(
            batches[n - 1],
            crate::stream::dicts_after_batches(batches, n - 1),
        );
        lemma_cat_frames_app(
            stream_msgs(batches, n - 1),
            batch_msgs(batches[n - 1], crate::stream::dicts_after_batches(batches, n - 1)),
        );
    }
}

proof fn lemma_dict_msgs_wf(cols: Seq<ArrayData>, n: int, dicts: Map<i64, ArrayData>)
    requires
        crate::stream::batch_dicts_ok(cols, n, dicts),
        crate::stream::frames_fit(dict_msgs(cols, n, dicts)),
    ensures
        forall|j: int| 0 <= j < dict_msgs(cols, n, dicts).len() ==> msg_wf(#[trigger] dict_msgs(cols, n, dicts)[j]),
    decreases n,
{
    if n <= 0 || n > cols.len() {
    } else {
        let prev = dict_msgs(cols, n - 1, dicts);
        let cur = dict_msgs(cols, n, dicts);
        assert(crate::stream::frames_fit(prev)) by {
            assert forall|j: int| 0 <= j < prev.len() implies frame_fits(
                (#[trigger] prev[j]).metadata,
            ) by {
                assert(cur[j] == prev[j]);
            }
        }
        lemma_dict_msgs_wf(cols, n - 1, dicts);
        let c = cols[n - 1];
        assert forall|j: int| 0 <= j < cur.len() implies msg_wf(#[trigger] cur[j]) by {
            if j < prev.len() {
                assert(cur[j] == prev[j]);
            } else {
                let v = dict_values(c);
                lemma_message_metadata_body_length(
                    crate::message::DICTIONARY_BATCH_KIND,
                    dictionary_body(v).len() as int,
                    enc_i64(dict_id_of(c.dtype)) + crate::message::record_batch_header(
                        v.row_count as int,
                        crate::message::node_list(v),
                        descs_from(chunk_list(v), 0),
                    ),
                );
            }
        }
    }
}

proof fn lemma_batch_msgs_wf(b: RecordBatch, dicts: Map<i64, ArrayData>)
    requires
        crate::stream::batch_stream_ok(b, dicts),
    ensures
        forall|j: int| 0 <= j < batch_msgs(b, dicts).len() ==> msg_wf(#[trigger] batch_msgs(b, dicts)[j]),
{
    let msgs = dict_msgs(b.columns@, b.columns@.len() as int, dicts);
    lemma_dict_msgs_wf(b.columns@, b.columns@.len() as int, dicts);
    lemma_message_metadata_body_length(
        crate::message::RECORD_BATCH_KIND,
        batch_body(b).len() as int,
        crate::message::record_batch_header(
            b.row_count as int,
            crate::message::batch_nodes(b.columns@, b.columns@.len() as int),
            crate::message::batch_descs(b),
        ),
    );
    assert forall|j: int| 0 <= j < batch_msgs(b, dicts).len() implies msg_wf(
        #[trigger] batch_msgs(b, dicts)[j],
    ) by {
        if j < msgs.len() {
            assert(batch_msgs(b, dicts)[j] == msgs[j]);
        } else {
            assert(batch_msgs(b, dicts)[j] == (EncodedMsg {
                metadata: record_batch_metadata(b),
                body: batch_body(b),
            }));
        }
    }
}

proof fn lemma_stream_msgs_wf(batches: Seq<RecordBatch>, n: int)
    requires
        n <= batches.len(),
        crate::stream::batches_ok(batches, n),
    ensures
        forall|j: int| 0 <= j < stream_msgs(batches, n).len() ==> msg_wf(#[trigger] stream_msgs(batches, n)[j]),
    decreases n,
{
    if n <= 0 {
    } else {
        lemma_stream_msgs_wf(batches, n - 1);
        lemma_batch_msgs_wf(batches[n - 1], crate::stream::dicts_after_batches(batches, n - 1));
        let prev = stream_msgs(batches, n - 1);
        let added = batch_msgs(batches[n - 1], crate::stream::dicts_after_batches(batches, n - 1));
        assert forall|j: int| 0 <= j < stream_msgs(batches, n).len() implies msg_wf(
            #[trigger] stream_msgs(batches, n)[j],
        ) by {
            if j < prev.len() {
                assert(stream_msgs(batches, n)[j] == prev[j]);
            } else {
                assert(stream_msgs(batches, n)[j] == added[j - prev.len()]);
            }
        }
    }
}

/// Round-trip, for a whole stream: a reader that follows the framing
/// protocol recovers from the encoded bytes exactly the (padded metadata,
/// body) pair of the schema message and of every dictionary and record
/// batch, in order, and sees the stream end after them.  Decoding those
/// pairs back into logical columns is the conformant external reader's side.
pub proof fn lemma_stream_round_trip(s: Schema, batches: Seq<RecordBatch>)
    requires
        crate::stream::stream_ok(s, batches),
    ensures
        parse_stream(stream_bytes(s, batches)) == Some(
            all_stream_msgs(s, batches).map_values(|m: EncodedMsg| msg_pair(m)),
        ),
{
    lemma_auto_spec_u32_to_from_le_bytes();
    let smsg = EncodedMsg { metadata: crate::message::schema_metadata(s), body: Seq::empty() };
    let msgs = all_stream_msgs(s, batches);
    let n = batches.len() as int;
    lemma_message_metadata_body_length(
        crate::message::SCHEMA_KIND,
        0,
        crate::message::schema_header(s),
    );
    lemma_stream_msgs_wf(batches, n);
    assert forall|j: int| 0 <= j < msgs.len() implies msg_wf(#[trigger] msgs[j]) by {
        if j == 0 {
            assert(msgs[0] == smsg);
        } else {
            assert(msgs[j] == stream_msgs(batches, n)[j - 1]);
        }
    }
    lemma_stream_frames_are_cat(batches, n);
    lemma_cat_frames_app(seq![smsg], stream_msgs(batches, n));
    assert(seq![smsg].drop_last() =~= Seq::<EncodedMsg>::empty());
    assert(seq![smsg].last() == smsg);
    assert(cat_frames(Seq::<EncodedMsg>::empty()) == Seq::<u8>::empty());
    assert(cat_frames(seq![smsg]) =~= frame_bytes(smsg));
    assert(stream_bytes(s, batches) =~= cat_frames(msgs) + stream_end_bytes());
    lemma_end_marker();
    assert(parse_stream(stream_end_bytes()) == Some(Seq::<(Seq<u8>, Seq<u8>)>::empty()));
    lemma_parse_cat(msgs, stream_end_bytes());
    assert(msgs.map_values(|m: EncodedMsg| msg_pair(m)) + Seq::<(Seq<u8>, Seq<u8>)>::empty()
        =~= msgs.map_values(|m: EncodedMsg| msg_pair(m)));
}

/// The first descriptor of a laid-out chunk list describes its first chunk,
/// at the start offset.
pub proof fn lemma_descs_first(cs: Seq<Seq<u8>>, start: int)
    requires
        cs.len() > 0,
    ensures
        descs_from(cs, start).len() == cs.len(),
        descs_from(cs, start)[0] == (BufferDesc {
            offset: start as usize,
            length: padded_size(cs[0].len() as int) as usize,
        }),
    decreases cs.len(),
{
    crate::message::lemma_descs_from_len(cs, start);
    if cs.len() == 1 {
        assert(cs.drop_last() =~= Seq::<Seq<u8>>::empty());
        assert(crate::message::cat_padded(Seq::<Seq<u8>>::empty()) =~= Seq::<u8>::empty());
    } else {
        lemma_descs_first(cs.drop_last(), start);
        assert(descs_from(cs, start)[0] == descs_from(cs.drop_last(), start)[0]);
        assert(cs.drop_last()[0] == cs[0]);
    }
}

} // verus!
