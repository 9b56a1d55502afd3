//! The stream sequencer: write the schema message once, then for each batch
//! the dictionary batches that are new or changed followed by its record
//! batch, and finally the end-of-stream marker.

use crate::error::EncodeError;
use crate::framing::EncodedData;
use crate::framing::EncodedMsg;
use crate::framing::frame_bytes;
use crate::framing::frame_fits;
use crate::framing::stream_end_bytes;
use crate::framing::write_continuation_marker;
use crate::framing::write_encoded_data_to_stream;
use crate::message::batch_body;
use crate::message::batch_encodable;
use crate::message::dictionary_batch_to_bytes;
use crate::message::dictionary_body;
use crate::message::dictionary_encodable;
use crate::message::dictionary_metadata;
use crate::message::lemma_cat_padded_mod8;
use crate::message::record_batch_metadata;
use crate::message::record_batch_to_bytes;
use crate::message::schema_metadata;
use crate::message::schema_to_bytes;
use crate::model::ArrayData;
use crate::model::RecordBatch;
use crate::model::Schema;
use crate::model::dict_id_of;
use crate::model::dict_values;
use crate::model::lemma_array_same_refl;
use crate::model::schema_fits;
use crate::tracker::DictionaryAction;
use crate::tracker::DictionaryTracker;
use crate::tracker::dicts_equiv;
use crate::tracker::lemma_dicts_equiv_trans;
use crate::tracker::lemma_must_emit_equiv;
use crate::tracker::must_emit;
use vstd::prelude::*;

verus! {

broadcast use vstd::seq::group_seq_axioms, vstd::std_specs::vec::group_vec_axioms;

/// The last-emitted table after recording the dictionary columns among the
/// first `n` columns, in column order.
pub open spec fn dicts_after_cols(
    cols: Seq<ArrayData>,
    n: int,
    dicts: Map<i64, ArrayData>,
) -> Map<i64, ArrayData>
    decreases n,
{
    if n <= 0 || n > cols.len() {
        dicts
    } else {
        let prev = dicts_after_cols(cols, n - 1, dicts);
        let c = cols[n - 1];
        if c.dtype is Dictionary {
            prev.insert(dict_id_of(c.dtype), dict_values(c))
        } else {
            prev
        }
    }
}

/// The dictionary-batch messages due before a batch's record batch: one per
/// dictionary column whose identifier is new or whose values changed, in
/// column order.
pub open spec fn dict_msgs(cols: Seq<ArrayData>, n: int, dicts: Map<i64, ArrayData>) -> Seq<
    EncodedMsg,
>
    decreases n,
{
    if n <= 0 || n > cols.len() {
        Seq::empty()
    } else {
        let prev_msgs = dict_msgs(cols, n - 1, dicts);
        let prev_map = dicts_after_cols(cols, n - 1, dicts);
        let c = cols[n - 1];
        if c.dtype is Dictionary && must_emit(prev_map, dict_id_of(c.dtype), dict_values(c)) {
            prev_msgs + seq![
                EncodedMsg {
                    metadata: dictionary_metadata(dict_id_of(c.dtype), dict_values(c)),
                    body: dictionary_body(dict_values(c)),
                },
            ]
        } else {
            prev_msgs
        }
    }
}

/// Whether every dictionary column among the first `n` carries its value
/// array and, where a dictionary batch is due, that batch can be encoded.
pub open spec fn batch_dicts_ok(cols: Seq<ArrayData>, n: int, dicts: Map<i64, ArrayData>) -> bool
    decreases n,
{
    if n <= 0 || n > cols.len() {
        true
    } else {
        batch_dicts_ok(cols, n - 1, dicts) && {
            let prev_map = dicts_after_cols(cols, n - 1, dicts);
            let c = cols[n - 1];
            c.dtype is Dictionary ==> (c.children@.len() == 1 && (must_emit(
                prev_map,
                dict_id_of(c.dtype),
                dict_values(c),
            ) ==> dictionary_encodable(dict_values(c))))
        }
    }
}

/// Agreeing last-emitted tables lead to the same dictionary messages, the
/// same encodability, and agreeing tables afterwards.
pub proof fn lemma_cols_fold_equiv(
    cols: Seq<ArrayData>,
    n: int,
    m1: Map<i64, ArrayData>,
    m2: Map<i64, ArrayData>,
)
    requires
        dicts_equiv(m1, m2),
    ensures
        dicts_equiv(dicts_after_cols(cols, n, m1), dicts_after_cols(cols, n, m2)),
        dict_msgs(cols, n, m1) == dict_msgs(cols, n, m2),
        batch_dicts_ok(cols, n, m1) == batch_dicts_ok(cols, n, m2),
    decreases n,
{
    if n <= 0 || n > cols.len() {
    } else {
        lemma_cols_fold_equiv(cols, n - 1, m1, m2);
        let c = cols[n - 1];
        if c.dtype is Dictionary {
            lemma_must_emit_equiv(
                dicts_after_cols(cols, n - 1, m1),
                dicts_after_cols(cols, n - 1, m2),
                dict_id_of(c.dtype),
                dict_values(c),
            );
            lemma_array_same_refl(dict_values(c));
            crate::tracker::lemma_dicts_equiv_insert(
                dicts_after_cols(cols, n - 1, m1),
                dicts_after_cols(cols, n - 1, m2),
                dict_id_of(c.dtype),
                dict_values(c),
                dict_values(c),
            );
        }
    }
}

/// A shorter prefix of consistent dictionary columns stays consistent.
pub proof fn lemma_batch_dicts_ok_mono(
    cols: Seq<ArrayData>,
    m: int,
    n: int,
    dicts: Map<i64, ArrayData>,
)
    requires
        m <= n <= cols.len(),
        batch_dicts_ok(cols, n, dicts),
    ensures
        batch_dicts_ok(cols, m, dicts),
    decreases n,
{
    if m < n && 0 < n <= cols.len() {
        lemma_batch_dicts_ok_mono(cols, m, n - 1, dicts);
    }
}

/// Every dictionary-batch body in a message list is a multiple of 8 bytes.
pub proof fn lemma_dict_msgs_bodies(cols: Seq<ArrayData>, n: int, dicts: Map<i64, ArrayData>)
    ensures
        forall|j: int|
            0 <= j < dict_msgs(cols, n, dicts).len() ==> (#[trigger] dict_msgs(
                cols,
                n,
                dicts,
            )[j]).body.len() % 8 == 0,
    decreases n,
{
    if n <= 0 || n > cols.len() {
    } else {
        lemma_dict_msgs_bodies(cols, n - 1, dicts);
        let c = cols[n - 1];
        if c.dtype is Dictionary {
            lemma_cat_padded_mod8(crate::message::chunk_list(dict_values(c)));
        }
        assert forall|j: int| 0 <= j < dict_msgs(cols, n, dicts).len() implies (
        #[trigger] dict_msgs(cols, n, dicts)[j]).body.len() % 8 == 0 by {
            if j < dict_msgs(cols, n - 1, dicts).len() {
                assert(dict_msgs(cols, n, dicts)[j] == dict_msgs(cols, n - 1, dicts)[j]);
            }
        }
    }
}

/// The concatenated wire framing of a message list.
pub open spec fn cat_frames(msgs: Seq<EncodedMsg>) -> Seq<u8>
    decreases msgs.len(),
{
    if msgs.len() == 0 {
        Seq::empty()
    } else {
        cat_frames(msgs.drop_last()) + frame_bytes(msgs.last())
    }
}

/// Whether every message of a list fits the signed 32-bit length prefix.
pub open spec fn frames_fit(msgs: Seq<EncodedMsg>) -> bool {
    forall|j: int| 0 <= j < msgs.len() ==> frame_fits((#[trigger] msgs[j]).metadata)
}

/// The bytes one batch adds to a stream: its due dictionary batches, in
/// column order, then its record batch.
pub open spec fn batch_frames(b: RecordBatch, dicts: Map<i64, ArrayData>) -> Seq<u8> {
    cat_frames(dict_msgs(b.columns@, b.columns@.len() as int, dicts)) + frame_bytes(
        EncodedMsg { metadata: record_batch_metadata(b), body: batch_body(b) },
    )
}

/// Whether one batch can be framed onto a stream whose last-emitted table is
/// `dicts`.
pub open spec fn batch_stream_ok(b: RecordBatch, dicts: Map<i64, ArrayData>) -> bool {
    &&& batch_encodable(b)
    &&& batch_dicts_ok(b.columns@, b.columns@.len() as int, dicts)
    &&& frame_fits(record_batch_metadata(b))
    &&& frames_fit(dict_msgs(b.columns@, b.columns@.len() as int, dicts))
}

/// Agreeing last-emitted tables give one batch the same wire bytes.
pub proof fn lemma_batch_equiv(b: RecordBatch, m1: Map<i64, ArrayData>, m2: Map<i64, ArrayData>)
    requires
        dicts_equiv(m1, m2),
    ensures
        batch_frames(b, m1) == batch_frames(b, m2),
        batch_stream_ok(b, m1) == batch_stream_ok(b, m2),
        dicts_equiv(
            dicts_after_cols(b.columns@, b.columns@.len() as int, m1),
            dicts_after_cols(b.columns@, b.columns@.len() as int, m2),
        ),
{
    lemma_cols_fold_equiv(b.columns@, b.columns@.len() as int, m1, m2);
}

/// The last-emitted table after the first `n` batches of a stream.
pub open spec fn dicts_after_batches(batches: Seq<RecordBatch>, n: int) -> Map<i64, ArrayData>
    decreases n,
{
    if n <= 0 || n > batches.len() {
        Map::empty()
    } else {
        dicts_after_cols(
            batches[n - 1].columns@,
            batches[n - 1].columns@.len() as int,
            dicts_after_batches(batches, n - 1),
        )
    }
}

/// The bytes the first `n` batches add to a stream, in input order.
pub open spec fn stream_frames(batches: Seq<RecordBatch>, n: int) -> Seq<u8>
    decreases n,
{
    if n <= 0 || n > batches.len() {
        Seq::empty()
    } else {
        stream_frames(batches, n - 1) + batch_frames(
            batches[n - 1],
            dicts_after_batches(batches, n - 1),
        )
    }
}

/// Whether the first `n` batches can all be framed.
pub open spec fn batches_ok(batches: Seq<RecordBatch>, n: int) -> bool
    decreases n,
{
    if n <= 0 || n > batches.len() {
        true
    } else {
        batches_ok(batches, n - 1) && batch_stream_ok(
            batches[n - 1],
            dicts_after_batches(batches, n - 1),
        )
    }
}

/// A shorter prefix of framable batches stays framable.
pub proof fn lemma_batches_ok_mono(batches: Seq<RecordBatch>, m: int, n: int)
    requires
        m <= n <= batches.len(),
        batches_ok(batches, n),
    ensures
        batches_ok(batches, m),
    decreases n,
{
    if m < n && 0 < n <= batches.len() {
        lemma_batches_ok_mono(batches, m, n - 1);
    }
}

/// The wire framing of the schema message, which has no body.
pub open spec fn schema_frame(s: Schema) -> Seq<u8> {
    frame_bytes(EncodedMsg { metadata: schema_metadata(s), body: Seq::empty() })
}

/// The whole stream: the schema message, every batch's messages in input
/// order, and the end-of-stream marker.
pub open spec fn stream_bytes(s: Schema, batches: Seq<RecordBatch>) -> Seq<u8> {
    schema_frame(s) + stream_frames(batches, batches.len() as int) + stream_end_bytes()
}

/// Whether a schema and batch sequence can be encoded as one stream.
pub open spec fn stream_ok(s: Schema, batches: Seq<RecordBatch>) -> bool {
    &&& schema_fits(s)
    &&& frame_fits(schema_metadata(s))
    &&& batches_ok(batches, batches.len() as int)
}

/// Encodes one batch against the tracker: reports the dictionary batches due
/// (identifier new or values changed, in column order) and the record-batch
/// message.  The tracker afterwards holds each dictionary column's values
/// under its identifier.
#[verifier::loop_isolation(false)]
#[verifier::rlimit(100)]
pub fn encode_batch(batch: &RecordBatch, dictionary_tracker: &mut DictionaryTracker) -> (r: Result<
    (Vec<EncodedData>, EncodedData),
    EncodeError,
>)
    ensures
        match r {
            Ok((encoded_dictionaries, encoded_message)) => {
                &&& batch_encodable(*batch)
                &&& batch_dicts_ok(
                    batch.columns@,
                    batch.columns@.len() as int,
                    old(dictionary_tracker)@,
                )
                &&& encoded_dictionaries@.map_values(|d: EncodedData| d@) == dict_msgs(
                    batch.columns@,
                    batch.columns@.len() as int,
                    old(dictionary_tracker)@,
                )
                &&& encoded_message@ == (EncodedMsg {
                    metadata: record_batch_metadata(*batch),
                    body: batch_body(*batch),
                })
                &&& dicts_equiv(
                    final(dictionary_tracker)@,
                    dicts_after_cols(
                        batch.columns@,
                        batch.columns@.len() as int,
                        old(dictionary_tracker)@,
                    ),
                )
            },
            Err(e) => {
                &&& !(batch_encodable(*batch) && batch_dicts_ok(
                    batch.columns@,
                    batch.columns@.len() as int,
                    old(dictionary_tracker)@,
                ))
                &&& (e == EncodeError::EncodingFailure || e == EncodeError::UnsupportedInput)
            },
        },
{
    let ghost cols: Seq<ArrayData> = batch.columns@;
    let ghost dicts0: Map<i64, ArrayData> = dictionary_tracker@;
    let mut encoded_dictionaries: Vec<EncodedData> = Vec::new();
    let mut i: usize = 0;
    proof {
        crate::tracker::lemma_dicts_equiv_refl(dicts0);
        assert(encoded_dictionaries@.map_values(|d: EncodedData| d@) =~= dict_msgs(
            cols,
            0,
            dicts0,
        ));
    }
    while i < batch.columns.len()
        invariant
            i <= cols.len(),
            dicts_equiv(dictionary_tracker@, dicts_after_cols(cols, i as int, dicts0)),
            encoded_dictionaries@.map_values(|d: EncodedData| d@) == dict_msgs(
                cols,
                i as int,
                dicts0,
            ),
            batch_dicts_ok(cols, i as int, dicts0),
        decreases cols.len() - i,
    {
        let ghost prev_map: Map<i64, ArrayData> = dicts_after_cols(cols, i as int, dicts0);
        let ghost prev_actual: Map<i64, ArrayData> = dictionary_tracker@;
        let column = &batch.columns[i];
        if let crate::model::ColumnType::Dictionary { dict_id, .. } = &column.dtype {
            if column.children.len() != 1 {
                proof {
                    assert(!batch_dicts_ok(cols, i as int + 1, dicts0));
                    if batch_dicts_ok(cols, cols.len() as int, dicts0) {
                        lemma_batch_dicts_ok_mono(cols, i as int + 1, cols.len() as int, dicts0);
                    }
                }
                return Err(EncodeError::EncodingFailure);
            }
            let dict_id: i64 = *dict_id;
            let dict_values_ref = &column.children[0];
            let action = dictionary_tracker.record_and_check(dict_id, dict_values_ref);
            proof {
                lemma_must_emit_equiv(prev_actual, prev_map, dict_id, *dict_values_ref);
            }
            let emit: bool = matches!(action, DictionaryAction::Emit);
            if emit {
                match dictionary_batch_to_bytes(dict_id, dict_values_ref) {
                    Ok(d) => {
                        encoded_dictionaries.push(d);
                        proof {
                            assert(encoded_dictionaries@.map_values(|d: EncodedData| d@)
                                =~= dict_msgs(cols, i as int + 1, dicts0));
                        }
                    },
                    Err(e) => {
                        proof {
                            assert(!batch_dicts_ok(cols, i as int + 1, dicts0));
                            if batch_dicts_ok(cols, cols.len() as int, dicts0) {
                                lemma_batch_dicts_ok_mono(
                                    cols,
                                    i as int + 1,
                                    cols.len() as int,
                                    dicts0,
                                );
                            }
                        }
                        return Err(e);
                    },
                }
            } else {
                proof {
                    assert(encoded_dictionaries@.map_values(|d: EncodedData| d@) =~= dict_msgs(
                        cols,
                        i as int + 1,
                        dicts0,
                    ));
                }
            }
            proof {
                let next_map = dicts_after_cols(cols, i as int + 1, dicts0);
                assert(next_map == prev_map.insert(dict_id, *dict_values_ref));
                assert forall|k: i64| #[trigger] dictionary_tracker@.contains_key(k)
                    <==> next_map.contains_key(k) by {}
                assert forall|k: i64| #[trigger] dictionary_tracker@.contains_key(k) implies
                    crate::model::array_same(dictionary_tracker@[k], next_map[k]) by {
                    if k == dict_id {
                    } else {
                        assert(prev_actual.contains_key(k));
                        assert(dictionary_tracker@[k] == prev_actual[k]);
                    }
                }
                assert(dicts_equiv(dictionary_tracker@, next_map));
            }
        } else {
            proof {
                assert(dicts_after_cols(cols, i as int + 1, dicts0) == dicts_after_cols(
                    cols,
                    i as int,
                    dicts0,
                ));
                assert(encoded_dictionaries@.map_values(|d: EncodedData| d@) == dict_msgs(
                    cols,
                    i as int + 1,
                    dicts0,
                ));
            }
        }
        i = i + 1;
    }
    let encoded_message = match record_batch_to_bytes(batch) {
        Ok(m) => m,
        Err(e) => {
            return Err(e);
        },
    };
    Ok((encoded_dictionaries, encoded_message))
}

/// Encodes one batch and appends its dictionary batches and record batch to
/// the stream, each framed with the continuation marker and length prefix.
#[verifier::loop_isolation(false)]
#[verifier::rlimit(100)]
pub fn append_record_batch_to_stream(
    stream_writer: &mut Vec<u8>,
    dictionary_tracker: &mut DictionaryTracker,
    batch: &RecordBatch,
) -> (r: Result<(), EncodeError>)
    ensures
        match r {
            Ok(()) => {
                &&& batch_stream_ok(*batch, old(dictionary_tracker)@)
                &&& final(stream_writer)@ == old(stream_writer)@ + batch_frames(
                    *batch,
                    old(dictionary_tracker)@,
                )
                &&& dicts_equiv(
                    final(dictionary_tracker)@,
                    dicts_after_cols(
                        batch.columns@,
                        batch.columns@.len() as int,
                        old(dictionary_tracker)@,
                    ),
                )
            },
            Err(e) => !batch_stream_ok(*batch, old(dictionary_tracker)@),
        },
{
    let ghost cols: Seq<ArrayData> = batch.columns@;
    let ghost dicts0: Map<i64, ArrayData> = dictionary_tracker@;
    let ghost msgs: Seq<EncodedMsg> = dict_msgs(cols, cols.len() as int, dicts0);
    let (encoded_dictionaries, encoded_message) = match encode_batch(batch, dictionary_tracker) {
        Ok(p) => p,
        Err(e) => {
            return Err(e);
        },
    };
    let mut encoded_dictionaries = encoded_dictionaries;
    let ghost total: int = msgs.len() as int;
    let ghost mut written: int = 0;
    proof {
        lemma_dict_msgs_bodies(cols, cols.len() as int, dicts0);
        assert(encoded_dictionaries@.map_values(|d: EncodedData| d@) =~= msgs.skip(0));
        assert(stream_writer@ =~= old(stream_writer)@ + cat_frames(msgs.take(0)));
    }
    while encoded_dictionaries.len() > 0
        invariant
            0 <= written <= total,
            written + encoded_dictionaries@.len() == total,
            encoded_dictionaries@.map_values(|d: EncodedData| d@) == msgs.skip(written),
            stream_writer@ == old(stream_writer)@ + cat_frames(msgs.take(written)),
            forall|j: int| 0 <= j < msgs.len() ==> (#[trigger] msgs[j]).body.len() % 8 == 0,
            forall|j: int| 0 <= j < written ==> frame_fits((#[trigger] msgs[j]).metadata),
        decreases encoded_dictionaries@.len(),
    {
        let ghost rem_before: Seq<EncodedData> = encoded_dictionaries@;
        let encoded_dictionary = encoded_dictionaries.remove(0);
        proof {
            assert(rem_before.map_values(|d: EncodedData| d@)[0] == encoded_dictionary@);
            assert(msgs.skip(written)[0] == msgs[written]);
            assert(encoded_dictionary@ == msgs[written]);
        }
        match write_encoded_data_to_stream(stream_writer, encoded_dictionary) {
            Ok(_) => {},
            Err(e) => {
                proof {
                    assert(!frame_fits(msgs[written].metadata));
                    assert(!frames_fit(msgs));
                }
                return Err(e);
            },
        }
        proof {
            written = written + 1;
            assert(msgs.take(written).drop_last() =~= msgs.take(written - 1));
            assert(msgs.take(written).last() == msgs[written - 1]);
            assert(stream_writer@ =~= old(stream_writer)@ + cat_frames(msgs.take(written)));
            assert(encoded_dictionaries@ =~= rem_before.skip(1));
            assert forall|j: int| 0 <= j < encoded_dictionaries@.len() implies (
            #[trigger] encoded_dictionaries@[j])@ == msgs.skip(written)[j] by {
                assert(encoded_dictionaries@[j] == rem_before[j + 1]);
                assert(rem_before.map_values(|d: EncodedData| d@)[j + 1] == msgs.skip(
                    written - 1,
                )[j + 1]);
            }
            assert(encoded_dictionaries@.map_values(|d: EncodedData| d@) =~= msgs.skip(written));
        }
    }
    proof {
        assert(msgs.take(total) =~= msgs);
        lemma_cat_padded_mod8(
            crate::message::batch_chunks(batch.columns@, batch.columns@.len() as int),
        );
    }
    match write_encoded_data_to_stream(stream_writer, encoded_message) {
        Ok(_) => {},
        Err(e) => {
            return Err(e);
        },
    }
    proof {
        assert(frames_fit(msgs));
        assert(stream_writer@ =~= old(stream_writer)@ + batch_frames(*batch, dicts0));
    }
    Ok(())
}

/// Encodes a whole stream: the schema message, every batch in input order —
/// each preceded by its due dictionary batches — and the end-of-stream
/// marker.  With zero batches the stream is the schema message and the
/// end-of-stream marker alone.
#[verifier::loop_isolation(false)]
#[verifier::rlimit(100)]
pub fn encode_stream(schema: &Schema, batches: &Vec<RecordBatch>) -> (r: Result<
    Vec<u8>,
    EncodeError,
>)
    ensures
        match r {
            Ok(out) => stream_ok(*schema, batches@) && out@ == stream_bytes(*schema, batches@),
            Err(e) => !stream_ok(*schema, batches@),
        },
{
    let mut writer: Vec<u8> = Vec::new();
    let mut dictionary_tracker = DictionaryTracker::new();
    let schema_msg = match schema_to_bytes(schema) {
        Ok(m) => m,
        Err(e) => {
            return Err(e);
        },
    };
    match write_encoded_data_to_stream(&mut writer, schema_msg) {
        Ok(_) => {},
        Err(e) => {
            return Err(e);
        },
    }
    proof {
        assert(writer@ =~= schema_frame(*schema) + stream_frames(batches@, 0));
    }
    let mut i: usize = 0;
    while i < batches.len()
        invariant
            i <= batches@.len(),
            schema_fits(*schema),
            frame_fits(schema_metadata(*schema)),
            writer@ == schema_frame(*schema) + stream_frames(batches@, i as int),
            dicts_equiv(dictionary_tracker@, dicts_after_batches(batches@, i as int)),
            batches_ok(batches@, i as int),
        decreases batches@.len() - i,
    {
        let ghost spec_map: Map<i64, ArrayData> = dicts_after_batches(batches@, i as int);
        let ghost actual: Map<i64, ArrayData> = dictionary_tracker@;
        proof {
            lemma_batch_equiv(batches@[i as int], actual, spec_map);
        }
        match append_record_batch_to_stream(&mut writer, &mut dictionary_tracker, &batches[i]) {
            Ok(()) => {},
            Err(e) => {
                proof {
                    assert(!batch_stream_ok(batches@[i as int], spec_map));
                    assert(!batches_ok(batches@, i as int + 1));
                    if batches_ok(batches@, batches@.len() as int) {
                        lemma_batches_ok_mono(batches@, i as int + 1, batches@.len() as int);
                    }
                }
                return Err(e);
            },
        }
        proof {
            lemma_dicts_equiv_trans(
                dictionary_tracker@,
                dicts_after_cols(
                    batches@[i as int].columns@,
                    batches@[i as int].columns@.len() as int,
                    actual,
                ),
                dicts_after_batches(batches@, i as int + 1),
            );
        }
        i = i + 1;
    }
    write_continuation_marker(&mut writer, 0);
    proof {
        assert(writer@ =~= stream_bytes(*schema, batches@));
    }
    Ok(writer)
}

/// An ordered sequence of record batches sharing one schema.
pub struct RecordBatches {
    batches: Vec<RecordBatch>,
}

impl View for RecordBatches {
    type V = Seq<RecordBatch>;

    closed spec fn view(&self) -> Seq<RecordBatch> {
        self.batches@
    }
}

impl RecordBatches {
    /// Wraps an ordered batch sequence.
    pub fn new(batches: Vec<RecordBatch>) -> (r: Self)
        ensures
            r@ == batches@,
    {
        RecordBatches { batches }
    }

    /// The batches, in input order.
    pub fn batches(&self) -> (r: &Vec<RecordBatch>)
        ensures
            r@ == self@,
    {
        &self.batches
    }

    /// Fetches the schema from the first batch, or nothing when there are no
    /// batches.
    pub fn schema(&self) -> (r: Option<&Schema>)
        ensures
            match r {
                Some(s) => self@.len() > 0 && *s == self@[0].schema,
                None => self@.len() == 0,
            },
    {
        match self.batches.get(0) {
            Some(b) => Some(&b.schema),
            None => None,
        }
    }

    /// Encodes the batches as one length-framed stream against the schema of
    /// the first batch.  With no batches at all there is no schema to write,
    /// and the output is empty.
    pub fn into_stream_bytes(self) -> (r: Result<Vec<u8>, EncodeError>)
        ensures
            match r {
                Ok(out) => {
                    if self@.len() == 0 {
                        out@ == Seq::<u8>::empty()
                    } else {
                        stream_ok(self@[0].schema, self@) && out@ == stream_bytes(
                            self@[0].schema,
                            self@,
                        )
                    }
                },
                Err(e) => self@.len() > 0 && !stream_ok(self@[0].schema, self@),
            },
    {
        if self.batches.len() == 0 {
            let out: Vec<u8> = Vec::new();
            return Ok(out);
        }
        encode_stream(&self.batches[0].schema, &self.batches)
    }
}

} // verus!
