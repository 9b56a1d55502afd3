//! Dictionary state across one output stream: which dictionary identifiers
//! have been emitted, and with which values.

use crate::model::ArrayData;
use crate::model::array_data_eq;
use crate::model::array_same;
use crate::model::clone_array;
use crate::model::lemma_array_same_sym;
use crate::model::lemma_array_same_trans;
use std::collections::HashMap;
use vstd::prelude::*;

verus! {

broadcast use vstd::std_specs::hash::group_hash_axioms;

/// Whether a dictionary with identifier `id` and values `values` must be
/// emitted, given the table of last-emitted values per identifier: it must
/// when the identifier is unseen or its last-emitted values differ.
pub open spec fn must_emit(dicts: Map<i64, ArrayData>, id: i64, values: ArrayData) -> bool {
    !(dicts.contains_key(id) && array_same(dicts[id], values))
}

/// Whether two last-emitted tables agree: the same identifiers, each with
/// byte-identical values.
pub open spec fn dicts_equiv(m1: Map<i64, ArrayData>, m2: Map<i64, ArrayData>) -> bool {
    &&& (forall|k: i64| #[trigger] m1.contains_key(k) <==> #[trigger] m2.contains_key(k))
    &&& (forall|k: i64| #[trigger] m1.contains_key(k) ==> array_same(m1[k], m2[k]))
}

/// Agreeing tables force the same emit decisions.
pub proof fn lemma_must_emit_equiv(
    m1: Map<i64, ArrayData>,
    m2: Map<i64, ArrayData>,
    id: i64,
    values: ArrayData,
)
    requires
        dicts_equiv(m1, m2),
    ensures
        must_emit(m1, id, values) == must_emit(m2, id, values),
{
    if m1.contains_key(id) {
        if array_same(m1[id], values) {
            lemma_array_same_sym(m1[id], m2[id]);
            lemma_array_same_trans(m2[id], m1[id], values);
        }
        if array_same(m2[id], values) {
            lemma_array_same_trans(m1[id], m2[id], values);
        }
    }
}

/// Recording byte-identical values under `id` keeps two agreeing tables in
/// agreement.
pub proof fn lemma_dicts_equiv_insert(
    m1: Map<i64, ArrayData>,
    m2: Map<i64, ArrayData>,
    id: i64,
    v1: ArrayData,
    v2: ArrayData,
)
    requires
        dicts_equiv(m1, m2),
        array_same(v1, v2),
    ensures
        dicts_equiv(m1.insert(id, v1), m2.insert(id, v2)),
{
}

/// Every last-emitted table agrees with itself.
pub proof fn lemma_dicts_equiv_refl(m: Map<i64, ArrayData>)
    ensures
        dicts_equiv(m, m),
{
    assert forall|k: i64| #[trigger] m.contains_key(k) implies array_same(m[k], m[k]) by {
        crate::model::lemma_array_same_refl(m[k]);
    }
}

/// Agreement of last-emitted tables is transitive.
pub proof fn lemma_dicts_equiv_trans(
    m1: Map<i64, ArrayData>,
    m2: Map<i64, ArrayData>,
    m3: Map<i64, ArrayData>,
)
    requires
        dicts_equiv(m1, m2),
        dicts_equiv(m2, m3),
    ensures
        dicts_equiv(m1, m3),
{
    assert forall|k: i64| #[trigger] m1.contains_key(k) <==> #[trigger] m3.contains_key(k) by {
        assert(m1.contains_key(k) <==> m2.contains_key(k));
        assert(m2.contains_key(k) <==> m3.contains_key(k));
    }
    assert forall|k: i64| #[trigger] m1.contains_key(k) implies array_same(m1[k], m3[k]) by {
        assert(m2.contains_key(k));
        lemma_array_same_trans(m1[k], m2[k], m3[k]);
    }
}

/// What [`DictionaryTracker::record_and_check`] reports for one dictionary.
#[derive(Clone, Copy, Debug, PartialEq, Eq, Structural)]
pub enum DictionaryAction {
    /// The identifier is new, or its values changed: a dictionary batch must
    /// be emitted before the record batch that references it.
    Emit,
    /// The last-emitted values for this identifier are byte-identical: no
    /// dictionary batch is due.
    Skip,
}

/// Tracks, per dictionary identifier, the value array last emitted for it in
/// the current stream.  One tracker lives exactly as long as one stream.
pub struct DictionaryTracker {
    last: HashMap<i64, ArrayData>,
}

impl View for DictionaryTracker {
    type V = Map<i64, ArrayData>;

    closed spec fn view(&self) -> Map<i64, ArrayData> {
        self.last@
    }
}

impl DictionaryTracker {
    /// A tracker that has emitted nothing yet.
    pub fn new() -> (t: Self)
        ensures
            t@ == Map::<i64, ArrayData>::empty(),
    {
        DictionaryTracker { last: HashMap::new() }
    }

    /// Records the dictionary values seen for `id` in the current batch and
    /// reports whether a dictionary batch must be emitted: it must when `id`
    /// is unseen or its values are not byte-identical to the last emission.
    /// Afterwards the tracker holds `values` for `id`, other identifiers
    /// unchanged.
    pub fn record_and_check(&mut self, id: i64, values: &ArrayData) -> (action: DictionaryAction)
        ensures
            (action == DictionaryAction::Emit) == must_emit(old(self)@, id, *values),
            final(self)@.contains_key(id),
            array_same(final(self)@[id], *values),
            forall|k: i64|
                k != id ==> (#[trigger] final(self)@.contains_key(k) <==> old(
                    self,
                )@.contains_key(k)),
            forall|k: i64|
                k != id && old(self)@.contains_key(k) ==> #[trigger] final(self)@[k] == old(
                    self,
                )@[k],
    {
        let emit: bool = match self.last.get(&id) {
            Some(stored) => !array_data_eq(stored, values),
            None => true,
        };
        if emit {
            let copy = clone_array(values);
            self.last.insert(id, copy);
            DictionaryAction::Emit
        } else {
            DictionaryAction::Skip
        }
    }
}

} // verus!
