//! The columnar data model: logical types, fields, schemas, arrays and
//! record batches, together with the structural equalities and consistency
//! conditions that the encoder's contracts are stated over.

use vstd::prelude::*;

verus! {

broadcast use vstd::seq::group_seq_axioms, vstd::std_specs::vec::group_vec_axioms;

/// A logical column type: primitive, list, struct, or
/// dictionary-of(key type, value type).  A dictionary type carries the
/// identifier under which its values are transmitted.
pub enum ColumnType {
    /// The null type: every row is null and no buffers are written.
    Null,
    /// A fixed-width primitive value of the given width in bytes.
    Primitive { byte_width: u8 },
    /// A variable-length list of `item` values.
    List { item: Box<ColumnType> },
    /// A nested group of named child fields.
    Struct { fields: Vec<Field> },
    /// Small integer keys of `key` type indexing into a separately
    /// transmitted values array of `value` type, identified by `dict_id`.
    Dictionary { dict_id: i64, key: Box<ColumnType>, value: Box<ColumnType> },
}

/// One schema entry: a name (in bytes), a logical type, and nullability.
pub struct Field {
    pub name: Vec<u8>,
    pub dtype: ColumnType,
    pub nullable: bool,
}

/// An ordered field list describing the columns of every batch in a stream.
pub struct Schema {
    pub fields: Vec<Field>,
}

/// One array's data: its row and null counts, an optional validity bitmap
/// (one bit per row, 1 = valid; absent means no nulls), its value buffers,
/// and its child arrays for nested types.
///
/// For a dictionary-typed array the value buffers hold the *indices*, and the
/// single child holds the dictionary's value array; the child is transmitted
/// through dictionary batches, never inside a record batch.
pub struct ArrayData {
    pub dtype: ColumnType,
    pub row_count: usize,
    pub null_count: usize,
    pub validity: Option<Vec<u8>>,
    pub buffers: Vec<Vec<u8>>,
    pub children: Vec<ArrayData>,
}

/// A fixed-row-count, multi-column unit of data sharing one schema.
pub struct RecordBatch {
    pub schema: Schema,
    pub row_count: usize,
    pub columns: Vec<ArrayData>,
}

/// Whether two logical types describe the same type, structurally.
pub open spec fn type_same(a: ColumnType, b: ColumnType) -> bool
    decreases a,
{
    match a {
        ColumnType::Null => b is Null,
        ColumnType::Primitive { byte_width: w1 } => b matches ColumnType::Primitive {
            byte_width: w2,
        } && w1 == w2,
        ColumnType::List { item: i1 } => b matches ColumnType::List { item: i2 } && type_same(
            *i1,
            *i2,
        ),
        ColumnType::Struct { fields: f1 } => b matches ColumnType::Struct { fields: f2 } && f1@.len()
            == f2@.len() && (forall|i: int|
            0 <= i < f1@.len() ==> field_same(#[trigger] f1@[i], f2@[i])),
        ColumnType::Dictionary { dict_id: d1, key: k1, value: v1 } => b matches ColumnType::Dictionary {
            dict_id: d2,
            key: k2,
            value: v2,
        } && d1 == d2 && type_same(*k1, *k2) && type_same(*v1, *v2),
    }
}

/// Whether two fields agree in name, nullability and type.
pub open spec fn field_same(a: Field, b: Field) -> bool
    decreases a,
{
    a.name@ == b.name@ && a.nullable == b.nullable && type_same(a.dtype, b.dtype)
}

/// Whether two arrays hold byte-identical data: same type, counts, validity
/// bitmap, value buffers and children.
pub open spec fn array_same(a: ArrayData, b: ArrayData) -> bool
    decreases a,
{
    &&& type_same(a.dtype, b.dtype)
    &&& a.row_count == b.row_count
    &&& a.null_count == b.null_count
    &&& match a.validity {
        Some(v1) => b.validity matches Some(v2) && v1@ == v2@,
        None => b.validity is None,
    }
    &&& a.buffers@.len() == b.buffers@.len()
    &&& (forall|i: int| 0 <= i < a.buffers@.len() ==> (#[trigger] a.buffers@[i])@ == b.buffers@[i]@)
    &&& a.children@.len() == b.children@.len()
    &&& (forall|i: int|
        0 <= i < a.children@.len() ==> array_same(#[trigger] a.children@[i], b.children@[i]))
}

pub proof fn lemma_type_same_refl(a: ColumnType)
    ensures
        type_same(a, a),
    decreases a,
{
    match a {
        ColumnType::Struct { fields: f1 } => {
            assert forall|i: int| 0 <= i < f1@.len() implies field_same(#[trigger] f1@[i], f1@[i]) by {
                lemma_type_same_refl(f1@[i].dtype);
            }
        },
        ColumnType::List { item: i1 } => {
            lemma_type_same_refl(*i1);
        },
        ColumnType::Dictionary { dict_id: _, key: k1, value: v1 } => {
            lemma_type_same_refl(*k1);
            lemma_type_same_refl(*v1);
        },
        _ => {},
    }
}

pub proof fn lemma_array_same_refl(a: ArrayData)
    ensures
        array_same(a, a),
    decreases a,
{
    lemma_type_same_refl(a.dtype);
    assert forall|i: int| 0 <= i < a.children@.len() implies array_same(
        #[trigger] a.children@[i],
        a.children@[i],
    ) by {
        lemma_array_same_refl(a.children@[i]);
    }
}

pub proof fn lemma_type_same_sym(a: ColumnType, b: ColumnType)
    requires
        type_same(a, b),
    ensures
        type_same(b, a),
    decreases a,
{
    match a {
        ColumnType::Struct { fields: f1 } => {
            let f2 = b->Struct_fields;
            assert forall|i: int| 0 <= i < f2@.len() implies field_same(#[trigger] f2@[i], f1@[i]) by {
                assert(field_same(f1@[i], f2@[i]));
                lemma_type_same_sym(f1@[i].dtype, f2@[i].dtype);
            }
        },
        ColumnType::List { item: i1 } => {
            lemma_type_same_sym(*i1, *b->List_item);
        },
        ColumnType::Dictionary { dict_id: _, key: k1, value: v1 } => {
            lemma_type_same_sym(*k1, *b->Dictionary_key);
            lemma_type_same_sym(*v1, *b->Dictionary_value);
        },
        _ => {},
    }
}

pub proof fn lemma_array_same_sym(a: ArrayData, b: ArrayData)
    requires
        array_same(a, b),
    ensures
        array_same(b, a),
    decreases a,
{
    lemma_type_same_sym(a.dtype, b.dtype);
    assert forall|i: int| 0 <= i < b.children@.len() implies array_same(
        #[trigger] b.children@[i],
        a.children@[i],
    ) by {
        assert(array_same(a.children@[i], b.children@[i]));
        lemma_array_same_sym(a.children@[i], b.children@[i]);
    }
}

pub proof fn lemma_type_same_trans(a: ColumnType, b: ColumnType, c: ColumnType)
    requires
        type_same(a, b),
        type_same(b, c),
    ensures
        type_same(a, c),
    decreases a,
{
    match a {
        ColumnType::Struct { fields: f1 } => {
            let f2 = b->Struct_fields;
            let f3 = c->Struct_fields;
            assert forall|i: int| 0 <= i < f1@.len() implies field_same(#[trigger] f1@[i], f3@[i]) by {
                assert(field_same(f1@[i], f2@[i]));
                assert(field_same(f2@[i], f3@[i]));
                lemma_type_same_trans(f1@[i].dtype, f2@[i].dtype, f3@[i].dtype);
            }
        },
        ColumnType::List { item: i1 } => {
            lemma_type_same_trans(*i1, *b->List_item, *c->List_item);
        },
        ColumnType::Dictionary { dict_id: _, key: k1, value: v1 } => {
            lemma_type_same_trans(*k1, *b->Dictionary_key, *c->Dictionary_key);
            lemma_type_same_trans(*v1, *b->Dictionary_value, *c->Dictionary_value);
        },
        _ => {},
    }
}

pub proof fn lemma_array_same_trans(a: ArrayData, b: ArrayData, c: ArrayData)
    requires
        array_same(a, b),
        array_same(b, c),
    ensures
        array_same(a, c),
    decreases a,
{
    lemma_type_same_trans(a.dtype, b.dtype, c.dtype);
    assert forall|i: int| 0 <= i < a.children@.len() implies array_same(
        #[trigger] a.children@[i],
        c.children@[i],
    ) by {
        assert(array_same(a.children@[i], b.children@[i]));
        assert(array_same(b.children@[i], c.children@[i]));
        lemma_array_same_trans(a.children@[i], b.children@[i], c.children@[i]);
    }
}

/// The identifier under which a dictionary-typed column's values travel.
pub open spec fn dict_id_of(t: ColumnType) -> i64 {
    match t {
        ColumnType::Dictionary { dict_id, .. } => dict_id,
        _ => 0,
    }
}

/// The value array carried by a dictionary-typed column.
pub open spec fn dict_values(c: ArrayData) -> ArrayData {
    c.children@[0]
}

/// Whether an array's declared counts and buffers are internally consistent:
/// the null count does not exceed the row count, a present validity bitmap
/// covers every row, a dictionary array carries exactly its value array as a
/// child, and every child transmitted with the array is itself consistent.
pub open spec fn array_consistent(a: ArrayData) -> bool
    decreases a,
{
    &&& a.null_count <= a.row_count
    &&& match a.validity {
        Some(v) => v@.len() * 8 >= a.row_count,
        None => true,
    }
    &&& (a.dtype is Dictionary ==> a.children@.len() == 1)
    &&& (!(a.dtype is Dictionary) ==> forall|i: int|
        0 <= i < a.children@.len() ==> array_consistent(#[trigger] a.children@[i]))
}

/// Whether an array's counts fit the signed 64-bit numeric fields of the
/// wire metadata.
pub open spec fn array_fits(a: ArrayData) -> bool
    decreases a,
{
    &&& a.row_count <= i64::MAX
    &&& (!(a.dtype is Dictionary) ==> forall|i: int|
        0 <= i < a.children@.len() ==> array_fits(#[trigger] a.children@[i]))
}

/// Whether a type's field counts fit the signed 64-bit numeric fields of the
/// wire metadata.
pub open spec fn type_fits(t: ColumnType) -> bool
    decreases t,
{
    match t {
        ColumnType::Null => true,
        ColumnType::Primitive { .. } => true,
        ColumnType::List { item } => type_fits(*item),
        ColumnType::Struct { fields } => fields@.len() <= i64::MAX && (forall|i: int|
            0 <= i < fields@.len() ==> field_fits(#[trigger] fields@[i])),
        ColumnType::Dictionary { dict_id: _, key, value } => type_fits(*key) && type_fits(*value),
    }
}

/// Whether a field's name length and type fit the wire metadata.
pub open spec fn field_fits(f: Field) -> bool
    decreases f,
{
    f.name@.len() <= i64::MAX && type_fits(f.dtype)
}

/// Whether a schema's counts fit the wire metadata.
pub open spec fn schema_fits(s: Schema) -> bool {
    s.fields@.len() <= i64::MAX && (forall|i: int|
        0 <= i < s.fields@.len() ==> field_fits(#[trigger] s.fields@[i]))
}

/// The record-batch invariant: one column per schema field, every column of
/// the batch's row count and of its field's type.
pub open spec fn batch_wf(b: RecordBatch) -> bool {
    &&& b.columns@.len() == b.schema.fields@.len()
    &&& (forall|i: int|
        0 <= i < b.columns@.len() ==> type_same(
            (#[trigger] b.columns@[i]).dtype,
            b.schema.fields@[i].dtype,
        ) && b.columns@[i].row_count == b.row_count)
}

/// Compares two byte vectors for equality.
#[verifier::loop_isolation(false)]
pub fn bytes_eq(a: &Vec<u8>, b: &Vec<u8>) -> (r: bool)
    ensures
        r == (a@ == b@),
{
    if a.len() != b.len() {
        return false;
    }
    let mut i: usize = 0;
    while i < a.len()
        invariant
            i <= a@.len(),
            a@.len() == b@.len(),
            forall|j: int| 0 <= j < i ==> a@[j] == b@[j],
        decreases a@.len() - i,
    {
        if a[i] != b[i] {
            return false;
        }
        i = i + 1;
    }
    proof {
        assert(a@ =~= b@);
    }
    true
}

/// Copies a byte vector.
#[verifier::loop_isolation(false)]
pub fn clone_bytes(v: &Vec<u8>) -> (r: Vec<u8>)
    ensures
        r@ == v@,
{
    let mut r: Vec<u8> = Vec::new();
    let mut i: usize = 0;
    while i < v.len()
        invariant
            i <= v@.len(),
            r@ == v@.subrange(0, i as int),
        decreases v@.len() - i,
    {
        r.push(v[i]);
        i = i + 1;
        proof {
            assert(r@ =~= v@.subrange(0, i as int));
        }
    }
    proof {
        assert(v@.subrange(0, v@.len() as int) =~= v@);
    }
    r
}

/// Compares two logical types structurally.
#[verifier::loop_isolation(false)]
pub fn type_eq(a: &ColumnType, b: &ColumnType) -> (r: bool)
    ensures
        r == type_same(*a, *b),
    decreases *a,
{
    match a {
        ColumnType::Null => matches!(b, ColumnType::Null),
        ColumnType::Primitive { byte_width: w1 } => {
            if let ColumnType::Primitive { byte_width: w2 } = b {
                *w1 == *w2
            } else {
                false
            }
        },
        ColumnType::List { item: i1 } => {
            if let ColumnType::List { item: i2 } = b {
                type_eq(i1, i2)
            } else {
                false
            }
        },
        ColumnType::Struct { fields: f1 } => {
            if let ColumnType::Struct { fields: f2 } = b {
                if f1.len() != f2.len() {
                    return false;
                }
                let mut i: usize = 0;
                while i < f1.len()
                    invariant
                        i <= f1@.len(),
                        f1@.len() == f2@.len(),
                        forall|j: int| 0 <= j < i ==> field_same(#[trigger] f1@[j], f2@[j]),
                    decreases f1@.len() - i,
                {
                    proof {
                        assert(decreases_to!(*a => *f1));
                        assert(decreases_to!(*f1 => f1@[i as int]));
                    }
                    if !field_eq(&f1[i], &f2[i]) {
                        return false;
                    }
                    i = i + 1;
                }
                true
            } else {
                false
            }
        },
        ColumnType::Dictionary { dict_id: d1, key: k1, value: v1 } => {
            if let ColumnType::Dictionary { dict_id: d2, key: k2, value: v2 } = b {
                *d1 == *d2 && type_eq(k1, k2) && type_eq(v1, v2)
            } else {
                false
            }
        },
    }
}

/// Compares two fields structurally.
pub fn field_eq(a: &Field, b: &Field) -> (r: bool)
    ensures
        r == field_same(*a, *b),
    decreases *a,
{
    bytes_eq(&a.name, &b.name) && a.nullable == b.nullable && type_eq(&a.dtype, &b.dtype)
}

/// Compares two arrays for byte-identical data.
#[verifier::loop_isolation(false)]
pub fn array_data_eq(a: &ArrayData, b: &ArrayData) -> (r: bool)
    ensures
        r == array_same(*a, *b),
    decreases *a,
{
    if !type_eq(&a.dtype, &b.dtype) {
        return false;
    }
    if a.row_count != b.row_count || a.null_count != b.null_count {
        return false;
    }
    let validity_ok: bool = match (&a.validity, &b.validity) {
        (Some(v1), Some(v2)) => bytes_eq(v1, v2),
        (None, None) => true,
        _ => false,
    };
    if !validity_ok {
        return false;
    }
    if a.buffers.len() != b.buffers.len() {
        return false;
    }
    let mut i: usize = 0;
    while i < a.buffers.len()
        invariant
            i <= a.buffers@.len(),
            a.buffers@.len() == b.buffers@.len(),
            forall|j: int| 0 <= j < i ==> (#[trigger] a.buffers@[j])@ == b.buffers@[j]@,
        decreases a.buffers@.len() - i,
    {
        if !bytes_eq(&a.buffers[i], &b.buffers[i]) {
            return false;
        }
        i = i + 1;
    }
    if a.children.len() != b.children.len() {
        return false;
    }
    let mut i: usize = 0;
    while i < a.children.len()
        invariant
            i <= a.children@.len(),
            a.children@.len() == b.children@.len(),
            forall|j: int| 0 <= j < i ==> array_same(#[trigger] a.children@[j], b.children@[j]),
        decreases a.children@.len() - i,
    {
        if !array_data_eq(&a.children[i], &b.children[i]) {
            return false;
        }
        i = i + 1;
    }
    true
}

/// Copies a logical type.
#[verifier::loop_isolation(false)]
pub fn clone_type(t: &ColumnType) -> (r: ColumnType)
    ensures
        type_same(r, *t),
    decreases *t,
{
    match t {
        ColumnType::Null => ColumnType::Null,
        ColumnType::Primitive { byte_width } => ColumnType::Primitive { byte_width: *byte_width },
        ColumnType::List { item } => ColumnType::List { item: Box::new(clone_type(item)) },
        ColumnType::Struct { fields } => {
            let mut out: Vec<Field> = Vec::new();
            let mut i: usize = 0;
            while i < fields.len()
                invariant
                    i <= fields@.len(),
                    out@.len() == i,
                    forall|j: int| 0 <= j < i ==> field_same(#[trigger] out@[j], fields@[j]),
                decreases fields@.len() - i,
            {
                proof {
                    assert(decreases_to!(*t => *fields));
                    assert(decreases_to!(*fields => fields@[i as int]));
                }
                let f = clone_field(&fields[i]);
                out.push(f);
                i = i + 1;
            }
            ColumnType::Struct { fields: out }
        },
        ColumnType::Dictionary { dict_id, key, value } => ColumnType::Dictionary {
            dict_id: *dict_id,
            key: Box::new(clone_type(key)),
            value: Box::new(clone_type(value)),
        },
    }
}

/// Copies a field.
pub fn clone_field(f: &Field) -> (r: Field)
    ensures
        field_same(r, *f),
    decreases *f,
{
    Field { name: clone_bytes(&f.name), dtype: clone_type(&f.dtype), nullable: f.nullable }
}

/// Copies an array and all of its children.
#[verifier::loop_isolation(false)]
pub fn clone_array(a: &ArrayData) -> (r: ArrayData)
    ensures
        array_same(r, *a),
    decreases *a,
{
    let validity: Option<Vec<u8>> = match &a.validity {
        Some(v) => Some(clone_bytes(v)),
        None => None,
    };
    let mut buffers: Vec<Vec<u8>> = Vec::new();
    let mut i: usize = 0;
    while i < a.buffers.len()
        invariant
            i <= a.buffers@.len(),
            buffers@.len() == i,
            forall|j: int| 0 <= j < i ==> (#[trigger] buffers@[j])@ == a.buffers@[j]@,
        decreases a.buffers@.len() - i,
    {
        let b = clone_bytes(&a.buffers[i]);
        buffers.push(b);
        i = i + 1;
    }
    let mut children: Vec<ArrayData> = Vec::new();
    let mut i: usize = 0;
    while i < a.children.len()
        invariant
            i <= a.children@.len(),
            children@.len() == i,
            forall|j: int| 0 <= j < i ==> array_same(#[trigger] children@[j], a.children@[j]),
        decreases a.children@.len() - i,
    {
        let c = clone_array(&a.children[i]);
        children.push(c);
        i = i + 1;
    }
    ArrayData {
        dtype: clone_type(&a.dtype),
        row_count: a.row_count,
        null_count: a.null_count,
        validity,
        buffers,
        children,
    }
}

} // verus!
