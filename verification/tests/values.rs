use ipc_stream::char_vec::CharVec;
use ipc_stream::model::Field;
use ipc_stream::model::RecordBatch;
use ipc_stream::model::Schema;
use ipc_stream::model::ArrayData;
use ipc_stream::model::ColumnType;
use ipc_stream::model::array_data_eq;
use ipc_stream::model::clone_array;
use ipc_stream::model::type_eq;

#[test]
fn char_vec_keeps_entries_and_missing_values() {
    let mut cv = CharVec::new();
    assert_eq!(cv.len(), 0);
    cv.push(Some(String::from("hello")));
    cv.push(None);
    cv.push(Some(String::from("world")));
    assert_eq!(cv.len(), 3);
    assert_eq!(cv.get(0), &Some(String::from("hello")));
    assert_eq!(cv.get(1), &None);
    let items = cv.into_items();
    assert_eq!(
        items,
        vec![Some(String::from("hello")), None, Some(String::from("world"))]
    );
}

#[test]
fn char_vec_wraps_a_given_list() {
    let cv = CharVec::from_items(vec![None, Some(String::from("a"))]);
    assert_eq!(cv.len(), 2);
}

fn sample_array() -> ArrayData {
    ArrayData {
        dtype: ColumnType::List { item: Box::new(ColumnType::Primitive { byte_width: 2 }) },
        row_count: 2,
        null_count: 1,
        validity: Some(vec![0b01u8]),
        buffers: vec![vec![0, 0, 0, 0, 1, 0, 0, 0, 3, 0, 0, 0]],
        children: vec![ArrayData {
            dtype: ColumnType::Primitive { byte_width: 2 },
            row_count: 3,
            null_count: 0,
            validity: None,
            buffers: vec![vec![1, 0, 2, 0, 3, 0]],
            children: Vec::new(),
        }],
    }
}

#[test]
fn array_data_eq_is_structural_and_deep() {
    let a = sample_array();
    let b = clone_array(&a);
    assert!(array_data_eq(&a, &b));
    let mut c = clone_array(&a);
    c.children[0].buffers[0][0] = 9;
    assert!(!array_data_eq(&a, &c));
    let mut d = clone_array(&a);
    d.null_count = 0;
    assert!(!array_data_eq(&a, &d));
}

#[test]
fn type_eq_compares_nested_types() {
    let t1 = ColumnType::Struct {
        fields: vec![ipc_stream::model::Field {
            name: b"inner".to_vec(),
            dtype: ColumnType::Primitive { byte_width: 8 },
            nullable: true,
        }],
    };
    let t2 = ColumnType::Struct {
        fields: vec![ipc_stream::model::Field {
            name: b"inner".to_vec(),
            dtype: ColumnType::Primitive { byte_width: 8 },
            nullable: true,
        }],
    };
    let t3 = ColumnType::Struct {
        fields: vec![ipc_stream::model::Field {
            name: b"inner".to_vec(),
            dtype: ColumnType::Primitive { byte_width: 4 },
            nullable: true,
        }],
    };
    assert!(type_eq(&t1, &t2));
    assert!(!type_eq(&t1, &t3));
}

#[test]
fn nested_struct_column_flattens_children_depth_first() {
    let inner = ArrayData {
        dtype: ColumnType::Primitive { byte_width: 1 },
        row_count: 2,
        null_count: 0,
        validity: None,
        buffers: vec![vec![5, 6]],
        children: Vec::new(),
    };
    let outer = ArrayData {
        dtype: ColumnType::Struct {
            fields: vec![Field {
                name: b"i".to_vec(),
                dtype: ColumnType::Primitive { byte_width: 1 },
                nullable: false,
            }],
        },
        row_count: 2,
        null_count: 0,
        validity: None,
        buffers: Vec::new(),
        children: vec![inner],
    };
    let batch = RecordBatch {
        schema: Schema {
            fields: vec![Field {
                name: b"s".to_vec(),
                dtype: ColumnType::Struct {
                    fields: vec![Field {
                        name: b"i".to_vec(),
                        dtype: ColumnType::Primitive { byte_width: 1 },
                        nullable: false,
                    }],
                },
                nullable: false,
            }],
        },
        row_count: 2,
        columns: vec![outer],
    };
    let mut tracker = ipc_stream::tracker::DictionaryTracker::new();
    let (dicts, msg) = ipc_stream::stream::encode_batch(&batch, &mut tracker).unwrap();
    assert!(dicts.is_empty());
    // body: struct validity bitmap (8) + child validity bitmap (8) + child
    // values [5, 6] padded to 8
    assert_eq!(msg.body_data.len(), 24);
    assert_eq!(msg.body_data[0], 0xff);
    assert_eq!(msg.body_data[8], 0xff);
    assert_eq!(&msg.body_data[16..18], &[5u8, 6]);
}
