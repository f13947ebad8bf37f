use rarmdb::btree_node::BTreeNode;
use rarmdb::column_definition::ColumnDefinition;
use rarmdb::constraint::Constraint;
use rarmdb::data_value::DataValue;
use rarmdb::key::Key;
use rarmdb::leaf_node_view::LeafNodeView;
use rarmdb::order::ValueOrder;
use rarmdb::page::PageType;
use rarmdb::page_id::{PageId, PAGE_SIZE};
use rarmdb::primitive_data_type::PrimitiveDataType;
use rarmdb::record::Record;
use rarmdb::record_serializer::RecordSerializer;
use rarmdb::slotted_page_view::SlottedPageView;
use rarmdb::storage_error::StorageError;
use rarmdb::table_definition::TableDefinition;

fn users_schema(name_type: PrimitiveDataType, name_col: &str) -> TableDefinition {
    let mut schema = TableDefinition::new("users".to_string()).unwrap();
    schema.add_column(ColumnDefinition::new("id".to_string(), PrimitiveDataType::Int, false, None).unwrap());
    schema.add_column(ColumnDefinition::new(name_col.to_string(), name_type, false, None).unwrap());
    schema.add_constraint(Constraint::primary_key("pk".to_string(), vec!["id".to_string()]).unwrap());
    schema
}

fn rec(id: i32, name: &str) -> Record {
    Record::from_values(vec![DataValue::Int(id), DataValue::Text(name.to_string())])
}

fn keys_of(view: &LeafNodeView, schema: &TableDefinition) -> Vec<Key> {
    let mut keys = Vec::new();
    for i in 0..view.page_view.get_item_count() {
        let record_bytes = view.page_view.get_record(i).unwrap();
        keys.push(RecordSerializer::deserialize_primary_key(schema, record_bytes).unwrap());
    }
    keys
}

#[test]
fn btree_node_test_btree_node_dispatch() {
    let mut buffer = [0u8; PAGE_SIZE];
    let mut page_view = SlottedPageView::new(&mut buffer);
    page_view.initialize(PageType::LeafNode, None);

    let node = BTreeNode::new(PageId::new(0, 0), page_view);

    match node {
        BTreeNode::Leaf(_) => {}
        _ => panic!("Expected LeafNode variant"),
    }
}

#[test]
fn btree_node_test_leaf_node_binary_search() {
    let schema = users_schema(PrimitiveDataType::Varchar(50), "name");

    let mut buffer = [0u8; PAGE_SIZE];
    let mut page_view = SlottedPageView::new(&mut buffer);
    page_view.initialize(PageType::LeafNode, None);

    let rec0 = RecordSerializer::serialize(&schema.columns, &rec(10, "Alice")).unwrap();
    page_view.try_insert_record(0, &rec0).unwrap();
    let rec1 = RecordSerializer::serialize(&schema.columns, &rec(30, "Bob")).unwrap();
    page_view.try_insert_record(1, &rec1).unwrap();

    let node = BTreeNode::new(PageId::new(0, 0), page_view);

    if let BTreeNode::Leaf(leaf_view) = node {
        let key_30 = Key::from_value(DataValue::Int(30));
        assert_eq!(Ok(1), leaf_view.find_key(&key_30, &schema), "Should find key 30 at index 1");

        let key_20 = Key::from_value(DataValue::Int(20));
        assert_eq!(Err(1), leaf_view.find_key(&key_20, &schema), "Key 20 should be inserted at index 1");

        let key_5 = Key::from_value(DataValue::Int(5));
        assert_eq!(Err(0), leaf_view.find_key(&key_5, &schema), "Key 5 should be inserted at index 0");

        let key_100 = Key::from_value(DataValue::Int(100));
        assert_eq!(Err(2), leaf_view.find_key(&key_100, &schema), "Key 100 should be inserted at index 2");
    } else {
        panic!("Node should be a Leaf");
    }
}

#[test]
fn btree_node_test_leaf_node_insert_record() {
    let schema = users_schema(PrimitiveDataType::Varchar(50), "name");

    let mut buffer = [0u8; PAGE_SIZE];
    let mut page_view = SlottedPageView::new(&mut buffer);
    page_view.initialize(PageType::LeafNode, None);
    let mut node = BTreeNode::new(PageId::new(0, 0), page_view);

    if let BTreeNode::Leaf(ref mut leaf_view) = node {
        leaf_view.insert_record(&rec(30, "Bob"), &schema).expect("Insert 30 should succeed");
        leaf_view.insert_record(&rec(10, "Alice"), &schema).expect("Insert 10 should succeed");
        leaf_view.insert_record(&rec(20, "Charlie"), &schema).expect("Insert 20 should succeed");

        assert_eq!(3, leaf_view.page_view.get_item_count());

        let val0 = leaf_view.page_view.get_record(0).unwrap();
        let key0 = RecordSerializer::deserialize_primary_key(&schema, val0).unwrap();
        assert_eq!(Key::from_value(DataValue::Int(10)), key0);

        let val1 = leaf_view.page_view.get_record(1).unwrap();
        let key1 = RecordSerializer::deserialize_primary_key(&schema, val1).unwrap();
        assert_eq!(Key::from_value(DataValue::Int(20)), key1);

        let val2 = leaf_view.page_view.get_record(2).unwrap();
        let key2 = RecordSerializer::deserialize_primary_key(&schema, val2).unwrap();
        assert_eq!(Key::from_value(DataValue::Int(30)), key2);

        let result = leaf_view.insert_record(&rec(20, "Clone"), &schema);
        assert!(matches!(result, Err(StorageError::DuplicateKey)));
    } else {
        panic!("Node should be a Leaf");
    }
}

#[test]
fn btree_node_test_leaf_node_insert_page_full() {
    let schema = users_schema(PrimitiveDataType::Varchar(8000), "bio");

    let mut buffer = [0u8; PAGE_SIZE];
    let mut page_view = SlottedPageView::new(&mut buffer);
    page_view.initialize(PageType::LeafNode, None);
    let mut node = BTreeNode::new(PageId::new(0, 0), page_view);

    if let BTreeNode::Leaf(ref mut leaf_view) = node {
        let giant_bio = "X".repeat(8100);
        let giant_record = Record::from_values(vec![DataValue::Int(1), DataValue::Text(giant_bio)]);
        leaf_view.insert_record(&giant_record, &schema).expect("Giant record should fit on empty page");

        let small_record = Record::from_values(vec![DataValue::Int(2), DataValue::Text("Y".repeat(50))]);
        let result = leaf_view.insert_record(&small_record, &schema);
        assert!(
            matches!(result, Err(StorageError::PageFull)),
            "Expected PageFull error when inserting into a saturated leaf node"
        );
    } else {
        panic!("Node should be a Leaf");
    }
}

#[test]
fn test_leaf_node_update_record() {
    let schema = users_schema(PrimitiveDataType::Varchar(50), "name");

    let mut buffer = [0u8; PAGE_SIZE];
    let mut page_view = SlottedPageView::new(&mut buffer);
    page_view.initialize(PageType::LeafNode, None);
    let mut node = BTreeNode::new(PageId::new(0, 0), page_view);

    if let BTreeNode::Leaf(ref mut leaf_view) = node {
        leaf_view.insert_record(&rec(10, "Alice"), &schema).expect("Initial insert should succeed");
        leaf_view.update_record(&rec(10, "Alicia"), &schema).expect("Update should succeed");

        assert_eq!(1, leaf_view.page_view.get_item_count());
        let val = leaf_view.page_view.get_record(0).unwrap();
        let record = RecordSerializer::deserialize(&schema.columns, val).unwrap();
        assert_eq!(Some(&DataValue::Text("Alicia".to_string())), record.get(1), "Name should be updated to 'Alicia'");
    } else {
        panic!("Node should be a Leaf");
    }
}

#[test]
fn test_leaf_node_update_record_not_found() {
    let schema = users_schema(PrimitiveDataType::Varchar(50), "name");

    let mut buffer = [0u8; PAGE_SIZE];
    let mut page_view = SlottedPageView::new(&mut buffer);
    page_view.initialize(PageType::LeafNode, None);
    let mut node = BTreeNode::new(PageId::new(0, 0), page_view);

    if let BTreeNode::Leaf(ref mut leaf_view) = node {
        leaf_view.insert_record(&rec(10, "Alice"), &schema).expect("Initial insert should succeed");
        let result = leaf_view.update_record(&rec(20, "Bob"), &schema);
        assert!(
            matches!(result, Err(StorageError::KeyNotFound)),
            "Expected KeyNotFound error when updating a non-existent record"
        );
    } else {
        panic!("Node should be a Leaf");
    }
}

#[test]
fn test_leaf_node_split_and_insert_with_right_sibling() {
    let schema = users_schema(PrimitiveDataType::Varchar(50), "name");

    let left_id = PageId { table_id: 1, page_index: 10 };
    let right_id = PageId { table_id: 1, page_index: 11 };
    let orig_right_id = PageId { table_id: 1, page_index: 12 };

    let mut left_buffer = [0u8; PAGE_SIZE];
    let mut right_buffer = [0u8; PAGE_SIZE];
    let mut orig_right_buffer = [0u8; PAGE_SIZE];

    let mut left_pv = SlottedPageView::new(&mut left_buffer);
    left_pv.initialize(PageType::LeafNode, None);
    let mut left_view = LeafNodeView::new(left_id, left_pv);

    let mut right_pv = SlottedPageView::new(&mut right_buffer);
    right_pv.initialize(PageType::LeafNode, None);
    let mut right_view = LeafNodeView::new(right_id, right_pv);

    let mut orig_right_pv = SlottedPageView::new(&mut orig_right_buffer);
    orig_right_pv.initialize(PageType::LeafNode, None);
    let mut original_right_view = LeafNodeView::new(orig_right_id, orig_right_pv);

    left_view.set_next_leaf_index(Some(orig_right_id.page_index));
    original_right_view.set_prev_leaf_index(Some(left_id.page_index));

    left_view.insert_record(&rec(10, "Alice"), &schema).unwrap();
    left_view.insert_record(&rec(20, "Bob"), &schema).unwrap();
    left_view.insert_record(&rec(30, "Charlie"), &schema).unwrap();
    left_view.insert_record(&rec(40, "David"), &schema).unwrap();

    original_right_view.insert_record(&rec(50, "Eve"), &schema).unwrap();
    original_right_view.insert_record(&rec(60, "Frank"), &schema).unwrap();

    let rec25 = rec(25, "Grace");

    let separator_key = left_view
        .split_and_insert(&rec25, &mut right_view, Some(&mut original_right_view), &schema)
        .expect("Split and insert should succeed");

    assert_eq!(left_view.get_next_leaf_index(), Some(right_id.page_index), "Left should now point to new Right sibling page index");
    assert_eq!(left_view.get_prev_leaf_index(), None, "Left prev pointer should remain None");
    assert_eq!(right_view.get_prev_leaf_index(), Some(left_id.page_index), "New Right sibling prev should point to Left page index");
    assert_eq!(
        right_view.get_next_leaf_index(),
        Some(orig_right_id.page_index),
        "New Right sibling next should point to Original Right page index"
    );
    assert_eq!(
        original_right_view.get_prev_leaf_index(),
        Some(right_id.page_index),
        "Original Right prev should now point to new Right sibling page index"
    );

    let left_keys = keys_of(&left_view, &schema);
    let right_keys = keys_of(&right_view, &schema);

    if let (Some(max_left), Some(min_right)) = (left_keys.last(), right_keys.first()) {
        assert!(max_left.compare(min_right) == ValueOrder::Less, "Records were not correctly partitioned across split");
    } else {
        panic!("Both split nodes must have at least one record post-split");
    }

    let mut all_keys = Vec::new();
    all_keys.extend(left_keys);
    all_keys.extend(right_keys.clone());

    let expected_keys = vec![
        Key::from_value(DataValue::Int(10)),
        Key::from_value(DataValue::Int(20)),
        Key::from_value(DataValue::Int(25)),
        Key::from_value(DataValue::Int(30)),
        Key::from_value(DataValue::Int(40)),
    ];
    assert_eq!(expected_keys, all_keys);

    assert_eq!(
        right_keys[0], separator_key,
        "The returned separator key must match the first key of the newly split right sibling"
    );
}

#[test]
fn test_leaf_node_split_and_insert_no_right_sibling() {
    let schema = users_schema(PrimitiveDataType::Varchar(50), "name");

    let left_id = PageId { table_id: 1, page_index: 10 };
    let right_id = PageId { table_id: 1, page_index: 11 };

    let mut left_buffer = [0u8; PAGE_SIZE];
    let mut right_buffer = [0u8; PAGE_SIZE];

    let mut left_pv = SlottedPageView::new(&mut left_buffer);
    left_pv.initialize(PageType::LeafNode, None);
    let mut left_view = LeafNodeView::new(left_id, left_pv);

    let mut right_pv = SlottedPageView::new(&mut right_buffer);
    right_pv.initialize(PageType::LeafNode, None);
    let mut right_view = LeafNodeView::new(right_id, right_pv);

    left_view.set_next_leaf_index(None);

    left_view.insert_record(&rec(10, "Alice"), &schema).unwrap();
    left_view.insert_record(&rec(20, "Bob"), &schema).unwrap();
    left_view.insert_record(&rec(30, "Charlie"), &schema).unwrap();
    left_view.insert_record(&rec(40, "David"), &schema).unwrap();

    let rec25 = rec(25, "Grace");

    let separator_key = left_view
        .split_and_insert(&rec25, &mut right_view, None, &schema)
        .expect("Split and insert should succeed");

    assert_eq!(left_view.get_next_leaf_index(), Some(right_id.page_index));
    assert_eq!(left_view.get_prev_leaf_index(), None);
    assert_eq!(right_view.get_prev_leaf_index(), Some(left_id.page_index));
    assert_eq!(right_view.get_next_leaf_index(), None);

    let right_keys = keys_of(&right_view, &schema);
    assert_eq!(
        right_keys[0], separator_key,
        "The returned separator key must match the first key of the newly split right sibling"
    );
}

#[test]
fn split_into_non_empty_right_sibling_is_refused() {
    let schema = users_schema(PrimitiveDataType::Varchar(50), "name");
    let mut left_buffer = [0u8; PAGE_SIZE];
    let mut right_buffer = [0u8; PAGE_SIZE];
    let mut left_pv = SlottedPageView::new(&mut left_buffer);
    left_pv.initialize(PageType::LeafNode, None);
    let mut left_view = LeafNodeView::new(PageId::new(1, 1), left_pv);
    let mut right_pv = SlottedPageView::new(&mut right_buffer);
    right_pv.initialize(PageType::LeafNode, None);
    let mut right_view = LeafNodeView::new(PageId::new(1, 2), right_pv);

    left_view.insert_record(&rec(10, "Alice"), &schema).unwrap();
    right_view.insert_record(&rec(90, "Zed"), &schema).unwrap();

    let result = left_view.split_and_insert(&rec(20, "Bob"), &mut right_view, None, &schema);
    assert!(matches!(result, Err(StorageError::NewRightSiblingNotEmpty)));
    assert_eq!(1, left_view.get_item_count());
    assert_eq!(1, right_view.get_item_count());
}

#[test]
fn split_of_single_record_puts_smaller_key_left() {
    let schema = users_schema(PrimitiveDataType::Varchar(50), "name");
    let mut left_buffer = [0u8; PAGE_SIZE];
    let mut right_buffer = [0u8; PAGE_SIZE];
    let mut left_pv = SlottedPageView::new(&mut left_buffer);
    left_pv.initialize(PageType::LeafNode, Some(7));
    let mut left_view = LeafNodeView::new(PageId::new(1, 3), left_pv);
    let mut right_pv = SlottedPageView::new(&mut right_buffer);
    right_pv.initialize(PageType::LeafNode, None);
    let mut right_view = LeafNodeView::new(PageId::new(1, 4), right_pv);

    left_view.insert_record(&rec(50, "Mid"), &schema).unwrap();
    left_view.set_prev_leaf_index(Some(2));
    let parent_before = left_view.page_view.get_page_header_u32_value(8);
    assert_eq!(7, parent_before);
    let sep = left_view.split_and_insert(&rec(5, "Low"), &mut right_view, None, &schema).unwrap();

    let left_keys = keys_of(&left_view, &schema);
    let right_keys = keys_of(&right_view, &schema);
    assert_eq!(left_keys.len() + right_keys.len(), 2);
    assert_eq!(right_keys[0], sep);
    assert_eq!(parent_before, left_view.page_view.get_page_header_u32_value(8));
    assert_eq!(Some(2), left_view.get_prev_leaf_index());
    assert_eq!(1, left_keys.len(), "each half keeps one record");
}

#[test]
fn leaf_append_adds_after_last_slot() {
    let mut buffer = [0u8; PAGE_SIZE];
    let mut pv = SlottedPageView::new(&mut buffer);
    pv.initialize(PageType::LeafNode, None);
    let mut leaf = LeafNodeView::new(PageId::new(0, 0), pv);
    assert_eq!(Ok(0), leaf.append(b"abc"));
    assert_eq!(Ok(1), leaf.append(b"de"));
    assert_eq!(2, leaf.get_item_count());
    assert_eq!(Some(&b"de"[..]), leaf.page_view.get_record(1));
    assert_eq!(Ok(0), leaf.insert_raw_record(0, b"z"));
    assert_eq!(Some(&b"z"[..]), leaf.page_view.get_record(0));
    assert_eq!(Err(StorageError::InvalidSlotIndex), leaf.insert_raw_record(9, b"q"));
}

#[test]
fn leaf_links_can_be_set_and_cleared() {
    let mut buffer = [0u8; PAGE_SIZE];
    let mut pv = SlottedPageView::new(&mut buffer);
    pv.initialize(PageType::LeafNode, None);
    let mut leaf = LeafNodeView::new(PageId::new(0, 0), pv);
    // A fresh page has no previous sibling; its next link reads zero until it is set.
    assert_eq!(Some(0), leaf.get_next_leaf_index());
    assert_eq!(None, leaf.get_prev_leaf_index());
    leaf.set_next_leaf_index(Some(4));
    leaf.set_prev_leaf_index(Some(2));
    assert_eq!(Some(4), leaf.get_next_leaf_index());
    assert_eq!(Some(2), leaf.get_prev_leaf_index());
    leaf.set_next_leaf_index(None);
    assert_eq!(None, leaf.get_next_leaf_index());
    assert_eq!(Some(2), leaf.get_prev_leaf_index());
}

#[test]
fn parent_index_survives_sibling_links() {
    let mut buffer = [0u8; PAGE_SIZE];
    let mut pv = SlottedPageView::new(&mut buffer);
    pv.initialize(PageType::LeafNode, Some(41));
    let mut leaf = LeafNodeView::new(PageId::new(0, 3), pv);
    assert_eq!(None, leaf.get_prev_leaf_index());
    assert_eq!(Some(0), leaf.get_next_leaf_index());
    leaf.set_prev_leaf_index(Some(9));
    leaf.set_next_leaf_index(Some(10));
    assert_eq!(41, leaf.page_view.get_page_header_u32_value(8));
    leaf.set_prev_leaf_index(None);
    assert_eq!(41, leaf.page_view.get_page_header_u32_value(8));
    assert_eq!(Some(10), leaf.get_next_leaf_index());
}

#[test]
fn split_of_one_record_with_larger_new_key_keeps_both_halves() {
    let schema = users_schema(PrimitiveDataType::Varchar(50), "name");
    let mut left_buffer = [0u8; PAGE_SIZE];
    let mut right_buffer = [0u8; PAGE_SIZE];
    let mut left_pv = SlottedPageView::new(&mut left_buffer);
    left_pv.initialize(PageType::LeafNode, None);
    let mut left_view = LeafNodeView::new(PageId::new(1, 5), left_pv);
    let mut right_pv = SlottedPageView::new(&mut right_buffer);
    right_pv.initialize(PageType::LeafNode, None);
    let mut right_view = LeafNodeView::new(PageId::new(1, 6), right_pv);

    left_view.insert_record(&rec(10, "Al"), &schema).unwrap();
    let sep = left_view.split_and_insert(&rec(20, "Bobby"), &mut right_view, None, &schema).unwrap();
    let left_keys = keys_of(&left_view, &schema);
    let right_keys = keys_of(&right_view, &schema);
    assert_eq!(vec![Key::from_value(DataValue::Int(10))], left_keys);
    assert_eq!(vec![Key::from_value(DataValue::Int(20))], right_keys);
    assert_eq!(Key::from_value(DataValue::Int(20)), sep);
}

#[test]
fn refused_split_leaves_old_right_sibling_alone() {
    let schema = users_schema(PrimitiveDataType::Varchar(50), "name");
    let mut a = [0u8; PAGE_SIZE];
    let mut b = [0u8; PAGE_SIZE];
    let mut c = [0u8; PAGE_SIZE];
    let mut pa = SlottedPageView::new(&mut a);
    pa.initialize(PageType::LeafNode, None);
    let mut left = LeafNodeView::new(PageId::new(1, 1), pa);
    let mut pb = SlottedPageView::new(&mut b);
    pb.initialize(PageType::LeafNode, None);
    let mut right = LeafNodeView::new(PageId::new(1, 2), pb);
    let mut pc = SlottedPageView::new(&mut c);
    pc.initialize(PageType::LeafNode, None);
    let mut old_right = LeafNodeView::new(PageId::new(1, 3), pc);
    old_right.set_prev_leaf_index(Some(1));
    right.insert_record(&rec(5, "x"), &schema).unwrap();
    let result = left.split_and_insert(&rec(1, "y"), &mut right, Some(&mut old_right), &schema);
    assert!(matches!(result, Err(StorageError::NewRightSiblingNotEmpty)));
    assert_eq!(Some(1), old_right.get_prev_leaf_index());
}
