use rarmdb::page::{PageType, PAGE_HEADER_SIZE};
use rarmdb::page_id::PAGE_SIZE;
use rarmdb::slot::SLOT_SIZE;
use rarmdb::slotted_page_view::SlottedPageView;
use rarmdb::storage_error::StorageError;

#[test]
fn test_initialize_sets_correct_defaults() {
    let mut buffer = [0u8; PAGE_SIZE];
    let mut page = SlottedPageView::new(&mut buffer);

    page.initialize(PageType::LeafNode, None);

    assert_eq!(PageType::LeafNode, page.get_page_type());
    assert_eq!(0, page.get_item_count());

    assert_eq!(PAGE_SIZE as u16, page.get_data_start_offset());

    assert_eq!(
        PAGE_SIZE - PAGE_HEADER_SIZE,
        page.get_free_space_contiguous()
    );

    let mut buffer2 = [0u8; PAGE_SIZE];
    let mut page2 = SlottedPageView::new(&mut buffer2);

    page2.initialize(PageType::InternalNode, None);

    assert_eq!(PageType::InternalNode, page2.get_page_type());
}

#[test]
fn initialize_clears_every_byte_but_the_header_fields() {
    let mut buffer = [0xABu8; PAGE_SIZE];
    let mut page = SlottedPageView::new(&mut buffer);
    page.initialize(PageType::LeafNode, Some(7));
    assert_eq!(7, page.get_page_header_u32_value(8), "the parent index");
    assert_eq!(u32::MAX, page.get_page_header_u32_value(12), "no previous sibling");
    assert_eq!(0, page.get_page_header_u32_value(16), "the next link is left at zero");
    assert_eq!(0, page.get_item_count());
    assert_eq!(PAGE_SIZE as u16, page.get_data_start_offset());
    assert_eq!(PAGE_SIZE - PAGE_HEADER_SIZE, page.get_free_space());
    for k in (0..8).chain(20..22).chain(25..PAGE_SIZE) {
        assert_eq!(0, page.get_page_header_u8_value(k), "byte {} is cleared", k);
    }
}

#[test]
fn test_add_record_verify_buffer_directly() {
    let mut buffer = [0u8; PAGE_SIZE];
    let mut page = SlottedPageView::new(&mut buffer);
    page.initialize(PageType::LeafNode, None);

    let data = b"Hello Slotted Page";
    let data_len = data.len() as u16;

    page.try_insert_record(0, data)
        .expect("Should have room for record");

    assert_eq!(1, page.get_item_count());

    let slot0_start = PAGE_HEADER_SIZE;
    let actual_offset =
        u16::from_le_bytes(buffer[slot0_start..slot0_start + 2].try_into().unwrap());
    let actual_len =
        u16::from_le_bytes(buffer[slot0_start + 2..slot0_start + 4].try_into().unwrap());

    let expected_offset = (PAGE_SIZE - data.len()) as u16;
    assert_eq!(
        expected_offset, actual_offset,
        "Slot offset should point to the end of the buffer"
    );
    assert_eq!(data_len, actual_len, "Slot length should match data size");

    let heap_data = &buffer[actual_offset as usize..(actual_offset + actual_len) as usize];
    assert_eq!(
        data, heap_data,
        "Buffer data at calculated offset must match original input"
    );
}

#[test]
fn test_insert_record_at_index_with_shifting() {
    let mut buffer = [0u8; PAGE_SIZE];

    let (item_count, free_space) = {
        let mut page = SlottedPageView::new(&mut buffer);
        page.initialize(PageType::LeafNode, None);

        page.try_insert_record(0, b"Record 0").expect("Insert at 0");
        page.try_insert_record(1, b"Record 2").expect("Insert at 1");

        page.try_insert_record(1, b"Record 1")
            .expect("Insert in middle");

        (page.get_item_count(), page.get_free_space_contiguous())
    };

    assert_eq!(3, item_count);

    let expected_values = vec![
        b"Record 0".as_slice(),
        b"Record 1".as_slice(),
        b"Record 2".as_slice(),
    ];

    for (i, expected) in expected_values.iter().enumerate() {
        let slot_start = PAGE_HEADER_SIZE + (i * SLOT_SIZE);
        let offset =
            u16::from_le_bytes(buffer[slot_start..slot_start + 2].try_into().unwrap()) as usize;
        let len = u16::from_le_bytes(buffer[slot_start + 2..slot_start + 4].try_into().unwrap())
            as usize;

        let actual = &buffer[offset..offset + len];
        assert_eq!(
            *expected, actual,
            "Data mismatch at logical slot index {}",
            i
        );
    }

    let expected_used =
        b"Record 0".len() + b"Record 1".len() + b"Record 2".len() + (3 * SLOT_SIZE);
    assert_eq!(PAGE_SIZE - PAGE_HEADER_SIZE - expected_used, free_space);
}

#[test]
fn test_insert_at_invalid_index_fails() {
    let mut buffer = [0u8; PAGE_SIZE];
    let mut page = SlottedPageView::new(&mut buffer);
    page.initialize(PageType::LeafNode, None);

    let result = page.try_insert_record(1, b"data");
    assert!(
        result.is_err(),
        "Should not allow out-of-bounds insertion index"
    );
}

#[test]
fn test_page_full_returns_error() {
    let mut buffer = [0u8; PAGE_SIZE];
    let mut page = SlottedPageView::new(&mut buffer);
    page.initialize(PageType::LeafNode, None);

    let max_data_size = PAGE_SIZE - PAGE_HEADER_SIZE - SLOT_SIZE;
    let giant_record = vec![0u8; max_data_size];

    page.try_insert_record(0, &giant_record)
        .expect("Should fit giant record");

    assert_eq!(0, page.get_free_space_contiguous());

    let result = page.try_insert_record(1, b"extra");
    assert!(
        result.is_err(),
        "Should fail when no space for slot and data"
    );
}

#[test]
fn test_get_record_retrieves_correct_data() {
    let mut buffer = [0u8; PAGE_SIZE];
    let mut page = SlottedPageView::new(&mut buffer);
    page.initialize(PageType::LeafNode, None);

    let rec0 = b"Alpha";
    let rec1 = b"Beta";

    page.try_insert_record(0, rec0).unwrap();
    page.try_insert_record(1, rec1).unwrap();

    assert_eq!(Some(rec0.as_slice()), page.get_record(0));
    assert_eq!(Some(rec1.as_slice()), page.get_record(1));
    assert_eq!(None, page.get_record(2));
}

#[test]
fn test_update_record_in_place() {
    let mut buffer = [0u8; PAGE_SIZE];
    let mut page = SlottedPageView::new(&mut buffer);
    page.initialize(PageType::LeafNode, None);

    page.try_insert_record(0, b"Old Data")
        .expect("Initial add failed");
    let free_space_after_add = page.get_free_space_contiguous();

    let result = page.try_update_record(0, b"New Data");

    assert!(result.is_ok(), "Update of same-size record should succeed");
    assert_eq!(Some(b"New Data".as_slice()), page.get_record(0));
    assert_eq!(
        free_space_after_add,
        page.get_free_space_contiguous(),
        "Free space should remain identical for in-place update"
    );
}

#[test]
fn test_update_record_relocates_when_larger() {
    let mut buffer = [0u8; PAGE_SIZE];
    let mut page = SlottedPageView::new(&mut buffer);
    page.initialize(PageType::LeafNode, None);

    page.try_insert_record(0, b"Small")
        .expect("Initial add failed");
    let free_space_after_add = page.get_free_space_contiguous();

    let new_data = b"Much Larger Record Data";
    let result = page.try_update_record(0, new_data);

    assert!(
        result.is_ok(),
        "Update with larger data should succeed when space is available"
    );
    assert_eq!(Some(new_data.as_slice()), page.get_record(0));

    assert_eq!(
        free_space_after_add - new_data.len(),
        page.get_free_space_contiguous(),
        "Free space should decrease by the length of the relocated record"
    );
}

#[test]
fn test_update_record_fails_when_relocation_exceeds_space() {
    let mut buffer = [0u8; PAGE_SIZE];
    let mut page = SlottedPageView::new(&mut buffer);
    page.initialize(PageType::LeafNode, None);

    page.try_insert_record(0, b"Small").unwrap();

    let remaining_usable = page.get_free_space_contiguous() - SLOT_SIZE;
    let filler = vec![0u8; remaining_usable - 10];
    page.try_insert_record(1, &filler)
        .expect("Should fit filler");

    assert_eq!(10, page.get_free_space_contiguous());

    let result = page.try_update_record(0, &[0u8; 20]);

    assert!(matches!(result, Err(StorageError::PageFull)));

    assert_eq!(Some(b"Small".as_slice()), page.get_record(0));
}

#[test]
fn test_update_record_at_exact_remaining_space_limit() {
    let mut buffer = [0u8; PAGE_SIZE];
    let mut page = SlottedPageView::new(&mut buffer);
    page.initialize(PageType::LeafNode, None);

    page.try_insert_record(0, b"A").unwrap();

    let remaining_for_filler = page.get_free_space_contiguous() - SLOT_SIZE - 20;
    let filler = vec![0u8; remaining_for_filler];
    page.try_insert_record(1, &filler).unwrap();

    let free_before = page.get_free_space_contiguous();
    assert_eq!(20, free_before);

    let update_result = page.try_update_record(0, &[1u8; 20]);

    assert!(
        update_result.is_ok(),
        "Update with exact remaining space should succeed"
    );
    assert_eq!(
        0,
        page.get_free_space_contiguous(),
        "Free space should be completely exhausted"
    );

    let retrieved = page.get_record(0).unwrap();
    assert_eq!(20, retrieved.len());
    assert_eq!(&[1u8; 20], retrieved);
}

#[test]
fn test_update_record_fails_one_byte_over_limit() {
    let mut buffer = [0u8; PAGE_SIZE];
    let mut page = SlottedPageView::new(&mut buffer);
    page.initialize(PageType::LeafNode, None);

    page.try_insert_record(0, b"Data").unwrap();

    let free = page.get_free_space_contiguous();

    let larger_than_free = vec![0u8; free + 1];
    let result = page.try_update_record(0, &larger_than_free);

    assert!(
        matches!(result, Err(StorageError::PageFull)),
        "Should fail when update is 1 byte larger than capacity"
    );
}

#[test]
fn test_update_record_smaller_size_updates_slot_length() {
    let mut buffer = [0u8; PAGE_SIZE];
    let mut page = SlottedPageView::new(&mut buffer);
    page.initialize(PageType::LeafNode, None);

    page.try_insert_record(0, b"0123456789").unwrap();
    let free_space_after_add = page.get_free_space_contiguous();

    let new_data = b"Abcd";
    page.try_update_record(0, new_data).unwrap();

    assert_eq!(Some(new_data.as_slice()), page.get_record(0));

    let (_, record_size) = page.get_slot(0);
    assert_eq!(4, record_size);

    assert_eq!(free_space_after_add, page.get_free_space_contiguous());
}

#[test]
fn test_update_record_invalid_index_returns_error() {
    let mut buffer = [0u8; PAGE_SIZE];
    let mut page = SlottedPageView::new(&mut buffer);
    page.initialize(PageType::LeafNode, None);

    page.try_insert_record(0, b"Original").unwrap();

    let result = page.try_update_record(1, b"New Data");

    assert!(matches!(result, Err(StorageError::InvalidSlotIndex)));
}

#[test]
fn test_delete_record_shifts_slots_left() {
    let mut buffer = [0u8; PAGE_SIZE];
    let mut page = SlottedPageView::new(&mut buffer);
    page.initialize(PageType::LeafNode, None);

    page.try_insert_record(0, b"Record A").unwrap();
    page.try_insert_record(1, b"Record B").unwrap();
    page.try_insert_record(2, b"Record C").unwrap();

    let free_space_before = page.get_free_space_contiguous();

    page.delete_record(1);

    assert_eq!(2, page.get_item_count());

    assert_eq!(
        free_space_before + SLOT_SIZE,
        page.get_free_space_contiguous()
    );

    assert_eq!(Some(b"Record A".as_slice()), page.get_record(0));
    assert_eq!(Some(b"Record C".as_slice()), page.get_record(1));
    assert_eq!(None, page.get_record(2));
}

#[test]
fn test_delete_first_record_shifts_all_others() {
    let mut buffer = [0u8; PAGE_SIZE];
    let mut page = SlottedPageView::new(&mut buffer);
    page.initialize(PageType::LeafNode, None);

    page.try_insert_record(0, b"Record 0").unwrap();
    page.try_insert_record(1, b"Record 1").unwrap();
    page.try_insert_record(2, b"Record 2").unwrap();

    page.delete_record(0);

    assert_eq!(2, page.get_item_count());

    assert_eq!(Some(b"Record 1".as_slice()), page.get_record(0));
    assert_eq!(Some(b"Record 2".as_slice()), page.get_record(1));
    assert_eq!(None, page.get_record(2));
}

#[test]
fn test_delete_record_invalid_index_is_noop() {
    let mut buffer = [0u8; PAGE_SIZE];
    let mut page = SlottedPageView::new(&mut buffer);
    page.initialize(PageType::LeafNode, None);

    page.try_insert_record(0, b"Stay").unwrap();
    let initial_free_space = page.get_free_space_contiguous();

    page.delete_record(1);

    assert_eq!(1, page.get_item_count());
    assert_eq!(initial_free_space, page.get_free_space_contiguous());
    assert_eq!(Some(b"Stay".as_slice()), page.get_record(0));
}

#[test]
fn test_interleaved_inserts_and_deletes() {
    let mut buffer = [0u8; PAGE_SIZE];
    let mut page = SlottedPageView::new(&mut buffer);
    page.initialize(PageType::LeafNode, None);

    page.try_insert_record(0, b"A").unwrap();
    page.try_insert_record(1, b"B").unwrap();
    page.try_insert_record(2, b"C").unwrap();

    page.delete_record(1);
    assert_eq!(2, page.get_item_count());
    assert_eq!(Some(b"A".as_slice()), page.get_record(0));
    assert_eq!(Some(b"C".as_slice()), page.get_record(1));

    page.try_insert_record(1, b"D").unwrap();
    assert_eq!(3, page.get_item_count());
    assert_eq!(Some(b"A".as_slice()), page.get_record(0));
    assert_eq!(Some(b"D".as_slice()), page.get_record(1));
    assert_eq!(Some(b"C".as_slice()), page.get_record(2));

    page.try_update_record(2, b"CCC").unwrap();
    assert_eq!(Some(b"CCC".as_slice()), page.get_record(2));

    page.delete_record(0);
    page.delete_record(0);
    page.delete_record(0);
    assert_eq!(0, page.get_item_count());
    assert_eq!(None, page.get_record(0));
}

#[test]
fn test_get_total_free_space_with_fragmentation() {
    let mut buffer = [0u8; PAGE_SIZE];
    let mut page = SlottedPageView::new(&mut buffer);
    page.initialize(PageType::LeafNode, None);

    page.try_insert_record(0, b"0123456789").unwrap();
    page.try_insert_record(1, b"0123456789").unwrap();
    page.try_insert_record(2, b"0123456789").unwrap();

    let initial_contiguous = page.get_free_space_contiguous();

    page.delete_record(1);

    assert_eq!(
        initial_contiguous + SLOT_SIZE,
        page.get_free_space_contiguous()
    );

    let expected_total = PAGE_SIZE - PAGE_HEADER_SIZE - (2 * SLOT_SIZE) - (2 * 10);
    assert_eq!(expected_total, page.get_free_space());

    page.try_update_record(0, &[1u8; 20]).unwrap();

    let expected_total_after_relocate =
        PAGE_SIZE - PAGE_HEADER_SIZE - (2 * SLOT_SIZE) - (10 + 20);
    assert_eq!(expected_total_after_relocate, page.get_free_space());
}

#[test]
fn test_compact_reclaims_fragmented_space() {
    let mut buffer = [0u8; PAGE_SIZE];
    let mut page = SlottedPageView::new(&mut buffer);
    page.initialize(PageType::LeafNode, None);

    page.try_insert_record(0, b"Record 0").unwrap();
    page.try_insert_record(1, b"Record 1").unwrap();
    page.try_insert_record(2, b"Record 2").unwrap();

    page.delete_record(1);

    let free_before = page.get_free_space();
    let contiguous_before = page.get_free_space_contiguous();

    assert!(
        contiguous_before < free_before,
        "Page must be fragmented before compaction"
    );

    page.compact();

    assert_eq!(
        page.get_free_space(),
        page.get_free_space_contiguous(),
        "Compaction should eliminate all internal fragmentation"
    );

    assert_eq!(Some(b"Record 0".as_slice()), page.get_record(0));
    assert_eq!(Some(b"Record 2".as_slice()), page.get_record(1));
    assert_eq!(None, page.get_record(2));

    assert_eq!(
        (PAGE_SIZE - 16) as u16,
        page.get_data_start_offset(),
        "DataStartOffset should point to the start of the repacked contiguous block"
    );
}

#[test]
fn test_compact_reclaims_space_after_relocation_updates() {
    let mut buffer = [0u8; PAGE_SIZE];
    let mut page = SlottedPageView::new(&mut buffer);
    page.initialize(PageType::LeafNode, None);

    page.try_insert_record(0, b"Original").unwrap();
    let initial_total_free = page.get_free_space();

    page.try_update_record(0, &[1u8; 20]).unwrap();

    let free_before = page.get_free_space();
    let contiguous_before = page.get_free_space_contiguous();
    assert!(
        contiguous_before < free_before,
        "Updates should have created garbage holes"
    );

    page.compact();

    assert_eq!(page.get_free_space(), page.get_free_space_contiguous());
    assert_eq!(
        initial_total_free - (20 - 8),
        page.get_free_space_contiguous()
    );

    let data = page.get_record(0).unwrap();
    assert_eq!(data, &[1u8; 20]);
}

#[test]
fn test_compact_after_all_records_deleted_resets_heap() {
    let mut buffer = [0u8; PAGE_SIZE];
    let mut page = SlottedPageView::new(&mut buffer);
    page.initialize(PageType::LeafNode, None);

    page.try_insert_record(0, b"Data A").unwrap();
    page.try_insert_record(1, b"Data B").unwrap();

    page.delete_record(0);
    page.delete_record(0);

    assert_eq!(0, page.get_item_count());
    assert!(
        page.get_data_start_offset() < PAGE_SIZE as u16,
        "Heap should still be physically occupied by garbage"
    );

    page.compact();

    assert_eq!(
        PAGE_SIZE as u16,
        page.get_data_start_offset(),
        "Compacting empty page should reset DataStartOffset to PAGE_SIZE"
    );
    assert_eq!(
        PAGE_SIZE - PAGE_HEADER_SIZE,
        page.get_free_space_contiguous()
    );
}

#[test]
fn test_compact_on_already_contiguous_page_is_noop() {
    let mut buffer = [0u8; PAGE_SIZE];
    let mut page = SlottedPageView::new(&mut buffer);
    page.initialize(PageType::LeafNode, None);

    page.try_insert_record(0, b"Contiguous").unwrap();
    let data_start_before = page.get_data_start_offset();
    let free_before = page.get_free_space_contiguous();

    page.compact();

    assert_eq!(data_start_before, page.get_data_start_offset());
    assert_eq!(free_before, page.get_free_space_contiguous());
}

#[test]
fn free_space_accounts_for_records_and_slots() {
    let mut buffer = [0u8; PAGE_SIZE];
    let mut page = SlottedPageView::new(&mut buffer);
    page.initialize(PageType::LeafNode, None);
    let free0 = page.get_free_space();
    page.try_insert_record(0, b"abcdef").unwrap();
    let free1 = page.get_free_space();
    assert_eq!(free0 - 6 - SLOT_SIZE, free1);
    page.try_insert_record(0, b"xy").unwrap();
    page.try_update_record(1, b"abc").unwrap();
    assert_eq!(Some(&b"abc"[..]), page.get_record(1));
    assert_eq!(free0 - 2 - 3 - 2 * SLOT_SIZE, page.get_free_space());
    page.delete_record(0);
    assert_eq!(Some(&b"abc"[..]), page.get_record(0));
    assert_eq!(free0 - 3 - SLOT_SIZE, page.get_free_space());
    page.compact();
    assert_eq!(page.get_free_space(), page.get_free_space_contiguous());
    assert_eq!(Some(&b"abc"[..]), page.get_record(0));
}
