use rarmdb::bpm_error::BufferPoolError;
use rarmdb::buffer_pool::{page_table_key, BufferPoolManager, FetchedFrame};
use rarmdb::disk_layout::{next_page_id, page_offset};
use rarmdb::evictor::{ClockEvictor, Evictor};
use rarmdb::frame::Frame;
use rarmdb::page_guard::{PageReadGuard, PageWriteGuard};
use rarmdb::page_id::{PageId, PAGE_SIZE};

#[test]
fn test_clock_replacer_initializes_empty() {
    let mut replacer = ClockEvictor::new(3);

    assert_eq!(0, replacer.size(), "New replacer should have size 0");
    assert_eq!(None, replacer.victim(), "New replacer should have no victim");
}

#[test]
fn test_clock_evictor_unpin_and_sweep() {
    let mut evictor = ClockEvictor::new(3);

    evictor.unpin(0);
    assert_eq!(1, evictor.size(), "Size should be 1 after unpinning frame 0");

    evictor.unpin(0);
    assert_eq!(1, evictor.size(), "Size should remain 1 when unpinning an already eligible frame");

    assert_eq!(Some(0), evictor.victim(), "Should sweep and evict frame 0");

    assert_eq!(0, evictor.size(), "Size should be 0 after eviction");
    assert_eq!(None, evictor.victim(), "Should have no victim when empty");
}

#[test]
fn clock_evictor_evicts_each_unpinned_frame_once() {
    let mut evictor = ClockEvictor::new(4);
    evictor.unpin(1);
    evictor.unpin(3);
    assert_eq!(2, evictor.size());
    let first = evictor.victim().unwrap();
    let second = evictor.victim().unwrap();
    assert!(first != second);
    assert!((first == 1 || first == 3) && (second == 1 || second == 3));
    assert_eq!(0, evictor.size());
    assert_eq!(None, evictor.victim());
}

#[test]
fn clock_evictor_with_no_frames_has_no_victim() {
    let mut evictor = ClockEvictor::new(0);
    assert_eq!(0, evictor.size());
    assert_eq!(None, evictor.victim());
}

#[test]
fn test_frame_new_initializes_empty_state() {
    let frame = Frame::new(0);

    assert_eq!(None, frame.get_page_id().as_ref(), "New frame should not have a page ID assigned");
    assert_eq!(0, frame.get_pin_count(), "New frame should have 0 pin count");
    assert!(!frame.is_dirty(), "New frame should not be dirty");

    let buffer_guard = frame.read_data();
    let expected_buffer = [0u8; PAGE_SIZE];
    assert_eq!(expected_buffer.as_ref(), buffer_guard.as_ref(), "New frame buffer should be zero-filled");
}

#[test]
fn test_frame_metadata_and_data_mutability() {
    let mut frame = Frame::new(0);

    let page_id = PageId { table_id: 10, page_index: 5 };
    frame.set_page_id(Some(page_id));
    assert_eq!(Some(page_id), frame.get_page_id(), "Frame should return the newly assigned page ID");

    frame.increment_pin_count();
    frame.increment_pin_count();
    assert_eq!(2, frame.get_pin_count(), "Pin count should be 2 after two increments");

    frame.decrement_pin_count();
    assert_eq!(1, frame.get_pin_count(), "Pin count should be 1 after one decrement");

    frame.set_dirty(true);
    assert!(frame.is_dirty(), "Frame should be marked as dirty");

    frame.set_dirty(false);
    assert!(!frame.is_dirty(), "Frame should be marked as clean");

    {
        let write_guard = frame.write_data();
        write_guard[0] = 42;
        write_guard[PAGE_SIZE - 1] = 99;
    }

    let read_guard = frame.read_data();
    assert_eq!(42, read_guard[0], "First byte should be mutated");
    assert_eq!(99, read_guard[PAGE_SIZE - 1], "Last byte should be mutated");
    assert_eq!(0, read_guard[1], "Untouched bytes should remain zero");
}

#[test]
fn frame_counts_report_previous_value() {
    let mut frame = Frame::default();
    assert_eq!(0, frame.get_id());
    assert_eq!(0, frame.increment_pin_count());
    assert_eq!(1, frame.increment_pin_count());
    assert_eq!(2, frame.decrement_pin_count());
    let other = Frame::new(7);
    assert_eq!(7, other.get_id());
}

#[test]
fn test_page_read_guard_decrements_pin_count_on_drop() {
    let mut frame = Frame::new(0);
    frame.increment_pin_count();
    assert_eq!(1, frame.get_pin_count(), "Pin count should be 1 after BPM fetches it");

    {
        let page_guard = PageReadGuard::new(&mut frame);
        assert_eq!(0, page_guard.data()[0], "Should be able to read data directly through the guard");
        page_guard.release();
    }

    assert_eq!(0, frame.get_pin_count(), "Pin count should automatically decrement when guard drops");
}

#[test]
fn test_page_write_guard_mutates_data_and_cleans_up_on_drop() {
    let mut frame = Frame::new(0);
    frame.increment_pin_count();
    assert_eq!(1, frame.get_pin_count());

    {
        let mut page_guard = PageWriteGuard::new(&mut frame);
        page_guard.write_byte(0, 42);
        page_guard.write_byte(PAGE_SIZE - 1, 99);
        page_guard.mark_dirty();
        page_guard.release();
    }

    assert_eq!(0, frame.get_pin_count(), "Pin count should automatically decrement when write guard drops");
    assert!(frame.is_dirty(), "Frame should be marked as dirty after calling mark_dirty()");

    let read_guard = frame.read_data();
    assert_eq!(42, read_guard[0]);
    assert_eq!(99, read_guard[PAGE_SIZE - 1]);
}

#[test]
fn write_guard_reports_page_id() {
    let mut frame = Frame::new(3);
    frame.set_page_id(Some(PageId::new(2, 9)));
    frame.increment_pin_count();
    let guard = PageWriteGuard::new(&mut frame);
    assert_eq!(PageId::new(2, 9), guard.page_id());
    assert_eq!(0, guard.data()[5]);
    guard.release();
    assert_eq!(0, frame.get_pin_count());
}

#[test]
fn test_evict_page_returns_error_when_pool_full() {
    let mut bpm = BufferPoolManager::new(1);
    bpm.pin_frame(0);
    let result = bpm.evict_page();
    assert!(
        matches!(result, Err(BufferPoolError::BufferFull)),
        "evict_page should return BufferFull when the evictor has no victims"
    );
}

#[test]
fn test_evict_page_evicts_clean_page_and_updates_page_table() {
    let mut bpm = BufferPoolManager::new(1);
    let page_id = PageId { table_id: 10, page_index: 0 };

    bpm.free_frames.clear();
    bpm.frames[0].set_page_id(Some(page_id));
    bpm.frames[0].set_dirty(false);
    bpm.page_table.insert(page_table_key(page_id), 0);
    bpm.evictor.unpin(0);

    let result = bpm.evict_page();
    assert!(matches!(result, Ok((0, None))), "evict_page should return Ok((0, None)) when a clean page is evicted");
    assert_eq!(None, bpm.get_pin_count(page_id), "evict_page must remove the victim's page_id from the page_table");
    assert_eq!(1, bpm.frames[0].get_pin_count(), "evict_page must pin the frame before returning it");
}

#[test]
fn test_evict_page_evicts_dirty_page_and_returns_data_to_flush() {
    let mut bpm = BufferPoolManager::new(1);
    let page_id = PageId { table_id: 20, page_index: 1 };

    bpm.free_frames.clear();
    bpm.frames[0].set_page_id(Some(page_id));
    bpm.frames[0].set_dirty(true);
    bpm.page_table.insert(page_table_key(page_id), 0);
    {
        let write_guard = bpm.frames[0].write_data();
        write_guard[0] = 123;
        write_guard[PAGE_SIZE - 1] = 234;
    }
    bpm.evictor.unpin(0);

    let result = bpm.evict_page();
    let (frame_id, dirty_payload_opt) = result.expect("Should successfully evict");
    assert_eq!(0, frame_id);
    let (evicted_page_id, dirty_data) = dirty_payload_opt.expect("Dirty page must return data to flush");
    assert_eq!(page_id, evicted_page_id);
    assert_eq!(123, dirty_data[0]);
    assert_eq!(234, dirty_data[PAGE_SIZE - 1]);
    assert_eq!(None, bpm.get_pin_count(page_id), "Must remove from page table");
    assert_eq!(1, bpm.frames[0].get_pin_count(), "Must pin the frame");
}

#[test]
fn buffer_pool_starts_with_every_frame_free() {
    let bpm = BufferPoolManager::new(3);
    assert_eq!(3, bpm.get_free_frame_count());
    assert_eq!(3, bpm.frames.len());
    assert_eq!(None, bpm.get_pin_count(PageId::new(1, 0)));
}

#[test]
fn create_page_uses_last_free_frame_and_pins_it() {
    let mut bpm = BufferPoolManager::new(2);
    let page_id = PageId { table_id: 100, page_index: 0 };
    let (frame_id, flush) = bpm.create_page(page_id);
    assert_eq!(1, frame_id);
    assert!(flush.is_none());
    assert_eq!(Some(1), bpm.get_pin_count(page_id), "The newly created page must be pinned in the page table");
    assert_eq!(1, bpm.get_free_frame_count());
    assert_eq!(Some(page_id), bpm.frames[1].get_page_id());
}

#[test]
fn create_page_evicts_dirty_frame_and_returns_its_bytes() {
    let mut bpm = BufferPoolManager::new(1);
    let page0 = PageId { table_id: 200, page_index: 0 };
    let page1 = PageId { table_id: 200, page_index: 1 };

    let (f0, _) = bpm.create_page(page0);
    {
        let data = bpm.frames[f0].write_data();
        data[0] = 111;
        data[PAGE_SIZE - 1] = 222;
    }
    bpm.frames[f0].set_dirty(true);
    bpm.unpin_frame(f0);

    let (f1, flush) = bpm.create_page(page1);
    assert_eq!(f0, f1);
    assert_eq!(Some(1), bpm.get_pin_count(page1), "Page 1 should be pinned");
    assert_eq!(None, bpm.get_pin_count(page0), "Page 0 should be evicted");
    let (flushed_id, flushed) = flush.expect("the dirty page must be handed back to be written");
    assert_eq!(page0, flushed_id);
    assert_eq!(111, flushed[0]);
    assert_eq!(222, flushed[PAGE_SIZE - 1]);
}

#[test]
fn fetch_miss_then_hit_returns_cached_frame() {
    let mut bpm = BufferPoolManager::new(2);
    let page_id = PageId { table_id: 300, page_index: 0 };
    let mut disk = [0u8; PAGE_SIZE];
    disk[0] = 77;
    disk[PAGE_SIZE - 1] = 88;

    let first = bpm.fetch_and_pin_frame(page_id).unwrap();
    assert_eq!(FetchedFrame::Miss(1, None), first);
    bpm.load_page(1, &disk);
    assert_eq!(77, bpm.frames[1].read_data()[0]);
    assert_eq!(88, bpm.frames[1].read_data()[PAGE_SIZE - 1]);
    assert_eq!(Some(1), bpm.get_pin_count(page_id), "Frame should be pinned once");

    let second = bpm.fetch_and_pin_frame(page_id).unwrap();
    assert_eq!(FetchedFrame::Hit(1), second);
    assert_eq!(Some(2), bpm.get_pin_count(page_id), "Cache hit should increment pin count to 2");
    assert_eq!(1, bpm.get_free_frame_count(), "Should only have consumed 1 free frame total");
}

#[test]
fn fetch_evicts_unpinned_frame_when_full() {
    let mut bpm = BufferPoolManager::new(2);
    let p1 = PageId::new(600, 0);
    let p2 = PageId::new(600, 1);
    let p3 = PageId::new(600, 2);

    assert_eq!(Ok(FetchedFrame::Miss(1, None)), bpm.fetch_and_pin_frame(p1));
    assert_eq!(Ok(FetchedFrame::Miss(0, None)), bpm.fetch_and_pin_frame(p2));
    assert_eq!(0, bpm.get_free_frame_count(), "Pool should be completely full");
    bpm.unpin_frame(1);
    bpm.unpin_frame(0);

    let third = bpm.fetch_and_pin_frame(p3).expect("Should successfully evict a frame and fetch page 3");
    let frame_id = match third {
        FetchedFrame::Miss(f, flush) => {
            assert!(flush.is_none(), "a clean victim has nothing to write back");
            f
        }
        FetchedFrame::Hit(_) => panic!("page 3 was not cached"),
    };
    let mut disk = [0u8; PAGE_SIZE];
    disk[0] = 33;
    bpm.load_page(frame_id, &disk);
    assert_eq!(33, bpm.frames[frame_id].read_data()[0], "Evicted frame should contain the newly loaded data");
    assert_eq!(Some(1), bpm.get_pin_count(p3), "The fetched page is pinned once, so one unpin frees it");
    assert!(bpm.get_pin_count(p1).is_none() || bpm.get_pin_count(p2).is_none());
    bpm.unpin_frame(frame_id);
    assert_eq!(Some(0), bpm.get_pin_count(p3));
}

#[test]
fn fetch_evicting_dirty_frame_hands_back_its_bytes() {
    let mut bpm = BufferPoolManager::new(1);
    let p1 = PageId::new(700, 0);
    let p2 = PageId::new(700, 1);

    assert_eq!(Ok(FetchedFrame::Miss(0, None)), bpm.fetch_and_pin_frame(p1));
    {
        let data = bpm.frames[0].write_data();
        data[0] = 44;
        data[PAGE_SIZE - 1] = 55;
    }
    bpm.frames[0].set_dirty(true);
    bpm.unpin_frame(0);

    let fetched = bpm.fetch_and_pin_frame(p2).expect("the unpinned frame can be evicted");
    let (frame_id, flush) = match fetched {
        FetchedFrame::Miss(f, flush) => (f, flush),
        FetchedFrame::Hit(_) => panic!("page 2 was not cached"),
    };
    assert_eq!(0, frame_id);
    let (flushed_id, flushed) = flush.expect("the dirty victim must be handed back to be written");
    assert_eq!(p1, flushed_id);
    assert_eq!(44, flushed[0]);
    assert_eq!(55, flushed[PAGE_SIZE - 1]);
    assert_eq!(None, bpm.get_pin_count(p1));
    assert_eq!(Some(1), bpm.get_pin_count(p2));
    assert_eq!(Some(p2), bpm.frames[0].get_page_id());
}

#[test]
fn fetch_returns_error_when_all_frames_pinned() {
    let mut bpm = BufferPoolManager::new(1);
    let p1 = PageId::new(800, 0);
    let p2 = PageId::new(800, 1);
    assert!(bpm.fetch_and_pin_frame(p1).is_ok());
    let result = bpm.fetch_and_pin_frame(p2);
    assert_eq!(Err(BufferPoolError::BufferFull), result);
    assert_eq!(Some(1), bpm.get_pin_count(p1));
}

#[test]
fn page_keys_separate_tables_and_pages() {
    assert_eq!(0x0000_0001_0000_0002u64, page_table_key(PageId::new(1, 2)));
    assert_eq!(u64::MAX, page_table_key(PageId::new(u32::MAX, u32::MAX)));
    assert!(page_table_key(PageId::new(0, 1)) != page_table_key(PageId::new(1, 0)));
}

#[test]
fn disk_layout_places_pages_back_to_back() {
    assert_eq!(0, page_offset(0));
    assert_eq!(3 * PAGE_SIZE as u64, page_offset(3));
    assert_eq!(PageId::new(5, 0), next_page_id(5, 0));
    assert_eq!(PageId::new(5, 2), next_page_id(5, 2 * PAGE_SIZE as u64));
    assert_eq!(PageId::new(5, 2), next_page_id(5, 2 * PAGE_SIZE as u64 + 7));
}
