use minidb::storage::buffer::{BufferManagerInternals, FrameMetadata, PageFetch};
use minidb::storage::disk::BUFF_POOL_SIZE;

#[test]
fn test_cache_eviction() {
    // In the default configuration the first frame is the one to replace.
    let mut pool = BufferManagerInternals::new();
    assert_eq!(pool.find_replaceable_frame(), Some(0));
}

#[test]
fn empty_pool() {
    let pool = BufferManagerInternals::new();
    for i in 0..BUFF_POOL_SIZE {
        assert_eq!(pool.frame(i), FrameMetadata::empty());
    }
    assert_eq!(pool.frame_of(3), None);
}

#[test]
fn first_request_loads_second_hits() {
    let mut pool = BufferManagerInternals::new();
    assert_eq!(pool.pin_page(7), PageFetch::Load { frame_idx: 0, write_back: None });
    assert_eq!(pool.pin_page(7), PageFetch::Resident(0));
    assert_eq!(pool.frame(0).pin_count, 2);
    assert_eq!(pool.frame_of(7), Some(0));
}

#[test]
fn requests_use_the_next_unpinned_frame() {
    let mut pool = BufferManagerInternals::new();
    assert_eq!(pool.pin_page(1), PageFetch::Load { frame_idx: 0, write_back: None });
    assert_eq!(pool.pin_page(2), PageFetch::Load { frame_idx: 1, write_back: None });
    assert_eq!(pool.pin_page(3), PageFetch::Load { frame_idx: 2, write_back: None });
}

#[test]
fn release_after_hit_restores_the_pin_count() {
    let mut pool = BufferManagerInternals::new();
    pool.pin_page(4);
    let before = pool.frame(0);
    assert_eq!(pool.pin_page(4), PageFetch::Resident(0));
    pool.release_frame(0, false);
    assert_eq!(pool.frame(0), before);
}

#[test]
fn written_frame_is_dirty_until_marked_clean() {
    let mut pool = BufferManagerInternals::new();
    pool.pin_page(9);
    assert_eq!(pool.dirty_page(0), None);
    pool.release_frame(0, true);
    assert_eq!(pool.frame(0), FrameMetadata { page_id: Some(9), pin_count: 0, is_dirty: true });
    assert_eq!(pool.dirty_page(0), Some(9));
    pool.mark_clean(0);
    assert_eq!(pool.dirty_page(0), None);
}

#[test]
fn release_never_goes_below_zero() {
    let mut pool = BufferManagerInternals::new();
    pool.pin_page(5);
    pool.release_frame(0, false);
    pool.release_frame(0, false);
    assert_eq!(pool.frame(0).pin_count, 0);
}

#[test]
fn dirty_frame_is_written_back_before_reuse() {
    let mut pool = BufferManagerInternals::new();
    pool.pin_page(1);
    pool.release_frame(0, true);
    assert_eq!(pool.pin_page(2), PageFetch::Load { frame_idx: 0, write_back: Some(1) });
    assert_eq!(pool.frame_of(1), None);
    assert_eq!(pool.frame_of(2), Some(0));
    assert_eq!(pool.frame(0), FrameMetadata { page_id: Some(2), pin_count: 1, is_dirty: false });
}

#[test]
fn clean_frame_is_reused_without_write_back() {
    let mut pool = BufferManagerInternals::new();
    pool.pin_page(1);
    pool.release_frame(0, false);
    assert_eq!(pool.pin_page(2), PageFetch::Load { frame_idx: 0, write_back: None });
}

#[test]
fn pinned_pages_stay_resident() {
    let mut pool = BufferManagerInternals::new();
    for page in 0..(BUFF_POOL_SIZE as u32) {
        pool.pin_page(page);
    }
    pool.release_frame(5, false);
    assert_eq!(pool.pin_page(1000), PageFetch::Load { frame_idx: 5, write_back: None });
    for page in 0..(BUFF_POOL_SIZE as u32) {
        if page != 5 {
            assert_eq!(pool.frame_of(page), Some(page as usize));
        }
    }
    assert_eq!(pool.frame_of(5), None);
}

#[test]
fn every_frame_pinned_refuses_new_pages() {
    let mut pool = BufferManagerInternals::new();
    for page in 0..(BUFF_POOL_SIZE as u32) {
        assert_eq!(
            pool.pin_page(page),
            PageFetch::Load { frame_idx: page as usize, write_back: None }
        );
    }
    assert_eq!(pool.pin_page(500), PageFetch::AllPinned);
    assert_eq!(pool.find_replaceable_frame(), None);
    assert_eq!(pool.pin_page(3), PageFetch::Resident(3));
}

#[test]
fn clock_hand_stays_on_the_frame_it_picked() {
    let mut pool = BufferManagerInternals::new();
    pool.pin_page(1);
    pool.pin_page(2);
    pool.release_frame(0, false);
    // The hand stands on frame 1, which is pinned: it moves on to frame 2.
    assert_eq!(pool.find_replaceable_frame(), Some(2));
    assert_eq!(pool.find_replaceable_frame(), Some(2));
}

#[test]
fn testing_cache_hit() {
    // A freshly allocated page (id 0) is written through a write guard, then read again:
    // the second request finds it resident in the same frame, still dirty.
    let mut pool = BufferManagerInternals::new();
    assert_eq!(pool.pin_page(0), PageFetch::Load { frame_idx: 0, write_back: None });
    pool.release_frame(0, true);
    assert_eq!(pool.pin_page(0), PageFetch::Resident(0));
    assert_eq!(pool.frame(0), FrameMetadata { page_id: Some(0), pin_count: 1, is_dirty: true });
    assert_eq!(pool.dirty_page(0), Some(0));
}
