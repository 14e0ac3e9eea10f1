use minidb::storage::disk::{page_offset, PageType, PAGE_SIZE};

#[test]
fn page_offsets() {
    assert_eq!(page_offset(0), 0);
    assert_eq!(page_offset(3), 3 * PAGE_SIZE as u64);
    assert_eq!(page_offset(u32::MAX), u32::MAX as u64 * 4096);
}

#[test]
fn page_type_codes() {
    assert_eq!(PageType::DataPage.code(), 1);
    assert_eq!(PageType::IndexLeaf.code(), 2);
    assert_eq!(PageType::IndexInternal.code(), 3);
}
