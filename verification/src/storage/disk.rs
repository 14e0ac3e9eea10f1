use vstd::prelude::*;

verus! {

/// Bytes per page.
pub const PAGE_SIZE: usize = 4096;

/// The number of pages that the buffer holds at a time.
pub const BUFF_POOL_SIZE: usize = 64;

/// What a page holds. On disk each kind is stored as the byte that `code` gives.
#[derive(Clone, Copy, Debug, PartialEq, Eq, Structural)]
pub enum PageType {
    DataPage,
    IndexLeaf,
    IndexInternal,
}

impl PageType {
    /// The byte that stands for this kind of page on disk.
    pub fn code(&self) -> (byte: u8)
        ensures
            byte == match *self {
                PageType::DataPage => 1u8,
                PageType::IndexLeaf => 2u8,
                PageType::IndexInternal => 3u8,
            },
    {
        match *self {
            PageType::DataPage => 1,
            PageType::IndexLeaf => 2,
            PageType::IndexInternal => 3,
        }
    }
}

/// The header at the start of a page.
pub struct PageHeader {
    page_type: PageType,
}

/// A page: its number and its header.
pub struct Page {
    pub id: u32,
    pub header: PageHeader,
}

/// A slot of the buffer: the page it caches, that page's bytes, its number of active
/// readers and writers, and whether its bytes were changed since they were read from disk.
pub struct Frame {
    pub page_id: Option<u32>,
    pub data: [u8; PAGE_SIZE],
    pub pin_count: u32,
    pub is_dirty: bool,
}

/// The byte offset of page `page_id` in the database file: `page_id * PAGE_SIZE`, computed in
/// 64 bits so that it cannot overflow.
pub fn page_offset(page_id: u32) -> (offset: u64)
    ensures
        offset == page_id as int * PAGE_SIZE as int,
{
    assert(page_id as int * 4096 <= u32::MAX as int * 4096) by (nonlinear_arith)
        requires
            page_id <= u32::MAX,
    ;
    (page_id as u64) * (PAGE_SIZE as u64)
}

} // verus!
