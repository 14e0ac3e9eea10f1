use vstd::prelude::*;
use std::collections::HashMap;
use crate::storage::disk::BUFF_POOL_SIZE;

verus! {

broadcast use vstd::std_specs::hash::group_hash_axioms;

/// What the buffer keeps for each frame besides its bytes.
#[derive(Clone, Copy, Debug, PartialEq, Eq, Structural)]
pub struct FrameMetadata {
    /// The page that the frame caches, if any.
    pub page_id: Option<u32>,
    /// The number of active readers and writers.
    pub pin_count: u32,
    /// Whether the frame's bytes changed since they were read from disk.
    pub is_dirty: bool,
}

impl FrameMetadata {
    /// An empty frame: no page, no pins, clean.
    pub fn empty() -> (meta: FrameMetadata)
        ensures
            meta == (FrameMetadata { page_id: None, pin_count: 0, is_dirty: false }),
    {
        FrameMetadata { page_id: None, pin_count: 0, is_dirty: false }
    }
}

/// The buffer's bookkeeping, as contracts see it.
pub struct PoolView {
    /// Which frame holds each resident page.
    pub page_table: Map<u32, usize>,
    /// The metadata of each frame.
    pub frames: Seq<FrameMetadata>,
    /// The CLOCK reference bit of each frame.
    pub reference_bits: Seq<bool>,
    /// Where the CLOCK hand stands.
    pub cursor: nat,
}

/// The bookkeeping is consistent: the page table and the frames agree on which page each frame
/// holds, every index is a frame, and only a frame that holds a page is dirty.
pub open spec fn pool_wf(v: PoolView) -> bool {
    &&& v.frames.len() == BUFF_POOL_SIZE
    &&& v.reference_bits.len() == BUFF_POOL_SIZE
    &&& v.cursor < BUFF_POOL_SIZE
    &&& forall|p: u32| #[trigger]
        v.page_table.contains_key(p) ==> v.page_table[p] < BUFF_POOL_SIZE
            && v.frames[v.page_table[p] as int].page_id == Some(p)
    &&& forall|i: int|
        0 <= i < BUFF_POOL_SIZE && (#[trigger] v.frames[i]).page_id is Some ==> v.page_table.contains_key(
            v.frames[i].page_id->0,
        ) && v.page_table[v.frames[i].page_id->0] == i
    &&& forall|i: int|
        0 <= i < BUFF_POOL_SIZE && (#[trigger] v.frames[i]).is_dirty ==> v.frames[i].page_id is Some
}

/// Frame `i` has active readers or writers.
pub open spec fn is_pinned(v: PoolView, i: int) -> bool {
    v.frames[i].pin_count > 0
}

/// Every frame is pinned.
pub open spec fn all_pinned(v: PoolView) -> bool {
    forall|i: int| 0 <= i < BUFF_POOL_SIZE ==> #[trigger] is_pinned(v, i)
}

/// Some frame is unpinned with its reference bit clear.
pub open spec fn has_candidate(v: PoolView) -> bool {
    exists|i: int| 0 <= i < BUFF_POOL_SIZE && !#[trigger] is_pinned(v, i) && !v.reference_bits[i]
}

/// How far the CLOCK hand, standing at `cursor`, moves to reach frame `i`.
pub open spec fn sweep_offset(cursor: int, i: int) -> int {
    if i >= cursor {
        i - cursor
    } else {
        i - cursor + BUFF_POOL_SIZE
    }
}

/// The frame the hand reaches after `steps` moves from `cursor`, for fewer than two turns.
pub open spec fn sweep_position(cursor: int, steps: int) -> int {
    if cursor + steps < BUFF_POOL_SIZE {
        cursor + steps
    } else if cursor + steps < 2 * BUFF_POOL_SIZE {
        cursor + steps - BUFF_POOL_SIZE
    } else {
        cursor + steps - 2 * BUFF_POOL_SIZE
    }
}

/// One CLOCK sweep from `old` to `new` that chose `victim`. With every frame pinned there is
/// no victim and nothing changes. Otherwise the hand moves from its place, clearing the
/// reference bit of each unpinned frame it passes and skipping pinned ones, and stops on the
/// first unpinned frame whose bit is clear: in its first turn where there is such a frame,
/// else in its second turn, on the first unpinned frame.
pub open spec fn clock_sweep(old: PoolView, victim: Option<usize>, new: PoolView) -> bool {
    &&& new.page_table == old.page_table
    &&& new.frames == old.frames
    &&& match victim {
        None => all_pinned(old) && new == old,
        Some(r) => {
            let c = old.cursor as int;
            &&& r < BUFF_POOL_SIZE
            &&& !is_pinned(old, r as int)
            &&& new.cursor == r
            &&& new.reference_bits.len() == BUFF_POOL_SIZE
            &&& if has_candidate(old) {
                &&& !old.reference_bits[r as int]
                &&& forall|i: int|
                    0 <= i < BUFF_POOL_SIZE && sweep_offset(c, i) < sweep_offset(c, r as int)
                        ==> is_pinned(old, i) || old.reference_bits[i]
                &&& forall|i: int|
                    0 <= i < BUFF_POOL_SIZE ==> new.reference_bits[i] == (old.reference_bits[i]
                        && !(!is_pinned(old, i) && sweep_offset(c, i) < sweep_offset(c, r as int)))
            } else {
                &&& forall|i: int|
                    0 <= i < BUFF_POOL_SIZE && sweep_offset(c, i) < sweep_offset(c, r as int)
                        ==> is_pinned(old, i)
                &&& forall|i: int|
                    0 <= i < BUFF_POOL_SIZE ==> new.reference_bits[i] == (old.reference_bits[i]
                        && is_pinned(old, i))
            }
        },
    }
}

/// What a request for a page comes to.
#[derive(Clone, Copy, Debug, PartialEq, Eq, Structural)]
pub enum PageFetch {
    /// The page is resident in this frame, which is now pinned once more.
    Resident(usize),
    /// The page was not resident. This frame now holds it, pinned once and clean: its bytes are
    /// to be read from disk into the frame, after the frame's old bytes have been written back
    /// as page `write_back`, where that is `Some`.
    Load { frame_idx: usize, write_back: Option<u32> },
    /// Every frame is pinned, so the page cannot be brought in.
    AllPinned,
}

/// The metadata of a frame with one more pin.
pub open spec fn pinned_once_more(meta: FrameMetadata) -> FrameMetadata {
    FrameMetadata { pin_count: (meta.pin_count + 1) as u32, ..meta }
}

/// A request for `page_id` from `old`, answered with `outcome`, leaves `new`. A resident page's
/// frame gains a pin. Otherwise, where every frame is pinned, nothing changes; else CLOCK picks
/// an unpinned frame, whose old page leaves the page table (to be written back first where the
/// frame is dirty) and which now holds `page_id`, pinned once and clean.
pub open spec fn fetch_spec(old: PoolView, page_id: u32, outcome: PageFetch, new: PoolView) -> bool {
    if old.page_table.contains_key(page_id) {
        let i = old.page_table[page_id];
        &&& outcome == PageFetch::Resident(i)
        &&& new == PoolView {
            frames: old.frames.update(i as int, pinned_once_more(old.frames[i as int])),
            ..old
        }
    } else if all_pinned(old) {
        outcome == PageFetch::AllPinned && new == old
    } else {
        match outcome {
            PageFetch::Load { frame_idx: r, write_back } => {
                let evicted = old.frames[r as int];
                &&& clock_sweep(
                    old,
                    Some(r),
                    PoolView {
                        page_table: old.page_table,
                        frames: old.frames,
                        reference_bits: new.reference_bits,
                        cursor: new.cursor,
                    },
                )
                &&& write_back == (if evicted.is_dirty {
                    evicted.page_id
                } else {
                    None
                })
                &&& new.page_table == (match evicted.page_id {
                    Some(q) => old.page_table.remove(q),
                    None => old.page_table,
                }).insert(page_id, r)
                &&& new.frames == old.frames.update(
                    r as int,
                    FrameMetadata { page_id: Some(page_id), pin_count: 1, is_dirty: false },
                )
            },
            _ => false,
        }
    }
}

/// Releasing frame `i` from `old` leaves `new`: one pin fewer (none stays none), and dirty
/// where it was or where the holder wrote to it.
pub open spec fn release_spec(old: PoolView, i: int, dirtied: bool, new: PoolView) -> bool {
    let meta = old.frames[i];
    new == PoolView {
        frames: old.frames.update(
            i,
            FrameMetadata {
                pin_count: if meta.pin_count > 0 {
                    (meta.pin_count - 1) as u32
                } else {
                    0
                },
                is_dirty: meta.is_dirty || dirtied,
                ..meta
            },
        ),
        ..old
    }
}

/// The frame that a request left holding the page, where it got one.
pub open spec fn fetched_frame(outcome: PageFetch) -> Option<usize> {
    match outcome {
        PageFetch::Resident(i) => Some(i),
        PageFetch::Load { frame_idx, .. } => Some(frame_idx),
        PageFetch::AllPinned => None,
    }
}

/// A request that gets a frame leaves the page resident in that frame, pinned.
pub proof fn lemma_fetch_pins_page(old: PoolView, page_id: u32, outcome: PageFetch, new: PoolView)
    requires
        pool_wf(old),
        fetch_spec(old, page_id, outcome, new),
        outcome != PageFetch::AllPinned,
        old.page_table.contains_key(page_id) ==> old.frames[old.page_table[page_id] as int].pin_count
            < u32::MAX,
    ensures
        new.page_table.contains_key(page_id),
        Some(new.page_table[page_id]) == fetched_frame(outcome),
        new.frames[new.page_table[page_id] as int].page_id == Some(page_id),
        new.frames[new.page_table[page_id] as int].pin_count > 0,
{
}

/// A second request for a page, right after a first one got it a frame, finds it resident in
/// that same frame: a cache hit.
pub proof fn lemma_second_fetch_hits(
    s0: PoolView,
    page_id: u32,
    first: PageFetch,
    s1: PoolView,
    second: PageFetch,
    s2: PoolView,
)
    requires
        pool_wf(s0),
        fetch_spec(s0, page_id, first, s1),
        first != PageFetch::AllPinned,
        s0.page_table.contains_key(page_id) ==> s0.frames[s0.page_table[page_id] as int].pin_count
            < u32::MAX,
        fetch_spec(s1, page_id, second, s2),
    ensures
        second == PageFetch::Resident(fetched_frame(first).unwrap()),
{
    lemma_fetch_pins_page(s0, page_id, first, s1);
}

/// Releasing, without writing, the pin that a request for a resident page took restores the
/// bookkeeping as it was before the request.
pub proof fn lemma_release_undoes_hit(
    s0: PoolView,
    page_id: u32,
    frame_idx: usize,
    s1: PoolView,
    s2: PoolView,
)
    requires
        pool_wf(s0),
        fetch_spec(s0, page_id, PageFetch::Resident(frame_idx), s1),
        s0.frames[frame_idx as int].pin_count < u32::MAX,
        release_spec(s1, frame_idx as int, false, s2),
    ensures
        s2 == s0,
{
    assert(s2.frames =~= s0.frames);
}

/// Releasing, without writing, the pin that any granted request took leaves every frame with
/// the pin count it had before the request, whether the page was resident or loaded.
pub proof fn lemma_release_restores_pins(
    s0: PoolView,
    page_id: u32,
    outcome: PageFetch,
    s1: PoolView,
    s2: PoolView,
)
    requires
        pool_wf(s0),
        fetch_spec(s0, page_id, outcome, s1),
        outcome != PageFetch::AllPinned,
        s0.page_table.contains_key(page_id) ==> s0.frames[s0.page_table[page_id] as int].pin_count
            < u32::MAX,
        release_spec(s1, fetched_frame(outcome).unwrap() as int, false, s2),
    ensures
        forall|i: int| 0 <= i < BUFF_POOL_SIZE ==> #[trigger] s2.frames[i].pin_count
            == s0.frames[i].pin_count,
        s2.page_table == s1.page_table,
{
}

/// Releasing, with or without writing, the pin that any granted request took leaves every
/// frame with the pin count it had before the request: a writer's release, like a reader's,
/// gives up exactly its own pin. Where the holder wrote, the frame is dirty.
pub proof fn lemma_release_after_write_restores_pins(
    s0: PoolView,
    page_id: u32,
    outcome: PageFetch,
    s1: PoolView,
    dirtied: bool,
    s2: PoolView,
)
    requires
        pool_wf(s0),
        fetch_spec(s0, page_id, outcome, s1),
        outcome != PageFetch::AllPinned,
        s0.page_table.contains_key(page_id) ==> s0.frames[s0.page_table[page_id] as int].pin_count
            < u32::MAX,
        release_spec(s1, fetched_frame(outcome).unwrap() as int, dirtied, s2),
    ensures
        forall|i: int| 0 <= i < BUFF_POOL_SIZE ==> #[trigger] s2.frames[i].pin_count
            == s0.frames[i].pin_count,
        s2.page_table == s1.page_table,
        dirtied ==> s2.frames[fetched_frame(outcome).unwrap() as int].is_dirty,
{
}

/// A release takes exactly one pin off the frame it names, none where it had none, whether or
/// not the holder wrote; every other frame keeps its pins.
pub proof fn lemma_release_takes_one_pin(
    old: PoolView,
    frame_idx: int,
    dirtied: bool,
    new: PoolView,
)
    requires
        pool_wf(old),
        0 <= frame_idx < BUFF_POOL_SIZE,
        release_spec(old, frame_idx, dirtied, new),
    ensures
        old.frames[frame_idx].pin_count > 0 ==> new.frames[frame_idx].pin_count + 1
            == old.frames[frame_idx].pin_count,
        old.frames[frame_idx].pin_count == 0 ==> new.frames[frame_idx].pin_count == 0,
        forall|i: int|
            0 <= i < BUFF_POOL_SIZE && i != frame_idx ==> #[trigger] new.frames[i]
                == old.frames[i],
        new.page_table == old.page_table,
        new.frames[frame_idx].page_id == old.frames[frame_idx].page_id,
{
}

/// A request never takes a page out of a pinned frame: every page resident in a pinned frame
/// stays resident in that frame.
pub proof fn lemma_pinned_pages_stay(
    s0: PoolView,
    page_id: u32,
    outcome: PageFetch,
    s1: PoolView,
    other: u32,
)
    requires
        pool_wf(s0),
        fetch_spec(s0, page_id, outcome, s1),
        s0.page_table.contains_key(other),
        is_pinned(s0, s0.page_table[other] as int),
    ensures
        s1.page_table.contains_key(other),
        s1.page_table[other] == s0.page_table[other],
        s1.frames[s1.page_table[other] as int].page_id == Some(other),
{
    if let PageFetch::Load { frame_idx: r, write_back: _ } = outcome {
        if !s0.page_table.contains_key(page_id) && !all_pinned(s0) {
            assert(r != s0.page_table[other]);
            if let Some(q) = s0.frames[r as int].page_id {
                assert(s0.page_table[q] == r);
            }
        }
    }
}

/// A frame whose bytes changed is not reused before they are written back: where CLOCK picks a
/// dirty frame, the request names the page that the frame held, to be written first.
pub proof fn lemma_dirty_frame_written_back(
    s0: PoolView,
    page_id: u32,
    frame_idx: usize,
    write_back: Option<u32>,
    s1: PoolView,
)
    requires
        pool_wf(s0),
        fetch_spec(s0, page_id, PageFetch::Load { frame_idx, write_back }, s1),
        s0.frames[frame_idx as int].is_dirty,
    ensures
        write_back is Some,
        write_back == s0.frames[frame_idx as int].page_id,
{
}

/// The buffer's bookkeeping: which frame holds which page, each frame's pins and dirtiness,
/// and the CLOCK hand and reference bits that choose which frame to reuse.
#[derive(Debug)]
pub struct BufferManagerInternals {
    page_table: HashMap<u32, usize>,
    frame_metadata: [FrameMetadata; BUFF_POOL_SIZE],
    cache_reference_bits: [bool; BUFF_POOL_SIZE],
    cache_cursor: usize,
}

impl View for BufferManagerInternals {
    type V = PoolView;

    closed spec fn view(&self) -> PoolView {
        PoolView {
            page_table: self.page_table@,
            frames: self.frame_metadata@,
            reference_bits: self.cache_reference_bits@,
            cursor: self.cache_cursor as nat,
        }
    }
}

impl BufferManagerInternals {
    /// The bookkeeping is consistent.
    pub open spec fn wf(&self) -> bool {
        pool_wf(self@)
    }

    /// Empty bookkeeping: no page resident, every frame empty and clean, every reference bit
    /// clear, the hand at the first frame.
    pub fn new() -> (pool: BufferManagerInternals)
        ensures
            pool.wf(),
            pool@.page_table == Map::<u32, usize>::empty(),
            forall|i: int|
                0 <= i < BUFF_POOL_SIZE ==> pool@.frames[i] == (FrameMetadata { page_id: None, pin_count: 0, is_dirty: false })
                    && !pool@.reference_bits[i],
            pool@.cursor == 0,
    {
        let pool = BufferManagerInternals {
            page_table: HashMap::new(),
            frame_metadata: [FrameMetadata::empty(); BUFF_POOL_SIZE],
            cache_reference_bits: [false; BUFF_POOL_SIZE],
            cache_cursor: 0,
        };
        pool
    }
    /// The frame that holds page `page_id`, where it is resident.
    pub fn frame_of(&self, page_id: u32) -> (frame_idx: Option<usize>)
        requires
            self.wf(),
        ensures
            frame_idx == (if self@.page_table.contains_key(page_id) {
                Some(self@.page_table[page_id])
            } else {
                None
            }),
    {
        match self.page_table.get(&page_id) {
            Some(idx) => Some(*idx),
            None => None,
        }
    }

    /// The metadata of frame `frame_idx`.
    pub fn frame(&self, frame_idx: usize) -> (meta: FrameMetadata)
        requires
            self.wf(),
            frame_idx < BUFF_POOL_SIZE,
        ensures
            meta == self@.frames[frame_idx as int],
    {
        self.frame_metadata[frame_idx]
    }

    /// Whether every frame is pinned.
    fn all_frames_pinned(&self) -> (all: bool)
        requires
            self.wf(),
        ensures
            all == all_pinned(self@),
    {
        let mut i: usize = 0;
        while i < BUFF_POOL_SIZE
            invariant
                self.wf(),
                i <= BUFF_POOL_SIZE,
                forall|j: int| 0 <= j < i ==> #[trigger] is_pinned(self@, j),
            decreases BUFF_POOL_SIZE - i,
        {
            if self.frame_metadata[i].pin_count == 0 {
                assert(!is_pinned(self@, i as int));
                return false;
            }
            i = i + 1;
        }
        true
    }

    /// Chooses a frame to reuse by CLOCK: `None` where every frame is pinned; else the hand
    /// sweeps from its place, clearing the reference bits of the unpinned frames it passes,
    /// and stops on an unpinned frame with a clear bit, which it returns.
    pub fn find_replaceable_frame(&mut self) -> (victim: Option<usize>)
        requires
            old(self).wf(),
        ensures
            final(self).wf(),
            clock_sweep(old(self)@, victim, final(self)@),
    {
        if self.all_frames_pinned() {
            return None;
        }
        let ghost start = self@;
        let ghost c0 = self.cache_cursor as int;
        let ghost bits0 = self.cache_reference_bits@;
        let ghost candidate = has_candidate(start);
        let ghost unpinned = choose|i: int| 0 <= i < BUFF_POOL_SIZE && !is_pinned(start, i);
        let ghost witness = if candidate {
            choose|i: int| 0 <= i < BUFF_POOL_SIZE && !is_pinned(start, i) && !bits0[i]
        } else {
            unpinned
        };
        let ghost mut steps: int = 0;
        while self.cache_reference_bits[self.cache_cursor]
            || self.frame_metadata[self.cache_cursor].pin_count > 0
            invariant
                self.wf(),
                self@.page_table == start.page_table,
                self@.frames == start.frames,
                0 <= c0 < BUFF_POOL_SIZE,
                0 <= witness < BUFF_POOL_SIZE,
                !is_pinned(start, witness),
                candidate == has_candidate(start),
                candidate ==> !bits0[witness],
                bits0.len() == BUFF_POOL_SIZE,
                0 <= steps,
                self.cache_cursor == sweep_position(c0, steps),
                candidate ==> steps <= sweep_offset(c0, witness),
                !candidate ==> steps <= BUFF_POOL_SIZE + sweep_offset(c0, witness),
                forall|j: int|
                    0 <= j < steps && j < BUFF_POOL_SIZE ==> is_pinned(
                        start,
                        sweep_position(c0, j),
                    ) || bits0[sweep_position(c0, j)],
                forall|j: int|
                    BUFF_POOL_SIZE <= j < steps ==> is_pinned(start, sweep_position(c0, j)),
                forall|i: int|
                    0 <= i < BUFF_POOL_SIZE ==> #[trigger] self.cache_reference_bits@[i] == (
                    bits0[i] && !(!is_pinned(start, i) && sweep_offset(c0, i) < steps)),
            decreases 2 * BUFF_POOL_SIZE - steps,
        {
            if self.frame_metadata[self.cache_cursor].pin_count > 0 {
                self.cache_cursor = (self.cache_cursor + 1) % BUFF_POOL_SIZE;
                proof {
                    steps = steps + 1;
                }
                continue ;
            }
            self.cache_reference_bits[self.cache_cursor] = false;
            self.cache_cursor = (self.cache_cursor + 1) % BUFF_POOL_SIZE;
            proof {
                steps = steps + 1;
            }
        }
        proof {
            let r = self.cache_cursor as int;
            assert(!is_pinned(start, r) && !self.cache_reference_bits@[r]);
            if candidate {
                assert(sweep_offset(c0, r) == steps);
                assert forall|i: int|
                    0 <= i < BUFF_POOL_SIZE && sweep_offset(c0, i) < sweep_offset(c0, r) implies
                    is_pinned(start, i) || bits0[i] by {
                    assert(sweep_position(c0, sweep_offset(c0, i)) == i);
                }
            } else {
                if steps < BUFF_POOL_SIZE {
                    assert(sweep_offset(c0, r) == steps);
                    assert(!is_pinned(start, r) && !bits0[r]);
                    assert(has_candidate(start));
                }
                assert(sweep_offset(c0, r) == steps - BUFF_POOL_SIZE);
                assert forall|i: int|
                    0 <= i < BUFF_POOL_SIZE && sweep_offset(c0, i) < sweep_offset(c0, r) implies
                    is_pinned(start, i) by {
                    assert(sweep_position(c0, BUFF_POOL_SIZE + sweep_offset(c0, i)) == i);
                }
            }
        }
        Some(self.cache_cursor)
    }
    /// Brings page `page_id` into a frame and pins it, as a request for the page does: a
    /// resident page's frame gains a pin; else CLOCK picks a frame to reuse, unless every frame
    /// is pinned. The caller does the disk work that a `Load` names.
    pub fn pin_page(&mut self, page_id: u32) -> (outcome: PageFetch)
        requires
            old(self).wf(),
            old(self)@.page_table.contains_key(page_id) ==> old(self)@.frames[old(
                self,
            )@.page_table[page_id] as int].pin_count < u32::MAX,
        ensures
            final(self).wf(),
            fetch_spec(old(self)@, page_id, outcome, final(self)@),
    {
        let resident = match self.page_table.get(&page_id) {
            Some(idx) => Some(*idx),
            None => None,
        };
        match resident {
            Some(idx) => {
                let mut meta = self.frame_metadata[idx];
                meta.pin_count = meta.pin_count + 1;
                self.frame_metadata[idx] = meta;
                proof {
                    assert(self@.frames =~= old(self)@.frames.update(
                        idx as int,
                        pinned_once_more(old(self)@.frames[idx as int]),
                    ));
                }
                PageFetch::Resident(idx)
            },
            None => {
                let frame_idx = match self.find_replaceable_frame() {
                    Some(i) => i,
                    None => {
                        return PageFetch::AllPinned;
                    },
                };
                let ghost swept = self@;
                let old_meta = self.frame_metadata[frame_idx];
                let write_back = if old_meta.is_dirty {
                    old_meta.page_id
                } else {
                    None
                };
                if let Some(old_page) = old_meta.page_id {
                    self.page_table.remove(&old_page);
                }
                self.page_table.insert(page_id, frame_idx);
                self.frame_metadata[frame_idx] = FrameMetadata {
                    page_id: Some(page_id),
                    pin_count: 1,
                    is_dirty: false,
                };
                proof {
                    let v = self@;
                    assert forall|p: u32| #[trigger] v.page_table.contains_key(p) implies v.page_table[p]
                        < BUFF_POOL_SIZE && v.frames[v.page_table[p] as int].page_id == Some(p) by {
                        if p != page_id {
                            assert(swept.page_table.contains_key(p));
                        }
                    }
                    assert forall|i: int|
                        0 <= i < BUFF_POOL_SIZE && (#[trigger] v.frames[i]).page_id is Some implies v.page_table.contains_key(
                            v.frames[i].page_id->0,
                        ) && v.page_table[v.frames[i].page_id->0] == i by {
                        if i != frame_idx {
                            assert(swept.frames[i] == v.frames[i]);
                        }
                    }
                }
                PageFetch::Load { frame_idx, write_back }
            },
        }
    }

    /// Releases one pin on frame `frame_idx`, as dropping a page guard does; where the holder
    /// wrote to the frame, it becomes dirty.
    pub fn release_frame(&mut self, frame_idx: usize, dirtied: bool)
        requires
            old(self).wf(),
            frame_idx < BUFF_POOL_SIZE,
            dirtied ==> old(self)@.frames[frame_idx as int].page_id is Some,
        ensures
            final(self).wf(),
            release_spec(old(self)@, frame_idx as int, dirtied, final(self)@),
    {
        let mut meta = self.frame_metadata[frame_idx];
        if dirtied {
            meta.is_dirty = true;
        }
        meta.pin_count = meta.pin_count.saturating_sub(1);
        self.frame_metadata[frame_idx] = meta;
        proof {
            let old_meta = old(self)@.frames[frame_idx as int];
            assert(self@.frames =~= old(self)@.frames.update(
                frame_idx as int,
                FrameMetadata {
                    pin_count: if old_meta.pin_count > 0 {
                        (old_meta.pin_count - 1) as u32
                    } else {
                        0
                    },
                    is_dirty: old_meta.is_dirty || dirtied,
                    ..old_meta
                },
            ));
        }
    }

    /// The page that frame `frame_idx` must write back to disk before it is clean: its page
    /// where it is dirty, else `None`.
    pub fn dirty_page(&self, frame_idx: usize) -> (page: Option<u32>)
        requires
            self.wf(),
            frame_idx < BUFF_POOL_SIZE,
        ensures
            page == (if self@.frames[frame_idx as int].is_dirty {
                self@.frames[frame_idx as int].page_id
            } else {
                None
            }),
            self@.frames[frame_idx as int].is_dirty ==> page is Some,
    {
        let meta = self.frame_metadata[frame_idx];
        if meta.is_dirty {
            meta.page_id
        } else {
            None
        }
    }

    /// Marks frame `frame_idx` clean, once its bytes are on disk.
    pub fn mark_clean(&mut self, frame_idx: usize)
        requires
            old(self).wf(),
            frame_idx < BUFF_POOL_SIZE,
        ensures
            final(self).wf(),
            final(self)@ == (PoolView {
                frames: old(self)@.frames.update(
                    frame_idx as int,
                    FrameMetadata { is_dirty: false, ..old(self)@.frames[frame_idx as int] },
                ),
                ..old(self)@
            }),
    {
        let mut meta = self.frame_metadata[frame_idx];
        meta.is_dirty = false;
        self.frame_metadata[frame_idx] = meta;
        proof {
            assert(self@.frames =~= old(self)@.frames.update(
                frame_idx as int,
                FrameMetadata { is_dirty: false, ..old(self)@.frames[frame_idx as int] },
            ));
        }
    }
}

} // verus!
