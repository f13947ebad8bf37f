use vstd::prelude::*;

use std::collections::HashMap;

use crate::bpm_error::BufferPoolError;
use crate::evictor::{ClockEvictor, Evictor};
use crate::frame::Frame;
use crate::page_id::{PageId, PAGE_SIZE};

verus! {

broadcast use vstd::std_specs::hash::group_hash_axioms;

/// The key of a page in the page table: the table ID in the high half, the page index in the
/// low half.
pub open spec fn page_key(p: PageId) -> u64 {
    (p.table_id as int * 0x1_0000_0000 + p.page_index as int) as u64
}

/// Two pages with the same key are the same page.
pub proof fn lemma_page_key_injective(a: PageId, b: PageId)
    ensures
        page_key(a) == page_key(b) ==> a == b,
{
    let ka = a.table_id as int * 0x1_0000_0000 + a.page_index as int;
    let kb = b.table_id as int * 0x1_0000_0000 + b.page_index as int;
    assert(0 <= ka <= u64::MAX && 0 <= kb <= u64::MAX) by (nonlinear_arith)
        requires
            a.table_id <= u32::MAX,
            b.table_id <= u32::MAX,
            a.page_index <= u32::MAX,
            b.page_index <= u32::MAX,
            ka == a.table_id as int * 0x1_0000_0000 + a.page_index as int,
            kb == b.table_id as int * 0x1_0000_0000 + b.page_index as int,
    ;
    if ka == kb {
        assert(a.table_id == b.table_id && a.page_index == b.page_index) by (nonlinear_arith)
            requires
                ka == kb,
                a.page_index <= u32::MAX,
                b.page_index <= u32::MAX,
                ka == a.table_id as int * 0x1_0000_0000 + a.page_index as int,
                kb == b.table_id as int * 0x1_0000_0000 + b.page_index as int,
        ;
    }
}

/// A pinned frame is never evicted: only unpinned frames holding a page are eligible, and
/// the clock takes only eligible frames. A cached page's frame holds that page.
pub proof fn lemma_pinned_frame_is_not_evicted(pool: BufferPoolManager, f: int, page_id: PageId)
    requires
        pool.wf(),
        0 <= f < pool.frames@.len(),
    ensures
        pool.frames@[f].pin_count > 0 ==> !pool.evictor.is_eligible(f) && !pool.evictor.state.is_clock_victim(f),
        pool.page_table@.contains_key(page_key(page_id)) ==> pool.frames@[pool.page_table@[page_key(
            page_id,
        )] as int].page_id == Some(page_id),
{
    if pool.page_table@.contains_key(page_key(page_id)) {
        let g = pool.page_table@[page_key(page_id)];
        lemma_page_key_injective(pool.frames@[g as int].page_id->0, page_id);
    }
}

/// Computes the page-table key of a page.
pub fn page_table_key(page_id: PageId) -> (r: u64)
    ensures
        r == page_key(page_id),
{
    let t: u64 = page_id.table_id as u64;
    assert(t * 0x1_0000_0000 + page_id.page_index as int <= u64::MAX) by (nonlinear_arith)
        requires
            t <= u32::MAX,
            page_id.page_index <= u32::MAX,
    ;
    t * 0x1_0000_0000u64 + page_id.page_index as u64
}

/// The pin count after one more pin: it wraps round at the top of `usize`.
pub open spec fn pinned_once_more(count: usize) -> usize {
    if count == usize::MAX {
        0
    } else {
        (count + 1) as usize
    }
}

/// What a fetch found: the page was cached in the frame, or the frame was assigned to the
/// page and its bytes must now be read from disk, after the page and bytes of a dirty
/// evicted page, if any, are written back.
#[derive(Debug, PartialEq, Eq)]
pub enum FetchedFrame {
    Hit(usize),
    Miss(usize, Option<(PageId, [u8; PAGE_SIZE])>),
}

/// The cache of pages in memory: the frames, the frames that were never used, the page table
/// from page keys to frames, and the evictor that picks among unpinned cached frames.
pub struct BufferPoolManager {
    pub frames: Vec<Frame>,
    pub free_frames: Vec<usize>,
    pub page_table: HashMap<u64, usize>,
    pub evictor: ClockEvictor,
}

impl BufferPoolManager {
    /// The pool is consistent: the evictor covers the frames; frame `i` has ID `i`; the free
    /// list holds distinct frames holding no page; the page table maps each key to a frame
    /// holding the page of that key; an eligible frame holds a page and is unpinned.
    pub open spec fn wf(&self) -> bool {
        let n = self.frames@.len();
        &&& self.evictor.wf()
        &&& self.evictor.frame_count() == n
        &&& forall|i: int| 0 <= i < n ==> (#[trigger] self.frames@[i]).id == i
        &&& forall|j: int| 0 <= j < self.free_frames@.len() ==> #[trigger] self.free_frames@[j] < n
        &&& forall|j: int|
            0 <= j < self.free_frames@.len() ==> (#[trigger] self.frames@[self.free_frames@[j] as int]).page_id is None
        &&& forall|j: int, k: int|
            0 <= j < k < self.free_frames@.len() ==> #[trigger] self.free_frames@[j] != #[trigger] self.free_frames@[k]
        &&& forall|k: u64|
            #[trigger] self.page_table@.contains_key(k) ==> self.page_table@[k] < n && (
            self.frames@[self.page_table@[k] as int].page_id matches Some(p) && page_key(p) == k)
        &&& forall|f: int|
            #[trigger] self.evictor.is_eligible(f) ==> self.frames@[f].page_id is Some && self.frames@[f].pin_count
                == 0
    }

    /// A pool of `size` frames, all free, with an empty page table. Frames are taken from the
    /// end of the free list, so the last frame is used first.
    pub fn new(size: usize) -> (r: Self)
        ensures
            r.wf(),
            r.frames@.len() == size,
            forall|i: int| 0 <= i < size ==> #[trigger] r.frames@[i] == (Frame {
                data: r.frames@[i].data,
                id: i as usize,
                is_dirty: false,
                page_id: None,
                pin_count: 0,
            }) && r.frames@[i].data@ == Seq::new(PAGE_SIZE as nat, |k: int| 0u8),
            r.free_frames@ == Seq::new(size as nat, |i: int| i as usize),
            r.page_table@ == Map::<u64, usize>::empty(),
            forall|f: int| !#[trigger] r.evictor.is_eligible(f),
    {
        let mut frames: Vec<Frame> = Vec::new();
        let mut free_frames: Vec<usize> = Vec::new();
        let mut i: usize = 0;
        while i < size
            invariant
                0 <= i <= size,
                frames@.len() == i,
                free_frames@ == Seq::new(i as nat, |k: int| k as usize),
                forall|k: int| 0 <= k < i ==> #[trigger] frames@[k] == (Frame {
                    data: frames@[k].data,
                    id: k as usize,
                    is_dirty: false,
                    page_id: None,
                    pin_count: 0,
                }) && frames@[k].data@ == Seq::new(PAGE_SIZE as nat, |j: int| 0u8),
            decreases size - i,
        {
            frames.push(Frame::new(i));
            free_frames.push(i);
            i = i + 1;
            proof {
                assert(free_frames@ =~= Seq::new(i as nat, |k: int| k as usize));
            }
        }
        let page_table: HashMap<u64, usize> = HashMap::new();
        let evictor = ClockEvictor::new(size);
        BufferPoolManager { frames, free_frames, page_table, evictor }
    }

    /// How many frames were never used.
    pub fn get_free_frame_count(&self) -> (r: usize)
        ensures
            r == self.free_frames@.len(),
    {
        self.free_frames.len()
    }

    /// The pin count of the frame caching the page, or `None` when the page is not cached.
    pub fn get_pin_count(&self, page_id: PageId) -> (r: Option<usize>)
        requires
            self.wf(),
        ensures
            self.page_table@.contains_key(page_key(page_id)) ==> r == Some(
                self.frames@[self.page_table@[page_key(page_id)] as int].pin_count,
            ),
            !self.page_table@.contains_key(page_key(page_id)) ==> r is None,
    {
        let key = page_table_key(page_id);
        match self.page_table.get(&key) {
            Some(frame_id) => {
                let frame_id = *frame_id;
                Some(self.frames[frame_id].get_pin_count())
            },
            None => None,
        }
    }

    /// Pins the frame once more. A frame that goes from unpinned to pinned is no longer
    /// eligible for eviction.
    pub fn pin_frame(&mut self, frame_id: usize)
        requires
            old(self).wf(),
            frame_id < old(self).frames@.len(),
        ensures
            final(self).wf(),
            final(self).frames@ == old(self).frames@.update(
                frame_id as int,
                Frame { pin_count: pinned_once_more(old(self).frames@[frame_id as int].pin_count), ..old(self).frames@[frame_id as int] },
            ),
            final(self).free_frames@ == old(self).free_frames@,
            final(self).page_table@ == old(self).page_table@,
            forall|f: int| #[trigger] final(self).evictor.is_eligible(f) == (old(self).evictor.is_eligible(f) && f != frame_id),
            final(self).evictor.state.clock_hand == old(self).evictor.state.clock_hand,
    {
        let ghost old_frames = self.frames@;
        if self.frames[frame_id].increment_pin_count() == 0 {
            self.evictor.remove(frame_id);
        }
        proof {
            assert(self.frames@ =~= old_frames.update(
                frame_id as int,
                Frame { pin_count: pinned_once_more(old_frames[frame_id as int].pin_count), ..old_frames[frame_id as int] },
            ));
        }
    }

    /// Unpins the frame once, as a page guard does when it is released. A cached frame that
    /// becomes unpinned is eligible for eviction again.
    pub fn unpin_frame(&mut self, frame_id: usize)
        requires
            old(self).wf(),
            frame_id < old(self).frames@.len(),
            old(self).frames@[frame_id as int].pin_count > 0,
            old(self).frames@[frame_id as int].page_id is Some,
        ensures
            final(self).wf(),
            final(self).frames@ == old(self).frames@.update(
                frame_id as int,
                Frame { pin_count: (old(self).frames@[frame_id as int].pin_count - 1) as usize, ..old(self).frames@[frame_id as int] },
            ),
            final(self).free_frames@ == old(self).free_frames@,
            final(self).page_table@ == old(self).page_table@,
            forall|f: int| #[trigger] final(self).evictor.is_eligible(f) == (old(self).evictor.is_eligible(f) || (f
                == frame_id && old(self).frames@[frame_id as int].pin_count == 1)),
    {
        let ghost old_frames = self.frames@;
        if self.frames[frame_id].decrement_pin_count() == 1 {
            self.evictor.unpin(frame_id);
        }
        proof {
            assert(self.frames@ =~= old_frames.update(
                frame_id as int,
                Frame { pin_count: (old_frames[frame_id as int].pin_count - 1) as usize, ..old_frames[frame_id as int] },
            ));
        }
    }

    /// Takes the evictor's victim: its page leaves the page table and the frame is pinned
    /// for its next page. A dirty victim's page and bytes are returned, to be written back.
    /// `BufferFull` when no frame is eligible, and then nothing changes.
    pub fn evict_page(&mut self) -> (r: Result<(usize, Option<(PageId, [u8; PAGE_SIZE])>), BufferPoolError>)
        requires
            old(self).wf(),
        ensures
            final(self).wf(),
            final(self).free_frames@ == old(self).free_frames@,
            r is Err ==> r == Err::<(usize, Option<(PageId, [u8; PAGE_SIZE])>), BufferPoolError>(
                BufferPoolError::BufferFull,
            ) && (forall|f: int| 0 <= f < old(self).frames@.len() ==> !#[trigger] old(self).evictor.is_eligible(f))
                && final(self).frames@ == old(self).frames@ && final(self).page_table@ == old(self).page_table@
                && forall|f: int| #[trigger] final(self).evictor.is_eligible(f) == old(self).evictor.is_eligible(f),
            r matches Ok((f, flush)) ==> {
                let fr = old(self).frames@[f as int];
                &&& f < old(self).frames@.len()
                &&& old(self).evictor.state.is_clock_victim(f as int)
                &&& old(self).evictor.is_eligible(f as int)
                &&& fr.page_id is Some
                &&& final(self).page_table@ == old(self).page_table@.remove(page_key(fr.page_id->0))
                &&& final(self).frames@ == old(self).frames@.update(f as int, Frame { pin_count: 1, ..fr })
                &&& flush == if fr.is_dirty {
                    Some((fr.page_id->0, fr.data))
                } else {
                    None
                }
                &&& forall|g: int| #[trigger] final(self).evictor.is_eligible(g) == (old(self).evictor.is_eligible(g) && g != f)
            },
    {
        match self.evictor.victim() {
            Some(free_frame_id) => {
                let victim_page_id = self.frames[free_frame_id].get_page_id().unwrap();
                let key = page_table_key(victim_page_id);
                self.page_table.remove(&key);
                self.pin_frame(free_frame_id);
                if self.frames[free_frame_id].is_dirty() {
                    let page_data = *self.frames[free_frame_id].read_data();
                    Ok((free_frame_id, Some((self.frames[free_frame_id].get_page_id().unwrap(), page_data))))
                } else {
                    Ok((free_frame_id, None))
                }
            },
            None => Err(BufferPoolError::BufferFull),
        }
    }

    /// Places a newly allocated page in a frame: the last free frame, pinned once more, or
    /// else the evictor's victim, pinned once (its page leaves the page table, and a dirty
    /// victim's page and bytes are returned, to be written back). The frame records the page
    /// and the page table maps the page to it. A free frame or an eligible one must exist.
    pub fn create_page(&mut self, page_id: PageId) -> (r: (usize, Option<(PageId, [u8; PAGE_SIZE])>))
        requires
            old(self).wf(),
            old(self).free_frames@.len() > 0 || exists|f: int| #[trigger] old(self).evictor.is_eligible(f),
        ensures
            final(self).wf(),
            r.0 < old(self).frames@.len(),
            old(self).free_frames@.len() > 0 ==> {
                let f = old(self).free_frames@.last();
                let fr = old(self).frames@[f as int];
                &&& r == (f, None::<(PageId, [u8; PAGE_SIZE])>)
                &&& final(self).free_frames@ == old(self).free_frames@.drop_last()
                &&& final(self).frames@ == old(self).frames@.update(
                    f as int,
                    Frame { page_id: Some(page_id), pin_count: pinned_once_more(fr.pin_count), ..fr },
                )
                &&& final(self).page_table@ == old(self).page_table@.insert(page_key(page_id), f)
                &&& forall|g: int| #[trigger] final(self).evictor.is_eligible(g) == old(self).evictor.is_eligible(g)
            },
            old(self).free_frames@.len() == 0 ==> {
                let f = r.0;
                let fr = old(self).frames@[f as int];
                &&& old(self).evictor.state.is_clock_victim(f as int)
                &&& fr.page_id is Some
                &&& r.1 == if fr.is_dirty {
                    Some((fr.page_id->0, fr.data))
                } else {
                    None
                }
                &&& final(self).free_frames@ == old(self).free_frames@
                &&& final(self).frames@ == old(self).frames@.update(
                    f as int,
                    Frame { page_id: Some(page_id), pin_count: 1, ..fr },
                )
                &&& final(self).page_table@ == old(self).page_table@.remove(page_key(fr.page_id->0)).insert(
                    page_key(page_id),
                    f,
                )
                &&& forall|g: int| #[trigger] final(self).evictor.is_eligible(g) == (old(self).evictor.is_eligible(g) && g != f)
            },
    {
        let key = page_table_key(page_id);
        let ghost f0 = self.frames@;
        let ghost free0 = self.free_frames@;
        let mut page_data: Option<(PageId, [u8; PAGE_SIZE])> = None;
        let frame_id = if let Some(id) = self.free_frames.pop() {
            proof {
                assert(free0[free0.len() - 1] < f0.len());
            }
            self.pin_frame(id);
            id
        } else {
            let ghost e0 = self.evictor;
            match self.evict_page() {
                Ok((id, data)) => {
                    page_data = data;
                    id
                },
                Err(_) => {
                    proof {
                        let w = choose|f: int| #[trigger] old(self).evictor.is_eligible(f);
                        assert(e0.is_eligible(w));
                        assert(0 <= w < f0.len());
                    }
                    vstd::pervasive::unreached()
                },
            }
        };
        let ghost f1 = self.frames@;
        self.frames[frame_id].set_page_id(Some(page_id));
        self.page_table.insert(key, frame_id);
        proof {
            assert(self.frames@ =~= f1.update(frame_id as int, Frame { page_id: Some(page_id), ..f1[frame_id as int] }));
        }
        (frame_id, page_data)
    }

    /// Finds the frame for a page and pins it. A cached page gives `Hit` with its frame. Else
    /// the last free frame, or else the evictor's victim, is assigned to the page (the page
    /// table maps the page to it, the frame records the page and is pinned) and `Miss` asks
    /// the caller to read the page into it, after writing back the page and bytes that a dirty
    /// victim hands over. The frame is pinned once for the page. With no free frame and no
    /// eligible frame, `BufferFull`, and nothing changes.
    pub fn fetch_and_pin_frame(&mut self, page_id: PageId) -> (r: Result<FetchedFrame, BufferPoolError>)
        requires
            old(self).wf(),
        ensures
            final(self).wf(),
            old(self).page_table@.contains_key(page_key(page_id)) ==> {
                let f = old(self).page_table@[page_key(page_id)];
                let fr = old(self).frames@[f as int];
                &&& r == Ok::<FetchedFrame, BufferPoolError>(FetchedFrame::Hit(f))
                &&& final(self).frames@ == old(self).frames@.update(
                    f as int,
                    Frame { pin_count: pinned_once_more(fr.pin_count), ..fr },
                )
                &&& final(self).free_frames@ == old(self).free_frames@
                &&& final(self).page_table@ == old(self).page_table@
                &&& forall|g: int| #[trigger] final(self).evictor.is_eligible(g) == (old(self).evictor.is_eligible(g) && g != f)
            },
            !old(self).page_table@.contains_key(page_key(page_id)) && old(self).free_frames@.len() > 0 ==> {
                let f = old(self).free_frames@.last();
                let fr = old(self).frames@[f as int];
                &&& r == Ok::<FetchedFrame, BufferPoolError>(FetchedFrame::Miss(f, None))
                &&& final(self).frames@ == old(self).frames@.update(
                    f as int,
                    Frame { page_id: Some(page_id), pin_count: pinned_once_more(fr.pin_count), ..fr },
                )
                &&& final(self).free_frames@ == old(self).free_frames@.drop_last()
                &&& final(self).page_table@ == old(self).page_table@.insert(page_key(page_id), f)
                &&& forall|g: int| #[trigger] final(self).evictor.is_eligible(g) == old(self).evictor.is_eligible(g)
            },
            !old(self).page_table@.contains_key(page_key(page_id)) && old(self).free_frames@.len() == 0 && (exists|
                g: int,
            | #[trigger] old(self).evictor.is_eligible(g)) ==> (r matches Ok(FetchedFrame::Miss(f, flush)) && {
                let fr = old(self).frames@[f as int];
                &&& f < old(self).frames@.len()
                &&& old(self).evictor.state.is_clock_victim(f as int)
                &&& fr.page_id is Some
                &&& flush == if fr.is_dirty {
                    Some((fr.page_id->0, fr.data))
                } else {
                    None
                }
                &&& final(self).frames@ == old(self).frames@.update(
                    f as int,
                    Frame { page_id: Some(page_id), pin_count: 1, ..fr },
                )
                &&& final(self).free_frames@ == old(self).free_frames@
                &&& final(self).page_table@ == old(self).page_table@.remove(page_key(fr.page_id->0)).insert(
                    page_key(page_id),
                    f,
                )
                &&& forall|g: int| #[trigger] final(self).evictor.is_eligible(g) == (old(self).evictor.is_eligible(g) && g != f)
            }),
            !old(self).page_table@.contains_key(page_key(page_id)) && old(self).free_frames@.len() == 0 && !(exists|
                g: int,
            | #[trigger] old(self).evictor.is_eligible(g)) ==> r == Err::<FetchedFrame, BufferPoolError>(
                BufferPoolError::BufferFull,
            ) && final(self).frames@ == old(self).frames@ && final(self).free_frames@ == old(self).free_frames@
                && final(self).page_table@ == old(self).page_table@ && forall|g: int|
                #[trigger] final(self).evictor.is_eligible(g) == old(self).evictor.is_eligible(g),
    {
        let key = page_table_key(page_id);
        if let Some(cached) = self.page_table.get(&key) {
            let frame_id = *cached;
            self.pin_frame(frame_id);
            return Ok(FetchedFrame::Hit(frame_id));
        }
        let ghost f0 = self.frames@;
        let ghost free0 = self.free_frames@;
        let ghost e0 = self.evictor;
        let mut page_data: Option<(PageId, [u8; PAGE_SIZE])> = None;
        let mut from_free_list = false;
        let available_frame_id = if let Some(free_frame_id) = self.free_frames.pop() {
            proof {
                assert(free0[free0.len() - 1] < f0.len());
            }
            from_free_list = true;
            Some(free_frame_id)
        } else {
            match self.evict_page() {
                Ok((evicted_frame_id, data)) => {
                    page_data = data;
                    Some(evicted_frame_id)
                },
                Err(_) => {
                    proof {
                        if exists|g: int| #[trigger] old(self).evictor.is_eligible(g) {
                            let w = choose|g: int| #[trigger] old(self).evictor.is_eligible(g);
                            assert(e0.is_eligible(w));
                            assert(0 <= w < f0.len());
                            assert(self.evictor.is_eligible(w));
                        }
                    }
                    None
                },
            }
        };
        match available_frame_id {
            None => Err(BufferPoolError::BufferFull),
            Some(frame_id) => {
                let ghost f1 = self.frames@;
                self.page_table.insert(key, frame_id);
                self.frames[frame_id].set_page_id(Some(page_id));
                proof {
                    assert(self.frames@ =~= f1.update(frame_id as int, Frame { page_id: Some(page_id), ..f1[frame_id as int] }));
                }
                if from_free_list {
                    self.pin_frame(frame_id);
                }
                Ok(FetchedFrame::Miss(frame_id, page_data))
            },
        }
    }

    /// Copies the bytes read from disk into the frame, as a fetch that missed does.
    pub fn load_page(&mut self, frame_id: usize, data: &[u8; PAGE_SIZE])
        requires
            old(self).wf(),
            frame_id < old(self).frames@.len(),
        ensures
            final(self).wf(),
            final(self).frames@ == old(self).frames@.update(
                frame_id as int,
                Frame { data: *data, ..old(self).frames@[frame_id as int] },
            ),
            final(self).free_frames@ == old(self).free_frames@,
            final(self).page_table@ == old(self).page_table@,
            forall|g: int| #[trigger] final(self).evictor.is_eligible(g) == old(self).evictor.is_eligible(g),
    {
        let ghost f0 = self.frames@;
        self.frames[frame_id].data = *data;
        proof {
            assert(self.frames@ =~= f0.update(frame_id as int, Frame { data: *data, ..f0[frame_id as int] }));
        }
    }
}

} // verus!
