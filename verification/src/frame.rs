use vstd::prelude::*;

use crate::page_id::{PageId, PAGE_SIZE};

verus! {

/// A buffer pool frame: the bytes of one cached page, the page it holds, how many users have
/// it pinned and whether it changed since it was read.
pub struct Frame {
    pub data: [u8; PAGE_SIZE],
    pub id: usize,
    pub is_dirty: bool,
    pub page_id: Option<PageId>,
    pub pin_count: usize,
}

impl Frame {
    /// A frame with the given ID: zero-filled, holding no page, unpinned and clean.
    pub fn new(id: usize) -> (r: Frame)
        ensures
            r.id == id,
            r.data@ == Seq::new(PAGE_SIZE as nat, |i: int| 0u8),
            r.page_id is None,
            r.pin_count == 0,
            !r.is_dirty,
    {
        let r = Frame { data: [0u8; PAGE_SIZE], id, page_id: None, pin_count: 0, is_dirty: false };
        assert(r.data@ =~= Seq::new(PAGE_SIZE as nat, |i: int| 0u8));
        r
    }

    /// Unpins the frame once; returns the pin count before. The frame must be pinned.
    pub fn decrement_pin_count(&mut self) -> (r: usize)
        requires
            old(self).pin_count > 0,
        ensures
            r == old(self).pin_count,
            *final(self) == (Frame { pin_count: (old(self).pin_count - 1) as usize, ..*old(self) }),
    {
        let prev_count = self.pin_count;
        self.pin_count = prev_count - 1;
        prev_count
    }

    /// The frame's ID.
    pub fn get_id(&self) -> (r: usize)
        ensures
            r == self.id,
    {
        self.id
    }

    /// The page the frame holds, if any.
    pub fn get_page_id(&self) -> (r: Option<PageId>)
        ensures
            r == self.page_id,
    {
        self.page_id
    }

    /// How many users have the frame pinned.
    pub fn get_pin_count(&self) -> (r: usize)
        ensures
            r == self.pin_count,
    {
        self.pin_count
    }

    /// Pins the frame once more; returns the pin count before. The count wraps around at the
    /// top of `usize` as an atomic `fetch_add` does.
    pub fn increment_pin_count(&mut self) -> (r: usize)
        ensures
            r == old(self).pin_count,
            *final(self) == (Frame {
                pin_count: if old(self).pin_count == usize::MAX {
                    0
                } else {
                    (old(self).pin_count + 1) as usize
                },
                ..*old(self)
            }),
    {
        let prev_count = self.pin_count;
        self.pin_count = if prev_count == usize::MAX {
            0
        } else {
            prev_count + 1
        };
        prev_count
    }

    /// Whether the frame changed since its page was read.
    pub fn is_dirty(&self) -> (r: bool)
        ensures
            r == self.is_dirty,
    {
        self.is_dirty
    }

    /// The bytes of the frame.
    pub fn read_data(&self) -> (r: &[u8; PAGE_SIZE])
        ensures
            *r == self.data,
    {
        &self.data
    }

    /// Marks the frame as changed or not.
    pub fn set_dirty(&mut self, val: bool)
        ensures
            *final(self) == (Frame { is_dirty: val, ..*old(self) }),
    {
        self.is_dirty = val;
    }

    /// Records which page the frame holds.
    pub fn set_page_id(&mut self, page_id: Option<PageId>)
        ensures
            *final(self) == (Frame { page_id: page_id, ..*old(self) }),
    {
        self.page_id = page_id;
    }

    /// The bytes of the frame, to be changed.
    pub fn write_data(&mut self) -> (r: &mut [u8; PAGE_SIZE])
        ensures
            *r == old(self).data,
            *final(self) == (Frame { data: *final(r), ..*old(self) }),
    {
        &mut self.data
    }
}

impl Default for Frame {
    fn default() -> (r: Frame)
        ensures
            r.id == 0,
            r.data@ == Seq::new(PAGE_SIZE as nat, |i: int| 0u8),
            r.page_id is None,
            r.pin_count == 0,
            !r.is_dirty,
    {
        Frame::new(0)
    }
}

} // verus!
