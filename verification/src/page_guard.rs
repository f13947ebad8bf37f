use vstd::prelude::*;

use crate::frame::Frame;
use crate::page_id::{PageId, PAGE_SIZE};

verus! {

/// Read access to the bytes of a pinned frame. Releasing the guard unpins the frame, so that a
/// user of the buffer pool does not unpin it by hand.
pub struct PageReadGuard<'a> {
    pub frame: &'a mut Frame,
}

impl<'a> PageReadGuard<'a> {
    /// A guard over the frame.
    pub fn new(frame: &'a mut Frame) -> (r: Self)
        ensures
            *r.frame == *old(frame),
            *final(frame) == *final(r.frame),
    {
        Self { frame }
    }

    /// The bytes of the frame.
    pub fn data(&self) -> (r: &[u8; PAGE_SIZE])
        ensures
            *r == old(self.frame).data,
    {
        &self.frame.data
    }

    /// Ends the read: unpins the frame once. The frame must be pinned.
    pub fn release(self)
        requires
            self.frame.pin_count > 0,
        ensures
            *final(self.frame) == (Frame { pin_count: (old(self.frame).pin_count - 1) as usize, ..*old(self.frame) }),
    {
        self.frame.decrement_pin_count();
    }
}

/// Write access to the bytes of a pinned frame. Releasing the guard unpins the frame.
pub struct PageWriteGuard<'a> {
    pub frame: &'a mut Frame,
}

impl<'a> PageWriteGuard<'a> {
    /// A guard over the frame.
    pub fn new(frame: &'a mut Frame) -> (r: Self)
        ensures
            *r.frame == *old(frame),
            *final(frame) == *final(r.frame),
    {
        Self { frame }
    }

    /// Marks the frame as changed, so that it is written back before it is reused.
    pub fn mark_dirty(&mut self)
        ensures
            *final(self).frame == (Frame { is_dirty: true, ..*old(self).frame }),
            *final(final(self).frame) == *final(old(self).frame),
    {
        self.frame.set_dirty(true);
    }

    /// The page the frame holds; the frame must hold one.
    pub fn page_id(&self) -> (r: PageId)
        requires
            self.frame.page_id is Some,
        ensures
            r == old(self.frame).page_id->0,
    {
        self.frame.get_page_id().unwrap()
    }

    /// The bytes of the frame.
    pub fn data(&self) -> (r: &[u8; PAGE_SIZE])
        ensures
            *r == old(self.frame).data,
    {
        &self.frame.data
    }

    /// Writes one byte of the frame.
    pub fn write_byte(&mut self, index: usize, value: u8)
        requires
            index < PAGE_SIZE,
        ensures
            *final(self).frame == (Frame { data: final(self).frame.data, ..*old(self).frame }),
            final(self).frame.data@ == old(self).frame.data@.update(index as int, value),
            *final(final(self).frame) == *final(old(self).frame),
    {
        self.frame.data[index] = value;
    }

    /// Ends the write: unpins the frame once. The frame must be pinned.
    pub fn release(self)
        requires
            self.frame.pin_count > 0,
        ensures
            *final(self.frame) == (Frame { pin_count: (old(self.frame).pin_count - 1) as usize, ..*old(self.frame) }),
    {
        self.frame.decrement_pin_count();
    }
}

} // verus!
