use vstd::prelude::*;

verus! {

/// Size in bytes of a slot: the record offset and the record length, each a `u16`.
pub const SLOT_SIZE: usize = 4;

/// An entry of the slot array of a slotted page.
#[derive(Clone, Copy, Debug, PartialEq, Eq, Structural)]
pub struct Slot {
    pub record_offset: u16,
    pub record_length: u16,
}

} // verus!
