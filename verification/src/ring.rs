//! The memory that a queue shares with its device: descriptors, the available
//! ring and the used ring.

use crate::cell;
use volatile::Volatile;
use vstd::prelude::*;

verus! {

/// Descriptor flag: the chain goes on at the descriptor named by `next`.
pub const DESC_NEXT: u16 = 1;

/// Descriptor flag: the device writes the buffer (otherwise it reads it).
pub const DESC_WRITE: u16 = 2;

/// Descriptor flag: the buffer holds a table of further descriptors.
pub const DESC_INDIRECT: u16 = 4;

/// Flags of a descriptor.
#[derive(Clone, Copy, Debug, PartialEq, Eq)]
pub struct DescFlags {
    /// The flags as they stand in memory.
    pub bits: u16,
}

impl DescFlags {
    /// Whether every flag of `other` is set.
    pub fn contains(&self, other: DescFlags) -> (r: bool)
        ensures
            r == (self.bits & other.bits == other.bits),
    {
        self.bits & other.bits == other.bits
    }

    /// The flags that are set on either side.
    pub fn union(self, other: DescFlags) -> (r: DescFlags)
        ensures
            r.bits == self.bits | other.bits,
    {
        DescFlags { bits: self.bits | other.bits }
    }

    /// Clears the flags of `other`.
    pub fn remove(&mut self, other: DescFlags)
        ensures
            final(self).bits == old(self).bits & !other.bits,
    {
        self.bits = self.bits & !other.bits;
    }
}

/// A buffer as the device sees it: its physical address and its length in bytes.
#[derive(Clone, Copy, Debug, PartialEq, Eq)]
pub struct Buffer {
    /// Physical address of the first byte.
    pub addr: u64,
    /// Length in bytes.
    pub len: usize,
}

/// What a descriptor holds.
pub struct DescState {
    pub addr: u64,
    pub len: u32,
    pub flags: u16,
    pub next: u16,
}

/// One descriptor of the table: the four cells that it has in shared memory.
pub struct Descriptor<'a> {
    /// Physical address of the buffer.
    pub addr: &'a mut Volatile<u64>,
    /// Length of the buffer.
    pub len: &'a mut Volatile<u32>,
    /// Flags, as in [`DescFlags`].
    pub flags: &'a mut Volatile<u16>,
    /// The descriptor that follows, in a chain or in the free list.
    pub next: &'a mut Volatile<u16>,
}

impl<'a> View for Descriptor<'a> {
    type V = DescState;

    open spec fn view(&self) -> DescState {
        DescState {
            addr: cell::held_u64(*self.addr),
            len: cell::held_u32(*self.len),
            flags: cell::held_u16(*self.flags),
            next: cell::held_u16(*self.next),
        }
    }
}

impl<'a> Descriptor<'a> {
    /// Points the descriptor at `buf`. The length is kept in 32 bits.
    pub fn set_buf(&mut self, buf: &Buffer)
        ensures
            final(self)@ == (DescState { addr: buf.addr, len: buf.len as u32, ..old(self)@ }),
    {
        cell::write_u64(self.addr, buf.addr);
        cell::write_u32(self.len, buf.len as u32);
    }

    /// The flags.
    pub fn flags(&self) -> (flags: DescFlags)
        ensures
            flags.bits == self@.flags,
    {
        DescFlags { bits: cell::read_u16(self.flags) }
    }

    /// Sets the flags.
    pub fn set_flags(&mut self, flags: DescFlags)
        ensures
            final(self)@ == (DescState { flags: flags.bits, ..old(self)@ }),
    {
        cell::write_u16(self.flags, flags.bits);
    }

    /// The descriptor that follows.
    pub fn next(&self) -> (next: u16)
        ensures
            next == self@.next,
    {
        cell::read_u16(self.next)
    }

    /// Sets the descriptor that follows.
    pub fn set_next(&mut self, next: u16)
        ensures
            final(self)@ == (DescState { next: next, ..old(self)@ }),
    {
        cell::write_u16(self.next, next);
    }
}

/// The driver uses the available ring to offer buffers to the device: each ring
/// entry refers to the head of a descriptor chain. It is only written by the
/// driver and read by the device.
pub struct AvailRing<'a> {
    /// Counts the chains that were offered; a driver must not decrement it.
    pub idx: &'a mut Volatile<u16>,
    /// The heads of the offered chains, one entry per descriptor of the queue.
    pub ring: &'a mut [Volatile<u16>],
}

impl<'a> AvailRing<'a> {
    /// The counter as the device sees it.
    pub open spec fn published(&self) -> u16 {
        cell::held_u16(*self.idx)
    }

    /// The heads that the entries hold.
    pub open spec fn heads(&self) -> Seq<u16> {
        Seq::new(self.ring@.len(), |i: int| cell::held_u16(self.ring@[i]))
    }
}

/// One entry of the used ring: the two cells that it has in shared memory.
pub struct UsedElem<'a> {
    /// Head of the chain that the device is done with.
    pub id: &'a Volatile<u32>,
    /// The number of bytes that the device wrote.
    pub len: &'a Volatile<u32>,
}

/// The used ring is where the device returns buffers once it is done with them:
/// it is only written to by the device, and read by the driver.
pub struct UsedRing<'a> {
    /// Counts the chains that were returned.
    pub idx: &'a Volatile<u16>,
    /// The returned chains, one entry per descriptor of the queue.
    pub ring: Vec<UsedElem<'a>>,
}

impl<'a> UsedRing<'a> {
    /// A read of the counter may give `idx`.
    pub open spec fn may_count(&self, idx: u16) -> bool {
        cell::may_read_u16(*self.idx, idx)
    }

    /// A read of the entry at `slot` may give the head `id` and the length `len`.
    pub open spec fn may_hold(&self, slot: int, id: u32, len: u32) -> bool {
        &&& 0 <= slot < self.ring@.len()
        &&& cell::may_read_u32(*self.ring@[slot].id, id)
        &&& cell::may_read_u32(*self.ring@[slot].len, len)
    }
}

/// The memory of one queue.
pub struct QueueMemory<'a> {
    /// The descriptor table.
    pub desc: Vec<Descriptor<'a>>,
    /// The available ring.
    pub avail: AvailRing<'a>,
    /// The used ring.
    pub used: UsedRing<'a>,
}

/// What the descriptors of a table hold.
pub open spec fn desc_states(desc: Seq<Descriptor<'_>>) -> Seq<DescState> {
    Seq::new(desc.len(), |i: int| desc[i]@)
}

impl<'a> QueueMemory<'a> {
    /// Every part has room for `size` entries.
    pub open spec fn holds(&self, size: int) -> bool {
        &&& self.desc@.len() == size
        &&& self.avail.ring@.len() == size
        &&& self.used.ring@.len() == size
    }
}

/// What is said of the shared memory is what its cells hold: the counter of the available
/// ring, its entries, and the four cells of each descriptor.
pub proof fn law_memory_is_its_cells(
    memory: QueueMemory<'_>,
    counter: Volatile<u16>,
    entries: Seq<Volatile<u16>>,
    i: int,
)
    requires
        counter == *memory.avail.idx,
        entries == memory.avail.ring@,
        0 <= i < memory.desc@.len(),
        i < entries.len(),
    ensures
        memory.avail.published() == cell::held_u16(counter),
        memory.avail.heads().len() == entries.len(),
        memory.avail.heads()[i] == cell::held_u16(entries[i]),
        desc_states(memory.desc@).len() == memory.desc@.len(),
        desc_states(memory.desc@)[i].addr == cell::held_u64(*memory.desc@[i].addr),
        desc_states(memory.desc@)[i].len == cell::held_u32(*memory.desc@[i].len),
        desc_states(memory.desc@)[i].flags == cell::held_u16(*memory.desc@[i].flags),
        desc_states(memory.desc@)[i].next == cell::held_u16(*memory.desc@[i].next),
{
}

/// A read of an entry of the used ring is a read of its two cells.
pub proof fn law_used_entry_is_its_cells(used: UsedRing<'_>, slot: int, id: u32, len: u32, idx: u16)
    requires
        0 <= slot < used.ring@.len(),
    ensures
        used.may_count(idx) <==> cell::may_read_u16(*used.idx, idx),
        used.may_hold(slot, id, len) <==> cell::may_read_u32(*used.ring@[slot].id, id)
            && cell::may_read_u32(*used.ring@[slot].len, len),
{
}

} // verus!
