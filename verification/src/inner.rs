//! The rings and the bookkeeping of a queue.

use crate::cell;
use crate::error::{DeviceFault, Error, HandleIntrError};
use crate::page;
use crate::ring;
use crate::ring::{AvailRing, Buffer, DescFlags, DescState, Descriptor, QueueMemory, UsedRing};
use crate::ring::{DESC_NEXT, DESC_WRITE};
use crate::state;
use crate::state::QueueState;
use core::task::Waker;
use volatile::Volatile;
use vstd::arithmetic::power2::pow2;
use vstd::prelude::*;

verus! {

/// The rings and the bookkeeping of a queue of `QUEUE_SIZE` descriptors.
pub struct VirtQueueInner<'a, const QUEUE_SIZE: usize> {
    /// Descriptor table
    desc: Vec<Descriptor<'a>>,
    /// Available ring
    avail: AvailRing<'a>,
    /// Used ring
    used: UsedRing<'a>,
    /// The number of descriptors in use.
    num_used: u16,
    /// The head desc index of the free list.
    free_head: u16,
    avail_idx: u16,
    last_used_idx: u16,
    wakers: Vec<Option<Waker>>,
}

impl<'a, const QUEUE_SIZE: usize> View for VirtQueueInner<'a, QUEUE_SIZE> {
    type V = QueueState;

    closed spec fn view(&self) -> QueueState {
        QueueState {
            desc: ring::desc_states(self.desc@),
            avail_ring: self.avail.heads(),
            avail_published: self.avail.published(),
            num_used: self.num_used,
            free_head: self.free_head,
            avail_idx: self.avail_idx,
            last_used_idx: self.last_used_idx,
            wakers: self.wakers@,
        }
    }
}

impl<'a, const QUEUE_SIZE: usize> VirtQueueInner<'a, QUEUE_SIZE> {
    /// The used ring.
    pub closed spec fn used_ring(&self) -> UsedRing<'a> {
        self.used
    }

    /// The state is well formed, and it and the used ring have `QUEUE_SIZE` entries.
    pub open spec fn wf(&self) -> bool {
        &&& self@.wf()
        &&& self@.size() == QUEUE_SIZE
        &&& self.used_ring().ring@.len() == QUEUE_SIZE
    }

    /// The used ring may hold the chain at `token`, with `len` bytes written, as
    /// the next one to take back.
    pub open spec fn may_return(&self, token: u16, len: u32) -> bool {
        exists|idx: u16, id: u32| #![trigger self.returns_by(idx, id, len)]
            self.returns_by(idx, id, len) && token == id as u16
    }

    /// Reads of the used ring may give the counter `idx`, which differs from what
    /// was taken back, and the entry `id` and `len` in the slot that is next.
    pub open spec fn returns_by(&self, idx: u16, id: u32, len: u32) -> bool {
        &&& self.used_ring().may_count(idx)
        &&& self@.can_pop(idx)
        &&& self.used_ring().may_hold(self@.used_slot(), id, len)
    }

    /// `r` is an answer of `can_pop`.
    pub open spec fn readies_as(&self, r: bool) -> bool {
        exists|idx: u16| #[trigger]
            self.used_ring().may_count(idx) && r == self@.can_pop(idx)
    }

    /// `r` is an answer of `pop_used` that leads from this queue to `after`.
    pub open spec fn pops_to(
        &self,
        r: Result<Option<(u16, u32)>, DeviceFault>,
        after: Self,
    ) -> bool {
        &&& after.used_ring() == self.used_ring()
        &&& match r {
            Ok(Some((token, len))) => {
                &&& self.may_return(token, len)
                &&& self@.chain_at(token) is Some
                &&& after@ == self@.popped(token)
            },
            Ok(None) => {
                &&& self.used_ring().may_count(self@.last_used_idx)
                &&& after@ == self@
            },
            Err(fault) => {
                &&& fault matches DeviceFault::BadToken(token)
                &&& exists|len: u32| self.may_return(token, len)
                &&& self@.chain_at(token) is None
                &&& after@ == self@
            },
        }
    }

    /// `r` is the answer of `add` to these buffers, and leads from this queue to
    /// `after`.
    pub open spec fn adds_to(
        &self,
        inputs: Seq<Buffer>,
        outputs: Seq<Buffer>,
        r: Result<u16, Error>,
        after: Self,
    ) -> bool {
        &&& after.used_ring() == self.used_ring()
        &&& match self@.add_error(inputs.len() + outputs.len()) {
            Some(e) => r == Err::<u16, Error>(e) && after@ == self@,
            None => {
                &&& r == Ok::<u16, Error>(self@.free_head)
                &&& after@ == self@.added(state::entries(inputs, outputs))
            },
        }
    }

    /// `r` is an answer of `handle_interrupt`: that nothing was returned, or the answer
    /// for the chain that is next to be taken back.
    pub open spec fn handles_as(&self, r: Result<(), HandleIntrError>) -> bool {
        if r == Err::<(), HandleIntrError>(HandleIntrError::QueueNotReady) {
            self.used_ring().may_count(self@.last_used_idx)
        } else {
            exists|token: u16, len: u32| #[trigger]
                self.may_return(token, len) && self@.wakes_as(token, r)
        }
    }

    /// A queue over `memory` with every descriptor in the free list.
    pub fn new(memory: QueueMemory<'a>) -> (queue: Self)
        requires
            page::power_of_two(QUEUE_SIZE as nat),
            QUEUE_SIZE <= 0x8000,
            memory.holds(QUEUE_SIZE as int),
        ensures
            queue.wf(),
            queue@ == state::fresh(
                ring::desc_states(memory.desc@),
                memory.avail.heads(),
                memory.avail.published(),
            ),
            queue.used_ring() == memory.used,
    {
        let mut desc = memory.desc;
        let ghost before = ring::desc_states(desc@);
        proof {
            let k = choose|k: nat| QUEUE_SIZE as nat == pow2(k);
            vstd::arithmetic::power2::lemma_pow2_pos(k);
        }
        // link descriptors together
        let mut i: usize = 0;
        while i < QUEUE_SIZE - 1
            invariant
                i <= QUEUE_SIZE - 1,
                0 < QUEUE_SIZE <= 0x8000,
                desc@.len() == QUEUE_SIZE,
                before.len() == QUEUE_SIZE,
                forall|j: int|
                    0 <= j < i ==> #[trigger] ring::desc_states(desc@)[j] == state::linked(before)[j],
                forall|j: int|
                    i <= j < QUEUE_SIZE ==> #[trigger] ring::desc_states(desc@)[j] == before[j],
            decreases QUEUE_SIZE - i,
        {
            let ghost prev = ring::desc_states(desc@);
            assert(prev[i as int] == before[i as int]);
            desc[i].set_next(i as u16 + 1);
            assert forall|j: int| 0 <= j < QUEUE_SIZE && j != i implies #[trigger]
                ring::desc_states(desc@)[j] == prev[j] by {}
            i += 1;
        }
        proof {
            assert(ring::desc_states(desc@) =~= state::linked(before));
            assert forall|k: nat| k < QUEUE_SIZE implies #[trigger] state::walk(
                state::linked(before),
                0,
                k,
            ) < QUEUE_SIZE by {
                state::lemma_walk_linked(before, k);
            }
        }
        let mut wakers: Vec<Option<Waker>> = Vec::new();
        let mut n: usize = 0;
        while n < QUEUE_SIZE
            invariant
                n <= QUEUE_SIZE,
                wakers@.len() == n,
                forall|j: int| 0 <= j < n ==> #[trigger] wakers@[j] is None,
            decreases QUEUE_SIZE - n,
        {
            wakers.push(None);
            n += 1;
        }
        VirtQueueInner {
            desc,
            avail: memory.avail,
            used: memory.used,
            num_used: 0,
            free_head: 0,
            avail_idx: 0,
            last_used_idx: 0,
            wakers,
        }
    }

    /// Whether there is a used element that can pop, where the counter of the used
    /// ring is `used_idx`.
    pub fn can_pop_at(&self, used_idx: u16) -> (r: bool)
        ensures
            r == self@.can_pop(used_idx),
            r == (used_idx != self@.last_used_idx),
    {
        self.last_used_idx != used_idx
    }

    /// Whether there is a used element that can pop.
    pub fn can_pop(&self) -> (r: bool)
        ensures
            self.readies_as(r),
    {
        let used_idx: u16 = cell::read_device_u16(self.used.idx);
        assert(self.used_ring().may_count(used_idx));
        self.can_pop_at(used_idx)
    }

    /// The slot of the used ring that is to be read next.
    pub fn used_slot(&self) -> (slot: usize)
        requires
            self.wf(),
        ensures
            slot == self@.used_slot(),
            slot == self@.last_used_idx as int % QUEUE_SIZE as int,
            slot < QUEUE_SIZE,
    {
        proof {
            page::lemma_mask_is_mod(self.last_used_idx as usize, QUEUE_SIZE);
        }
        self.last_used_idx as usize & (QUEUE_SIZE - 1)
    }

    /// The number of free descriptors.
    pub fn available_desc(&self) -> (count: usize)
        requires
            self.wf(),
        ensures
            count == self@.available(),
            count == QUEUE_SIZE - self@.num_used,
    {
        QUEUE_SIZE - self.num_used as usize
    }

    /// Recycle descriptors in the list specified by head.
    ///
    /// This will push all linked descriptors at the front of the free list.
    fn recycle_descriptors(&mut self, head: u16)
        requires
            old(self).wf(),
            old(self)@.chain_at(head) is Some,
        ensures
            final(self).wf(),
            final(self)@ == old(self)@.recycled(head),
            final(self).used_ring() == old(self).used_ring(),
    {
        let ghost start = self@;
        let ghost whole = start.chain_at(head)->0;
        let origin_free_head: u16 = self.free_head;
        self.free_head = head;
        let mut at: u16 = head;
        loop
            invariant
                start == old(self)@,
                start.wf(),
                start.size() == QUEUE_SIZE,
                self.used_ring() == old(self).used_ring(),
                self.used_ring().ring@.len() == QUEUE_SIZE,
                start.chain_at(head) is Some,
                whole == start.chain_at(head)->0,
                origin_free_head == start.free_head,
                self@ == (QueueState { num_used: self.num_used, free_head: head, ..start }),
                state::chain(start.desc, at, self.num_used as nat) is Some,
                self.num_used + whole.len() == start.num_used + state::chain(
                    start.desc,
                    at,
                    self.num_used as nat,
                )->0.len(),
                whole.last() == state::chain(start.desc, at, self.num_used as nat)->0.last(),
            decreases self.num_used,
        {
            proof {
                state::lemma_chain_shape(start.desc, at, self.num_used as nat);
                assert(self@.desc.len() == self.desc@.len());
                assert(self@.desc[at as int] == self.desc@[at as int]@);
            }
            let flags = self.desc[at as usize].flags();
            self.num_used = self.num_used - 1;
            if flags.contains(DescFlags { bits: DESC_NEXT }) {
                at = self.desc[at as usize].next();
                proof {
                    state::lemma_chain_shape(start.desc, at, self.num_used as nat);
                }
            } else {
                self.desc[at as usize].set_next(origin_free_head);
                proof {
                    assert(self@.desc =~= start.recycled(head).desc);
                    state::lemma_recycled_wf(start, head);
                    assert(self@ =~= start.recycled(head));
                }
                return;
            }
        }
    }

    /// Whether a chain starts at `head` that has no more descriptors than are in use.
    pub fn is_chain(&self, head: u16) -> (r: bool)
        requires
            self.wf(),
        ensures
            r == self@.chain_at(head) is Some,
    {
        let mut at: u16 = head;
        let mut left: u16 = self.num_used;
        while left > 0 && (at as usize) < QUEUE_SIZE
            invariant
                self.wf(),
                self@.chain_at(head) is Some == state::chain(self@.desc, at, left as nat) is Some,
            decreases left,
        {
            assert(self@.desc[at as int] == self.desc@[at as int]@);
            if !self.desc[at as usize].flags().contains(DescFlags { bits: DESC_NEXT }) {
                return true;
            }
            at = self.desc[at as usize].next();
            left = left - 1;
        }
        false
    }

    /// The next used element, as (token, len); it stays in the queue.
    pub fn next_used(&self) -> (r: Option<(u16, u32)>)
        requires
            self.wf(),
        ensures
            match r {
                Some((token, len)) => self.may_return(token, len),
                None => self.used_ring().may_count(self@.last_used_idx),
            },
    {
        let used_idx: u16 = cell::read_device_u16(self.used.idx);
        if !self.can_pop_at(used_idx) {
            return None;
        }
        // read barrier
        cell::full_fence();

        let slot: usize = self.used_slot();
        let id: u32 = cell::read_device_u32(self.used.ring[slot].id);
        let len: u32 = cell::read_device_u32(self.used.ring[slot].len);
        assert(self.returns_by(used_idx, id, len));
        Some((#[verifier::truncate] (id as u16), len))
    }

    /// Takes back the chain at `token`: its descriptors go to the front of the
    /// free list.
    pub fn pop_token(&mut self, token: u16)
        requires
            old(self).wf(),
            old(self)@.chain_at(token) is Some,
        ensures
            final(self).wf(),
            final(self)@ == old(self)@.popped(token),
            final(self).used_ring() == old(self).used_ring(),
    {
        self.recycle_descriptors(token);
        self.last_used_idx = self.last_used_idx.wrapping_add(1);
        proof {
            state::lemma_popped_wf(old(self)@, token);
            assert(self@ =~= old(self)@.popped(token));
        }
    }

    /// Get a token from device used buffers, return (token, len).
    ///
    /// The descriptors of the token's chain go back to the free list. A token that
    /// is not the head of a chain is refused, and nothing changes.
    pub fn pop_used(&mut self) -> (r: Result<Option<(u16, u32)>, DeviceFault>)
        requires
            old(self).wf(),
        ensures
            final(self).wf(),
            old(self).pops_to(r, *final(self)),
    {
        match self.next_used() {
            None => Ok(None),
            Some((token, len)) => {
                if !self.is_chain(token) {
                    return Err(DeviceFault::BadToken(token));
                }
                self.pop_token(token);
                Ok(Some((token, len)))
            },
        }
    }

    /// Takes the first free descriptor and points it at `buf`.
    fn take_free(&mut self, buf: &Buffer, flags: DescFlags) -> (index: u16)
        requires
            old(self)@.free_head < old(self)@.size(),
        ensures
            index == old(self)@.free_head,
            final(self).used_ring() == old(self).used_ring(),
            final(self)@ == (QueueState {
                desc: old(self)@.desc.update(
                    index as int,
                    DescState {
                        addr: buf.addr,
                        len: buf.len as u32,
                        flags: flags.bits,
                        next: old(self)@.desc[index as int].next,
                    },
                ),
                free_head: old(self)@.desc[index as int].next,
                ..old(self)@
            }),
    {
        let index: u16 = self.free_head;
        assert(self@.desc[index as int] == self.desc@[index as int]@);
        self.desc[index as usize].set_buf(buf);
        self.desc[index as usize].set_flags(flags);
        self.free_head = self.desc[index as usize].next();
        proof {
            let i = index as int;
            assert(self@.desc =~= old(self)@.desc.update(
                i,
                DescState {
                    addr: buf.addr,
                    len: buf.len as u32,
                    flags: flags.bits,
                    next: old(self)@.desc[i].next,
                },
            ));
        }
        index
    }

    /// Add buffers to the virtqueue, return a token.
    ///
    /// The device reads the buffers of `inputs` and writes those of `outputs`.
    pub fn add(&mut self, inputs: &[Buffer], outputs: &[Buffer]) -> (r: Result<u16, Error>)
        requires
            old(self).wf(),
        ensures
            final(self).wf(),
            old(self).adds_to(inputs@, outputs@, r, *final(self)),
    {
        if inputs.len() == 0 && outputs.len() == 0 {
            return Err(Error::InvalidParam);
        }
        let room: usize = QUEUE_SIZE - self.num_used as usize;
        if inputs.len() > room || outputs.len() > room - inputs.len() {
            return Err(Error::BufferTooSmall);
        }
        let ghost start = self@;
        let ghost n = inputs@.len() + outputs@.len();
        let ghost slots = start.free_list();
        let ghost list = state::entries(inputs@, outputs@);
        let ghost open = Seq::new(n, |k: int| state::entry(inputs@, outputs@, k, true));
        proof {
            state::lemma_free_list_in_table(start);
        }

        // allocate descriptors from free list
        let head: u16 = self.free_head;
        let mut last: u16 = self.free_head;
        let mut i: usize = 0;
        while i < inputs.len()
            invariant
                i <= inputs@.len(),
                n == inputs@.len() + outputs@.len(),
                0 < n <= start.available(),
                start.wf(),
                start.size() == QUEUE_SIZE,
                slots == start.free_list(),
                self.used_ring() == old(self).used_ring(),
                forall|k: int| 0 <= k < slots.len() ==> (#[trigger] slots[k]) < start.size(),
                open == Seq::new(n, |k: int| state::entry(inputs@, outputs@, k, true)),
                self@ == (QueueState {
                    desc: state::placed(start.desc, slots, open, i as nat),
                    free_head: state::walk(start.desc, head, i as nat),
                    ..start
                }),
                head == start.free_head,
                i > 0 ==> last == slots[i - 1],
            decreases inputs@.len() - i,
        {
            proof {
                state::lemma_placed_keeps_next(start.desc, slots, open, i as nat);
                assert(slots[i as int] == self@.free_head);
            }
            last = self.take_free(&inputs[i], DescFlags { bits: DESC_NEXT });
            proof {
                assert(open[i as int] == state::entry(inputs@, outputs@, i as int, true));
            }
            i += 1;
        }
        let mut o: usize = 0;
        while o < outputs.len()
            invariant
                o <= outputs@.len(),
                n == inputs@.len() + outputs@.len(),
                0 < n <= start.available(),
                start.wf(),
                start.size() == QUEUE_SIZE,
                slots == start.free_list(),
                self.used_ring() == old(self).used_ring(),
                forall|k: int| 0 <= k < slots.len() ==> (#[trigger] slots[k]) < start.size(),
                open == Seq::new(n, |k: int| state::entry(inputs@, outputs@, k, true)),
                self@ == (QueueState {
                    desc: state::placed(start.desc, slots, open, inputs@.len() + o as nat),
                    free_head: state::walk(start.desc, head, inputs@.len() + o as nat),
                    ..start
                }),
                head == start.free_head,
                inputs@.len() + o > 0 ==> last == slots[inputs@.len() + o - 1],
            decreases outputs@.len() - o,
        {
            let ghost k = inputs@.len() + o as nat;
            proof {
                state::lemma_placed_keeps_next(start.desc, slots, open, k);
                assert(slots[k as int] == self@.free_head);
                assert(1u16 | 2u16 == 3u16) by (bit_vector);
            }
            last = self.take_free(
                &outputs[o],
                DescFlags { bits: DESC_NEXT }.union(DescFlags { bits: DESC_WRITE }),
            );
            proof {
                assert(open[k as int] == state::entry(inputs@, outputs@, k as int, true));
            }
            o += 1;
        }
        // the last descriptor has no successor
        proof {
            assert(last == slots[n - 1]);
            state::lemma_placed_keeps_next(start.desc, slots, open, n);
            assert(self@.desc[last as int] == self.desc@[last as int]@);
            assert(1u16 & !1u16 == 0u16 && 3u16 & !1u16 == 2u16) by (bit_vector);
        }
        let ghost placed_open = self@.desc;
        let mut flags = self.desc[last as usize].flags();
        flags.remove(DescFlags { bits: DESC_NEXT });
        self.desc[last as usize].set_flags(flags);
        proof {
            assert forall|k: int| 0 <= k < n - 1 implies #[trigger] open[k] == list[k] by {}
            state::lemma_placed_same_prefix(start.desc, slots, open, list, (n - 1) as nat);
            assert(open[n - 1] == state::entry(inputs@, outputs@, n - 1, true));
            assert(list[n - 1] == state::entry(inputs@, outputs@, n - 1, false));
            state::lemma_placed_keeps_next(start.desc, slots, open, (n - 1) as nat);
            assert(placed_open[last as int].flags == open[n - 1].flags);
            assert(self@.desc =~= placed_open.update(
                last as int,
                DescState { flags: list[n - 1].flags, ..placed_open[last as int] },
            ));
            assert(self@.desc =~= state::placed(start.desc, slots, list, n));
        }
        self.num_used = self.num_used + (inputs.len() + outputs.len()) as u16;

        proof {
            page::lemma_mask_is_mod(self.avail_idx as usize, QUEUE_SIZE);
        }
        let avail_slot: usize = self.avail_idx as usize & (QUEUE_SIZE - 1);
        cell::write_u16(&mut self.avail.ring[avail_slot], head);

        // write barrier
        cell::full_fence();

        // increase head of avail ring
        self.avail_idx = self.avail_idx.wrapping_add(1);
        cell::write_u16(self.avail.idx, self.avail_idx);
        proof {
            state::lemma_added_wf(start, list);
            assert(self@.avail_ring =~= start.added(list).avail_ring);
            assert(self@ =~= start.added(list));
        }
        Ok(head)
    }

    /// The waker that waits for the chain at `token`.
    pub fn waker_for(&self, token: u16) -> (r: Result<&Waker, HandleIntrError>)
        requires
            self.wf(),
            token < QUEUE_SIZE,
        ensures
            match self@.wakers[token as int] {
                Some(waker) => r == Ok::<&Waker, HandleIntrError>(&waker),
                None => r == Err::<&Waker, HandleIntrError>(HandleIntrError::WakerNotExist(token)),
            },
    {
        match &self.wakers[token as usize] {
            Some(waker) => Ok(waker),
            None => Err(HandleIntrError::WakerNotExist(token)),
        }
    }

    /// Wakes whoever waits for the chain at `token`. There is no waker for a token outside
    /// the table.
    pub fn wake_waiter(&self, token: u16) -> (r: Result<(), HandleIntrError>)
        requires
            self.wf(),
        ensures
            self@.wakes_as(token, r),
    {
        if token as usize >= QUEUE_SIZE {
            return Err(HandleIntrError::WakerNotExist(token));
        }
        match self.waker_for(token) {
            Ok(waker) => {
                let done: () = cell::wake_by_ref(waker);
                Ok(done)
            },
            Err(e) => Err(e),
        }
    }

    /// Handle interrupt: wakes whoever waits for the chain that the device returned
    /// and that is next to be taken back, which stays in the queue.
    pub fn handle_interrupt(&self) -> (r: Result<(), HandleIntrError>)
        requires
            self.wf(),
        ensures
            self.handles_as(r),
    {
        match self.next_used() {
            None => Err(HandleIntrError::QueueNotReady),
            Some((token, len)) => {
                assert(self.may_return(token, len));
                self.wake_waiter(token)
            },
        }
    }

    /// Leaves `waker` for the chain at `token`.
    pub fn set_waker(&mut self, token: u16, waker: Waker)
        requires
            old(self).wf(),
            token < QUEUE_SIZE,
        ensures
            final(self).wf(),
            final(self)@ == old(self)@.with_waker(token, waker),
            final(self)@.wakers[token as int] == Some(waker),
            forall|t: int|
                0 <= t < QUEUE_SIZE && t != token ==> #[trigger] final(self)@.wakers[t] == old(
                    self,
                )@.wakers[t],
            final(self).used_ring() == old(self).used_ring(),
    {
        self.wakers[token as usize] = Some(waker);
        assert(self@ =~= old(self)@.with_waker(token, waker));
    }
}

/// The state of a queue is what its bookkeeping says and its cells hold.
proof fn law_state_is_bookkeeping_and_cells<'a, const QUEUE_SIZE: usize>(
    q: VirtQueueInner<'a, QUEUE_SIZE>,
    counter: Volatile<u16>,
    entries: Seq<Volatile<u16>>,
    i: int,
)
    requires
        counter == *q.avail.idx,
        entries == q.avail.ring@,
        0 <= i < q.desc@.len(),
        i < entries.len(),
    ensures
        q@.desc.len() == q.desc@.len(),
        q@.desc[i].addr == cell::held_u64(*q.desc@[i].addr),
        q@.desc[i].len == cell::held_u32(*q.desc@[i].len),
        q@.desc[i].flags == cell::held_u16(*q.desc@[i].flags),
        q@.desc[i].next == cell::held_u16(*q.desc@[i].next),
        q@.avail_ring.len() == entries.len(),
        q@.avail_ring[i] == cell::held_u16(entries[i]),
        q@.avail_published == cell::held_u16(counter),
        q@.num_used == q.num_used,
        q@.free_head == q.free_head,
        q@.avail_idx == q.avail_idx,
        q@.last_used_idx == q.last_used_idx,
        q@.wakers == q.wakers@,
        q.used_ring() == q.used,
{
}

} // verus!
