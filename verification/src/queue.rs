//! The mechanism for bulk data transport on virtio devices.

use crate::error::{DeviceFault, Error, HandleIntrError};
use crate::inner::VirtQueueInner;
use crate::layout;
use crate::layout::VirtQueueLayout;
use crate::page;
use crate::page::PageSize;
use crate::ring;
use crate::ring::{Buffer, QueueMemory};
use crate::state;
use crate::state::QueueState;
use core::task::Waker;
use vstd::arithmetic::power2::pow2;
use vstd::prelude::*;

verus! {

/// What a queue needs of memory before it can be made.
#[derive(Clone, Copy, Debug, PartialEq, Eq)]
pub struct QueuePlan {
    /// Where the parts of the queue lie.
    pub layout: VirtQueueLayout,
    /// The number of contiguous pages to allocate.
    pub pages: usize,
}

/// What the device is told of a queue.
#[derive(Clone, Copy, Debug, PartialEq, Eq)]
pub struct QueueRegisters {
    /// The index of the queue.
    pub queue: u32,
    /// The number of descriptors.
    pub size: u32,
    /// The page size in bytes.
    pub align: u32,
    /// The page frame number of the queue's memory.
    pub pfn: u32,
}

/// Why a queue of `size` descriptors is refused, if it is.
pub open spec fn plan_error(size: usize, queue_used: bool, max_queue_size: u32) -> Option<Error> {
    if queue_used {
        Some(Error::AlreadyUsed)
    } else if !page::power_of_two(size as nat) || max_queue_size < size as u32 {
        Some(Error::InvalidParam)
    } else {
        None
    }
}

/// How a wait for the device stands.
#[derive(Clone, Copy, Debug, PartialEq, Eq)]
pub enum Completion {
    /// The device has returned nothing yet.
    Waiting,
    /// The device has returned a chain, which was taken back. (token, len)
    Done(u16, u32),
    /// The wait ended, with this error.
    Failed(Error),
    /// The device broke the rules.
    Faulty(DeviceFault),
}

/// The mechanism for bulk data transport on virtio devices.
///
/// Each device can have zero or more virtqueues.
pub struct VirtQueue<'a, const QUEUE_SIZE: usize> {
    /// The index of queue
    queue_idx: u32,
    inner: VirtQueueInner<'a, QUEUE_SIZE>,
}

impl<'a, const QUEUE_SIZE: usize> View for VirtQueue<'a, QUEUE_SIZE> {
    type V = QueueState;

    open spec fn view(&self) -> QueueState {
        self.inner()@
    }
}

impl<'a, const QUEUE_SIZE: usize> VirtQueue<'a, QUEUE_SIZE> {
    /// The rings and the bookkeeping.
    pub closed spec fn inner(&self) -> VirtQueueInner<'a, QUEUE_SIZE> {
        self.inner
    }

    /// The index of the queue.
    pub closed spec fn index(&self) -> u32 {
        self.queue_idx
    }

    /// The rings and the bookkeeping are well formed.
    pub open spec fn wf(&self) -> bool {
        self.inner().wf()
    }

    /// Checks a queue against what its device says of it, and plans its memory.
    ///
    /// `queue_used` is whether the device has the queue in use already, and
    /// `max_queue_size` the most descriptors that it takes.
    pub fn plan<PS: PageSize>(queue_used: bool, max_queue_size: u32) -> (r: Result<
        QueuePlan,
        Error,
    >)
        requires
            plan_error(QUEUE_SIZE, queue_used, max_queue_size) is None ==> {
                &&& PS::PAGE_SIZE_SHIFT < usize::BITS
                &&& layout::layout_fits(
                    QUEUE_SIZE as int,
                    pow2(PS::PAGE_SIZE_SHIFT as nat) as int,
                )
            },
        ensures
            match plan_error(QUEUE_SIZE, queue_used, max_queue_size) {
                Some(e) => r == Err::<QueuePlan, Error>(e),
                None => {
                    &&& r matches Ok(plan)
                    &&& plan.layout.places(
                        QUEUE_SIZE as int,
                        pow2(PS::PAGE_SIZE_SHIFT as nat) as int,
                    )
                    &&& plan.pages * pow2(PS::PAGE_SIZE_SHIFT as nat) == plan.layout.size
                },
            },
    {
        if queue_used {
            return Err(Error::AlreadyUsed);
        }
        if !QUEUE_SIZE.is_power_of_two() || max_queue_size < QUEUE_SIZE as u32 {
            return Err(Error::InvalidParam);
        }
        let page_size: usize = PS::page_size();
        proof {
            page::law_page_size_is_power_of_two::<PS>();
        }
        let layout = VirtQueueLayout::new(QUEUE_SIZE, page_size);
        proof {
            vstd::arithmetic::div_mod::lemma_fundamental_div_mod(
                layout.size as int,
                page_size as int,
            );
            vstd::arithmetic::mul::lemma_mul_is_commutative(
                page_size as int,
                layout.size as int / page_size as int,
            );
        }
        Ok(QueuePlan { layout, pages: layout.size / page_size })
    }

    /// What to tell the device of the queue at index `idx` whose memory starts at the
    /// page frame `pfn`.
    pub fn registers<PS: PageSize>(idx: usize, pfn: u32) -> (r: QueueRegisters)
        requires
            PS::PAGE_SIZE_SHIFT < usize::BITS,
        ensures
            r.queue == idx as u32,
            r.size == QUEUE_SIZE as u32,
            r.align == pow2(PS::PAGE_SIZE_SHIFT as nat) as u32,
            r.pfn == pfn,
    {
        QueueRegisters {
            queue: idx as u32,
            size: QUEUE_SIZE as u32,
            align: PS::page_size() as u32,
            pfn,
        }
    }

    /// Create a new VirtQueue with index `idx`, over memory as planned.
    pub fn new(idx: usize, memory: QueueMemory<'a>) -> (queue: Self)
        requires
            page::power_of_two(QUEUE_SIZE as nat),
            QUEUE_SIZE <= 0x8000,
            memory.holds(QUEUE_SIZE as int),
        ensures
            queue.wf(),
            queue.index() == idx as u32,
            queue@ == state::fresh(
                ring::desc_states(memory.desc@),
                memory.avail.heads(),
                memory.avail.published(),
            ),
            queue.inner().used_ring() == memory.used,
    {
        VirtQueue { queue_idx: idx as u32, inner: VirtQueueInner::new(memory) }
    }

    /// Add buffers to the virtqueue, return a token.
    pub fn add(&mut self, inputs: &[Buffer], outputs: &[Buffer]) -> (r: Result<u16, Error>)
        requires
            old(self).wf(),
        ensures
            final(self).wf(),
            final(self).index() == old(self).index(),
            old(self).inner().adds_to(inputs@, outputs@, r, final(self).inner()),
    {
        self.inner.add(inputs, outputs)
    }

    /// Add buffers to the virtqueue, return a future that waits for the device to
    /// return them.
    pub fn async_add(&mut self, inputs: &[Buffer], outputs: &[Buffer]) -> (r: Result<
        VirtFuture,
        Error,
    >)
        requires
            old(self).wf(),
        ensures
            final(self).wf(),
            final(self).index() == old(self).index(),
            match r {
                Ok(fut) => {
                    &&& old(self).inner().adds_to(
                        inputs@,
                        outputs@,
                        Ok(fut.desc_idx()),
                        final(self).inner(),
                    )
                    &&& fut.desc_idx() < QUEUE_SIZE
                    &&& fut.queue_idx() == old(self).index()
                    &&& fut.unpolled()
                },
                Err(e) => old(self).inner().adds_to(
                    inputs@,
                    outputs@,
                    Err(e),
                    final(self).inner(),
                ),
            },
    {
        proof {
            if self@.available() > 0 {
                assert(state::walk(self@.desc, self@.free_head, 0) < self@.size());
            }
        }
        match self.add(inputs, outputs) {
            Ok(desc_idx) => Ok(VirtFuture::new(desc_idx, self.queue_idx)),
            Err(e) => Err(e),
        }
    }

    /// Whether there is a used element that can pop.
    pub fn can_pop(&self) -> (r: bool)
        ensures
            self.inner().readies_as(r),
    {
        self.inner.can_pop()
    }

    /// The number of free descriptors.
    pub fn available_desc(&self) -> (count: usize)
        requires
            self.wf(),
        ensures
            count == self@.available(),
    {
        self.inner.available_desc()
    }

    /// Get a token from device used buffers, return (token, len).
    pub fn pop_used(&mut self) -> (r: Result<Option<(u16, u32)>, DeviceFault>)
        requires
            old(self).wf(),
        ensures
            final(self).wf(),
            final(self).index() == old(self).index(),
            old(self).inner().pops_to(r, final(self).inner()),
    {
        self.inner.pop_used()
    }

    /// Handle interrupt, waker.wake() will be called in this function.
    pub fn handle_interrupt(&self) -> (r: Result<(), HandleIntrError>)
        requires
            self.wf(),
        ensures
            self.inner().handles_as(r),
    {
        self.inner.handle_interrupt()
    }

    /// One look at whether the device has returned a chain; if it has, takes it back.
    pub fn complete(&mut self) -> (r: Completion)
        requires
            old(self).wf(),
        ensures
            final(self).wf(),
            final(self).index() == old(self).index(),
            old(self).inner().completes_to(r, final(self).inner()),
    {
        if !self.can_pop() {
            return Completion::Waiting;
        }
        match self.pop_used() {
            Ok(Some((token, len))) => Completion::Done(token, len),
            Ok(None) => Completion::Failed(Error::NotReady),
            Err(fault) => Completion::Faulty(fault),
        }
    }
}

impl<'a, const QUEUE_SIZE: usize> VirtQueueInner<'a, QUEUE_SIZE> {
    /// `r` is an answer of a look at the device that leads from this queue to `after`.
    pub open spec fn completes_to(&self, r: Completion, after: Self) -> bool {
        match r {
            Completion::Waiting => {
                &&& self.used_ring().may_count(self@.last_used_idx)
                &&& after == *self
            },
            Completion::Done(token, len) => self.pops_to(Ok(Some((token, len))), after),
            Completion::Failed(e) => {
                &&& e == Error::NotReady
                &&& self.readies_as(true)
                &&& self.pops_to(Ok(None), after)
            },
            Completion::Faulty(fault) => self.pops_to(Err(fault), after),
        }
    }
}

/// Waits for the device to return a chain.
pub struct VirtFuture {
    desc_idx: u16,
    queue_idx: u32,
    first_poll: Option<()>,
}

impl VirtFuture {
    /// The head of the chain.
    pub closed spec fn desc_idx(&self) -> u16 {
        self.desc_idx
    }

    /// The queue that the chain was offered on.
    pub closed spec fn queue_idx(&self) -> u32 {
        self.queue_idx
    }

    /// It was not polled yet.
    pub closed spec fn unpolled(&self) -> bool {
        self.first_poll is Some
    }

    fn new(desc_idx: u16, queue_idx: u32) -> (fut: Self)
        ensures
            fut.desc_idx() == desc_idx,
            fut.queue_idx() == queue_idx,
            fut.unpolled(),
    {
        VirtFuture { desc_idx, queue_idx, first_poll: Some(()) }
    }

    /// The queue that the device is to be notified of before this poll: there is one
    /// on the first poll only.
    pub fn notify_once(&mut self) -> (queue: Option<u32>)
        ensures
            queue == if old(self).unpolled() {
                Some(old(self).queue_idx())
            } else {
                None
            },
            !final(self).unpolled(),
            final(self).desc_idx() == old(self).desc_idx(),
            final(self).queue_idx() == old(self).queue_idx(),
    {
        if self.first_poll.take().is_some() {
            Some(self.queue_idx)
        } else {
            None
        }
    }

    /// Polls: takes back the chain that the device returned next. While there is
    /// none, leaves `waker` to be woken for this future's chain.
    pub fn poll<const QUEUE_SIZE: usize>(
        &self,
        queue: &mut VirtQueue<'_, QUEUE_SIZE>,
        waker: Waker,
    ) -> (r: Result<Option<(u16, u32)>, DeviceFault>)
        requires
            old(queue).wf(),
            self.desc_idx() < QUEUE_SIZE,
        ensures
            final(queue).wf(),
            final(queue).index() == old(queue).index(),
            old(queue).inner().polls_to(self.desc_idx(), waker, r, final(queue).inner()),
    {
        match queue.inner.pop_used() {
            Ok(None) => {
                queue.inner.set_waker(self.desc_idx, waker);
                Ok(None)
            },
            r => r,
        }
    }
}

impl<'a, const QUEUE_SIZE: usize> VirtQueueInner<'a, QUEUE_SIZE> {
    /// `r` is an answer to a poll for the chain at `token` that leads from this queue
    /// to `after`.
    pub open spec fn polls_to(
        &self,
        token: u16,
        waker: Waker,
        r: Result<Option<(u16, u32)>, DeviceFault>,
        after: Self,
    ) -> bool {
        if r == Ok::<Option<(u16, u32)>, DeviceFault>(None) {
            &&& self.used_ring().may_count(self@.last_used_idx)
            &&& after@ == self@.with_waker(token, waker)
            &&& after.used_ring() == self.used_ring()
        } else {
            self.pops_to(r, after)
        }
    }
}

/// A queue that is in use already is refused as such; of the others those are refused as
/// an invalid parameter whose size is no power of two or more than the device takes, and
/// no others.
pub proof fn law_plan_refuses(size: usize, queue_used: bool, max_queue_size: u32)
    requires
        size <= u32::MAX,
    ensures
        plan_error(size, queue_used, max_queue_size) == Some(Error::AlreadyUsed) <==> queue_used,
        plan_error(size, queue_used, max_queue_size) == Some(Error::InvalidParam) <==> !queue_used
            && (!page::power_of_two(size as nat) || size > max_queue_size),
        plan_error(size, queue_used, max_queue_size) is None <==> !queue_used
            && page::power_of_two(size as nat) && size <= max_queue_size,
{
}

} // verus!
