//! The virtio console.

use crate::cell;
use crate::effects;
use crate::error::{DeviceFault, Error};
use crate::feature;
use crate::inner::VirtQueueInner;
use crate::queue::{Completion, VirtQueue};
use crate::ring::Buffer;
use vstd::prelude::*;

verus! {

/// The index of the queue on which characters come in.
pub const QUEUE_RECEIVEQ_PORT_0: usize = 0;

/// The index of the queue on which characters go out.
pub const QUEUE_TRANSMITQ_PORT_0: usize = 1;

/// The number of descriptors of each queue.
pub const QUEUE_SIZE: usize = 2;

/// The features to agree on with a console that offers `features`: the driver takes
/// up none.
pub fn negotiate(features: u64) -> (agreed: u64)
    ensures
        agreed == 0,
{
    assert((features & feature::CONSOLE_FEATURES) & 0 == 0) by (bit_vector);
    feature::negotiate(features, feature::CONSOLE_FEATURES, 0)
}

/// Virtio console. Only one single port is allowed.
/// Emergency and cols/rows unimplemented.
pub struct VirtIOConsole<'a> {
    receiveq: VirtQueue<'a, QUEUE_SIZE>,
    transmitq: VirtQueue<'a, QUEUE_SIZE>,
    queue_buf_rx: Buffer,
    cursor: usize,
    pending_len: usize,
}

impl<'a> VirtIOConsole<'a> {
    /// The queue on which characters come in.
    pub closed spec fn receiveq(&self) -> VirtQueue<'a, QUEUE_SIZE> {
        self.receiveq
    }

    /// The queue on which characters go out.
    pub closed spec fn transmitq(&self) -> VirtQueue<'a, QUEUE_SIZE> {
        self.transmitq
    }

    /// The buffer for characters that come in.
    pub closed spec fn rx(&self) -> Buffer {
        self.queue_buf_rx
    }

    /// How many of the pending characters were taken.
    pub closed spec fn cursor(&self) -> usize {
        self.cursor
    }

    /// How many characters the device put into the buffer.
    pub closed spec fn pending_len(&self) -> usize {
        self.pending_len
    }

    /// The queues are well formed, and no more characters were taken than came in.
    pub open spec fn wf(&self) -> bool {
        &&& self.receiveq().wf()
        &&& self.transmitq().wf()
        &&& self.cursor() <= self.pending_len()
    }

    /// Apart from the queue on which characters come in, `after` is this console with
    /// `cursor` of `pending_len` characters taken.
    pub open spec fn moves_to(&self, cursor: int, pending_len: int, after: Self) -> bool {
        &&& after.transmitq() == self.transmitq()
        &&& after.rx() == self.rx()
        &&& after.receiveq().index() == self.receiveq().index()
        &&& after.cursor() == cursor
        &&& after.pending_len() == pending_len
    }

    /// Apart from the queue on which characters come in, `after` is this console.
    pub open spec fn stays_as(&self, after: Self) -> bool {
        self.moves_to(self.cursor() as int, self.pending_len() as int, after)
    }

    /// The buffer `rx` was offered on `q` as one for the device to write, or refused with
    /// the error in `r`; either way the queue is now `after`.
    pub open spec fn offers_to(
        q: VirtQueueInner<'a, QUEUE_SIZE>,
        rx: Buffer,
        r: Result<(), Error>,
        after: VirtQueueInner<'a, QUEUE_SIZE>,
    ) -> bool {
        match r {
            Ok(()) => q.adds_to(seq![], seq![rx], Ok(q@.free_head), after),
            Err(e) => q.adds_to(seq![], seq![rx], Err(e), after),
        }
    }

    /// Create a new VirtIO-Console driver over its queues, which puts what comes in into
    /// `queue_buf_rx`. The buffer is offered to the device at once.
    pub fn new(
        receiveq: VirtQueue<'a, QUEUE_SIZE>,
        transmitq: VirtQueue<'a, QUEUE_SIZE>,
        queue_buf_rx: Buffer,
    ) -> (r: Result<Self, Error>)
        requires
            receiveq.wf(),
            transmitq.wf(),
        ensures
            match r {
                Ok(console) => {
                    &&& console.wf()
                    &&& console.receiveq().index() == receiveq.index()
                    &&& console.transmitq() == transmitq
                    &&& console.rx() == queue_buf_rx
                    &&& console.cursor() == 0
                    &&& console.pending_len() == 0
                    &&& Self::offers_to(
                        receiveq.inner(),
                        queue_buf_rx,
                        Ok(()),
                        console.receiveq().inner(),
                    )
                },
                Err(e) => receiveq@.add_error(1) == Some(e),
            },
    {
        let mut console = VirtIOConsole {
            receiveq,
            transmitq,
            queue_buf_rx,
            cursor: 0,
            pending_len: 0,
        };
        match console.poll_retrieve() {
            Ok(()) => Ok(console),
            Err(e) => Err(e),
        }
    }

    /// Offers the buffer for characters that come in to the device.
    fn poll_retrieve(&mut self) -> (r: Result<(), Error>)
        requires
            old(self).wf(),
        ensures
            final(self).wf(),
            old(self).stays_as(*final(self)),
            Self::offers_to(
                old(self).receiveq().inner(),
                old(self).rx(),
                r,
                final(self).receiveq().inner(),
            ),
    {
        let inputs: [Buffer; 0] = [];
        let outputs = [self.queue_buf_rx];
        proof {
            assert(inputs@ =~= seq![]);
            assert(outputs@ =~= seq![self.queue_buf_rx]);
        }
        match self.receiveq.add(&inputs, &outputs) {
            Ok(_) => Ok(()),
            Err(e) => Err(e),
        }
    }

    /// Takes note that the device put `len` characters into the buffer.
    pub fn deliver(&mut self, len: u32)
        requires
            old(self).wf(),
        ensures
            final(self).wf(),
            final(self).receiveq() == old(self).receiveq(),
            old(self).moves_to(0, len as int, *final(self)),
    {
        self.cursor = 0;
        self.pending_len = len as usize;
    }

    /// `r` is an answer of `ack_interrupt` that leads from this console to `after`.
    pub open spec fn acks_to(&self, ack: bool, r: Result<bool, DeviceFault>, after: Self) -> bool {
        let q = self.receiveq().inner();
        let last = after.receiveq().inner();
        if !ack {
            r == Ok::<bool, DeviceFault>(false) && after == *self
        } else {
            match r {
                Ok(false) => q.pops_to(Ok(None), last) && self.stays_as(after),
                Ok(true) => exists|token: u16, len: u32, mid: VirtQueueInner<'a, QUEUE_SIZE>|
                    #[trigger]
                    q.pops_to(Ok(Some((token, len))), mid) && len != 0 && mid.pops_to(
                        Ok(None),
                        last,
                    ) && self.moves_to(0, len as int, after),
                Err(DeviceFault::EmptyReply) => exists|token: u16| #[trigger]
                    q.pops_to(Ok(Some((token, 0))), last) && self.stays_as(after),
                Err(DeviceFault::ExtraReply) => exists|
                    token: u16,
                    len: u32,
                    mid: VirtQueueInner<'a, QUEUE_SIZE>,
                    token2: u16,
                    len2: u32,
                |
                    #![trigger q.pops_to(Ok(Some((token, len))), mid), mid.pops_to(Ok(Some((token2, len2))), last)]
                    q.pops_to(Ok(Some((token, len))), mid) && len != 0 && mid.pops_to(
                        Ok(Some((token2, len2))),
                        last,
                    ) && self.moves_to(0, len as int, after),
                Err(fault) => {
                    ||| q.pops_to(Err(fault), last) && self.stays_as(after)
                    ||| exists|token: u16, len: u32, mid: VirtQueueInner<'a, QUEUE_SIZE>|
                        #[trigger]
                        q.pops_to(Ok(Some((token, len))), mid) && len != 0 && mid.pops_to(
                            Err(fault),
                            last,
                        ) && self.moves_to(0, len as int, after)
                },
            }
        }
    }

    /// Acknowledge interrupt, where `ack` is whether the device had one to acknowledge.
    /// Returns whether characters came in.
    pub fn ack_interrupt(&mut self, ack: bool) -> (r: Result<bool, DeviceFault>)
        requires
            old(self).wf(),
        ensures
            final(self).wf(),
            old(self).acks_to(ack, r, *final(self)),
    {
        if !ack {
            return Ok(false);
        }
        let ghost q = self.receiveq().inner();
        match self.receiveq.pop_used() {
            Err(fault) => Err(fault),
            Ok(None) => Ok(false),
            Ok(Some((token, len))) => {
                let ghost mid = self.receiveq().inner();
                assert(q.pops_to(Ok(Some((token, len))), mid));
                if len == 0 {
                    return Err(DeviceFault::EmptyReply);
                }
                self.deliver(len);
                match self.receiveq.pop_used() {
                    Err(fault) => Err(fault),
                    Ok(None) => Ok(true),
                    Ok(Some((token2, len2))) => {
                        assert(mid.pops_to(
                            Ok(Some((token2, len2))),
                            self.receiveq().inner(),
                        ));
                        Err(DeviceFault::ExtraReply)
                    },
                }
            },
        }
    }

    /// Where the next character lies in the buffer, if one is pending.
    pub fn next_index(&self) -> (index: Option<usize>)
        ensures
            index == if self.cursor() == self.pending_len() {
                None
            } else {
                Some(self.cursor())
            },
    {
        if self.cursor == self.pending_len {
            None
        } else {
            Some(self.cursor)
        }
    }

    /// Try get char, where `rx` is what the buffer holds. With `pop` the character is
    /// taken, and after the last one the buffer is offered to the device again.
    pub fn recv(&mut self, rx: &[u8], pop: bool) -> (r: Result<Option<u8>, Error>)
        requires
            old(self).wf(),
            old(self).cursor() < old(self).pending_len() ==> old(self).cursor() < rx@.len(),
        ensures
            final(self).wf(),
            old(self).receives_to(rx@, pop, r, *final(self)),
    {
        if self.cursor == self.pending_len {
            return Ok(None);
        }
        let ch: u8 = rx[self.cursor];
        if pop {
            self.cursor += 1;
            if self.cursor == self.pending_len {
                match self.poll_retrieve() {
                    Ok(()) => {},
                    Err(e) => {
                        return Err(e);
                    },
                }
            }
        }
        Ok(Some(ch))
    }

    /// `r` is the answer of `recv`, and leads from this console to `after`.
    pub open spec fn receives_to(
        &self,
        rx: Seq<u8>,
        pop: bool,
        r: Result<Option<u8>, Error>,
        after: Self,
    ) -> bool {
        let ch = rx[self.cursor() as int];
        if self.cursor() == self.pending_len() {
            r == Ok::<Option<u8>, Error>(None) && after == *self
        } else if !pop {
            r == Ok::<Option<u8>, Error>(Some(ch)) && after == *self
        } else if self.cursor() + 1 < self.pending_len() {
            &&& r == Ok::<Option<u8>, Error>(Some(ch))
            &&& after.receiveq() == self.receiveq()
            &&& self.moves_to(self.cursor() + 1, self.pending_len() as int, after)
        } else {
            &&& self.moves_to(self.cursor() + 1, self.pending_len() as int, after)
            &&& match r {
                Ok(c) => c == Some(ch) && Self::offers_to(
                    self.receiveq().inner(),
                    self.rx(),
                    Ok(()),
                    after.receiveq().inner(),
                ),
                Err(e) => Self::offers_to(
                    self.receiveq().inner(),
                    self.rx(),
                    Err(e),
                    after.receiveq().inner(),
                ),
            }
        }
    }

    /// Put a char onto the device: offers `chr`, which holds the one character, for the
    /// device to read. Returns the queue to notify the device of; the wait for the device
    /// to take it is [`VirtIOConsole::send_complete`].
    pub fn send(&mut self, chr: Buffer) -> (r: Result<u32, Error>)
        requires
            old(self).wf(),
            chr.len == 1,
        ensures
            final(self).wf(),
            old(self).sends_as(*final(self)),
            match r {
                Ok(queue) => {
                    &&& queue == QUEUE_TRANSMITQ_PORT_0
                    &&& old(self).transmitq().inner().adds_to(
                        seq![chr],
                        seq![],
                        Ok(old(self).transmitq()@.free_head),
                        final(self).transmitq().inner(),
                    )
                },
                Err(e) => old(self).transmitq().inner().adds_to(
                    seq![chr],
                    seq![],
                    Err(e),
                    final(self).transmitq().inner(),
                ),
            },
    {
        let inputs = [chr];
        let outputs: [Buffer; 0] = [];
        proof {
            assert(inputs@ =~= seq![chr]);
            assert(outputs@ =~= seq![]);
        }
        match self.transmitq.add(&inputs, &outputs) {
            Ok(_) => Ok(QUEUE_TRANSMITQ_PORT_0 as u32),
            Err(e) => Err(e),
        }
    }

    /// Apart from the queue on which characters go out, `after` is this console.
    pub open spec fn sends_as(&self, after: Self) -> bool {
        &&& after.receiveq() == self.receiveq()
        &&& after.transmitq().index() == self.transmitq().index()
        &&& after.rx() == self.rx()
        &&& after.cursor() == self.cursor()
        &&& after.pending_len() == self.pending_len()
    }

    /// One look at whether the device has taken a character.
    pub fn send_complete(&mut self) -> (r: Completion)
        requires
            old(self).wf(),
        ensures
            final(self).wf(),
            old(self).sends_as(*final(self)),
            old(self).transmitq().inner().completes_to(r, final(self).transmitq().inner()),
    {
        self.transmitq.complete()
    }
}

/// Looking at a character and then taking it gives the same character, and looking
/// changes nothing.
pub proof fn law_peek_shows_what_pop_takes<'a>(
    console: VirtIOConsole<'a>,
    peeked: VirtIOConsole<'a>,
    popped: VirtIOConsole<'a>,
    rx: Seq<u8>,
    peek: Result<Option<u8>, Error>,
    pop: Option<u8>,
)
    requires
        console.receives_to(rx, false, peek, peeked),
        peeked.receives_to(rx, true, Ok(pop), popped),
    ensures
        peeked == console,
        peek == Ok::<Option<u8>, Error>(pop),
{
}

/// Characters are taken front to back, each once: after `n` of them were taken from a
/// fresh reply, they are the first `n` bytes of the buffer.
pub proof fn law_chars_come_in_order<'a>(
    steps: Seq<VirtIOConsole<'a>>,
    rx: Seq<u8>,
    chars: Seq<u8>,
    n: nat,
)
    requires
        steps.len() == n + 1,
        chars.len() == n,
        steps[0].cursor() == 0,
        steps[0].pending_len() <= rx.len(),
        forall|k: int| #![trigger steps[k]]
            0 <= k < n ==> steps[k].receives_to(rx, true, Ok(Some(chars[k])), steps[k + 1]),
    ensures
        n <= steps[0].pending_len(),
        chars == rx.take(n as int),
        steps[n as int].cursor() == n,
        steps[n as int].pending_len() == steps[0].pending_len(),
    decreases n,
{
    if n > 0 {
        let m = (n - 1) as nat;
        let fewer = steps.drop_last();
        assert forall|k: int| #![trigger fewer[k]] 0 <= k < m implies fewer[k].receives_to(
            rx,
            true,
            Ok(Some(chars.drop_last()[k])),
            fewer[k + 1],
        ) by {
            assert(fewer[k] == steps[k] && fewer[k + 1] == steps[k + 1]);
            assert(chars.drop_last()[k] == chars[k]);
        }
        law_chars_come_in_order(fewer, rx, chars.drop_last(), m);
        assert(fewer[m as int] == steps[m as int]);
        assert(steps[m as int].receives_to(rx, true, Ok(Some(chars[m as int])), steps[n as int]));
        assert(chars =~= rx.take(n as int)) by {
            assert(chars =~= chars.drop_last().push(chars.last()));
        }
    } else {
        assert(chars =~= rx.take(0));
    }
}

/// An acknowledged interrupt that brought characters took one chain back, for which the
/// device wrote `len` bytes, and found no other. Then exactly `len` characters are
/// pending and none of them was taken, whatever was pending before; the buffer and the
/// other queue are as they were. Returns the token, the length and the queue between the
/// two looks.
pub proof fn law_reply_replaces_what_was_pending<'a>(
    console: VirtIOConsole<'a>,
    after: VirtIOConsole<'a>,
) -> (seen: (u16, u32, VirtQueueInner<'a, QUEUE_SIZE>))
    requires
        console.wf(),
        console.acks_to(true, Ok(true), after),
    ensures
        console.receiveq().inner().pops_to(Ok(Some((seen.0, seen.1))), seen.2),
        seen.2.pops_to(Ok(None), after.receiveq().inner()),
        cell::may_read_u32(
            *console.receiveq().inner().used_ring().ring@[console.receiveq()@.last_used_idx as int
                % 2].len,
            seen.1,
        ),
        seen.1 > 0,
        after.cursor() == 0,
        after.pending_len() == seen.1,
        after.rx() == console.rx(),
        after.transmitq() == console.transmitq(),
        after.receiveq().index() == console.receiveq().index(),
{
    let q = console.receiveq().inner();
    let last = after.receiveq().inner();
    let (token, len, mid) = choose|token: u16, len: u32, mid: VirtQueueInner<'a, QUEUE_SIZE>|
        #[trigger]
        q.pops_to(Ok(Some((token, len))), mid) && len != 0 && mid.pops_to(Ok(None), last)
            && console.moves_to(0, len as int, after);
    effects::law_pop_takes_the_next_entry(q, token, len, mid);
    (token, len, mid)
}

/// Without an interrupt nothing happens. With one, and no characters, the counter of the
/// used ring showed nothing new, and the pending characters are as they were.
pub proof fn law_no_reply_changes_nothing<'a>(
    console: VirtIOConsole<'a>,
    r: Result<bool, DeviceFault>,
    quiet: VirtIOConsole<'a>,
    after: VirtIOConsole<'a>,
)
    requires
        console.acks_to(false, r, quiet),
        console.acks_to(true, Ok(false), after),
    ensures
        r == Ok::<bool, DeviceFault>(false),
        quiet == console,
        cell::may_read_u16(
            *console.receiveq().inner().used_ring().idx,
            console.receiveq()@.last_used_idx,
        ),
        after.receiveq()@ == console.receiveq()@,
        after.cursor() == console.cursor(),
        after.pending_len() == console.pending_len(),
        after.rx() == console.rx(),
        after.transmitq() == console.transmitq(),
{
}

/// A reply of no bytes is a fault of the device: the chain was taken back, and the pending
/// characters are as they were. Returns the token.
pub proof fn law_empty_reply_is_refused<'a>(
    console: VirtIOConsole<'a>,
    after: VirtIOConsole<'a>,
) -> (token: u16)
    requires
        console.acks_to(true, Err(DeviceFault::EmptyReply), after),
    ensures
        console.receiveq().inner().pops_to(Ok(Some((token, 0))), after.receiveq().inner()),
        after.cursor() == console.cursor(),
        after.pending_len() == console.pending_len(),
        after.rx() == console.rx(),
        after.transmitq() == console.transmitq(),
{
    choose|token: u16| #[trigger]
        console.receiveq().inner().pops_to(Ok(Some((token, 0))), after.receiveq().inner())
}

/// Two replies at once are a fault of the device: both chains were taken back, and what is
/// pending is the first of them. Returns the first token and length, the queue between the
/// two looks, and the second token and length.
pub proof fn law_second_reply_is_refused<'a>(
    console: VirtIOConsole<'a>,
    after: VirtIOConsole<'a>,
) -> (seen: (u16, u32, VirtQueueInner<'a, QUEUE_SIZE>, u16, u32))
    requires
        console.acks_to(true, Err(DeviceFault::ExtraReply), after),
    ensures
        console.receiveq().inner().pops_to(Ok(Some((seen.0, seen.1))), seen.2),
        seen.2.pops_to(Ok(Some((seen.3, seen.4))), after.receiveq().inner()),
        seen.1 > 0,
        after.cursor() == 0,
        after.pending_len() == seen.1,
        after.rx() == console.rx(),
        after.transmitq() == console.transmitq(),
{
    let q = console.receiveq().inner();
    let last = after.receiveq().inner();
    choose|
        token: u16,
        len: u32,
        mid: VirtQueueInner<'a, QUEUE_SIZE>,
        token2: u16,
        len2: u32,
    |
        #![trigger q.pops_to(Ok(Some((token, len))), mid), mid.pops_to(Ok(Some((token2, len2))), last)]
        q.pops_to(Ok(Some((token, len))), mid) && len != 0 && mid.pops_to(
            Ok(Some((token2, len2))),
            last,
        ) && console.moves_to(0, len as int, after)
}

/// A token that is not the head of a chain is a fault of the device: found at the first
/// look it leaves the pending characters as they were, and found at the second it leaves
/// the first reply.
pub proof fn law_bad_token_is_refused<'a>(
    console: VirtIOConsole<'a>,
    token: u16,
    after: VirtIOConsole<'a>,
) -> (seen: (u16, u32, VirtQueueInner<'a, QUEUE_SIZE>))
    requires
        console.acks_to(true, Err(DeviceFault::BadToken(token)), after),
    ensures
        after.rx() == console.rx(),
        after.transmitq() == console.transmitq(),
        ({
            ||| {
                &&& console.receiveq().inner().pops_to(
                    Err(DeviceFault::BadToken(token)),
                    after.receiveq().inner(),
                )
                &&& after.cursor() == console.cursor()
                &&& after.pending_len() == console.pending_len()
            }
            ||| {
                &&& console.receiveq().inner().pops_to(Ok(Some((seen.0, seen.1))), seen.2)
                &&& seen.2.pops_to(
                    Err(DeviceFault::BadToken(token)),
                    after.receiveq().inner(),
                )
                &&& seen.1 > 0
                &&& after.cursor() == 0
                &&& after.pending_len() == seen.1
            }
        }),
{
    let q = console.receiveq().inner();
    let last = after.receiveq().inner();
    choose|t: u16, len: u32, mid: VirtQueueInner<'a, QUEUE_SIZE>| #[trigger]
        q.pops_to(Ok(Some((t, len))), mid) && len != 0 && mid.pops_to(
            Err(DeviceFault::BadToken(token)),
            last,
        ) && console.moves_to(0, len as int, after)
}

/// A character is there exactly while fewer were taken than are pending, and it is the
/// byte of the buffer at the number of those taken. Looking changes nothing. Taking it
/// counts it, and changes neither the number of pending ones nor, but for the last one,
/// the queues. With the last one the buffer is offered again, whole, for the device to
/// write.
pub proof fn law_next_character<'a>(
    console: VirtIOConsole<'a>,
    rx: Seq<u8>,
    pop: bool,
    r: Result<Option<u8>, Error>,
    after: VirtIOConsole<'a>,
)
    requires
        console.wf(),
        console.receives_to(rx, pop, r, after),
    ensures
        console.cursor() == console.pending_len() <==> r == Ok::<Option<u8>, Error>(None),
        r == Ok::<Option<u8>, Error>(None) || !pop ==> after == console,
        r matches Ok(Some(ch)) ==> ch == rx[console.cursor() as int],
        r is Err ==> pop && console.cursor() + 1 == console.pending_len(),
        console.cursor() < console.pending_len() && pop ==> {
            &&& after.cursor() == console.cursor() + 1
            &&& after.pending_len() == console.pending_len()
            &&& after.rx() == console.rx()
            &&& after.transmitq() == console.transmitq()
            &&& after.receiveq().index() == console.receiveq().index()
        },
        console.cursor() + 1 < console.pending_len() ==> after.receiveq() == console.receiveq(),
        console.cursor() + 1 == console.pending_len() && pop && r is Ok
            ==> console.receiveq().inner().adds_to(
            seq![],
            seq![console.rx()],
            Ok(console.receiveq()@.free_head),
            after.receiveq().inner(),
        ),
        r is Err ==> r == Err::<Option<u8>, Error>(Error::BufferTooSmall)
            && console.receiveq()@.num_used == 2 && after.receiveq()@ == console.receiveq()@,
{
    if r is Err {
        effects::law_add_answers(
            console.receiveq().inner(),
            seq![],
            seq![console.rx()],
            Err(r->Err_0),
            after.receiveq().inner(),
        );
    }
}

/// The buffer for characters that come in is offered alone, for the device to write.
pub proof fn law_buffer_is_offered_to_write<'a>(
    q: VirtQueueInner<'a, QUEUE_SIZE>,
    rx: Buffer,
    r: Result<(), Error>,
    after: VirtQueueInner<'a, QUEUE_SIZE>,
)
    requires
        q.wf(),
        VirtIOConsole::offers_to(q, rx, r, after),
    ensures
        r is Ok <==> q@.num_used < 2,
        r is Ok ==> {
            let d = after@.desc[q@.free_head as int];
            &&& d.addr == rx.addr
            &&& d.len == rx.len as u32
            &&& d.flags == 2
            &&& after@.avail_ring[q@.avail_idx as int % 2] == q@.free_head
            &&& after@.num_used == q@.num_used + 1
        },
        r is Err ==> r == Err::<(), Error>(Error::BufferTooSmall) && after@ == q@,
{
    let outputs = seq![rx];
    if r is Ok {
        effects::law_add_answers(q, seq![], outputs, Ok(q@.free_head), after);
        effects::law_add_publishes_in_its_entry(q, seq![], outputs, q@.free_head, after);
        let c = seq![q@.free_head];
        effects::law_add_fills_descriptors(q, seq![], outputs, q@.free_head, after, c);
        assert(c[0] == q@.free_head);
    } else {
        effects::law_add_answers(q, seq![], outputs, Err(r->Err_0), after);
    }
}

/// An interrupt brought a reply, and its characters were taken one by one, `chars`, until
/// there was none left, where `rx` is what the buffer held.
pub open spec fn takes_reply<'a>(
    console: VirtIOConsole<'a>,
    steps: Seq<VirtIOConsole<'a>>,
    rx: Seq<u8>,
    chars: Seq<u8>,
) -> bool {
    &&& console.wf()
    &&& steps.len() == chars.len() + 1
    &&& console.acks_to(true, Ok(true), steps[0])
    &&& steps[0].pending_len() <= rx.len()
    &&& forall|k: int| #![trigger steps[k]]
        0 <= k < chars.len() ==> steps[k].receives_to(rx, true, Ok(Some(chars[k])), steps[k + 1])
    &&& steps.last().receives_to(rx, true, Ok(None), steps.last())
}

/// One reply, taken to its end: the characters are exactly the first `len` bytes of the
/// buffer, where `len` is what the device wrote, whatever was pending before. Returns that
/// length.
pub proof fn law_reply_is_taken_whole<'a>(
    console: VirtIOConsole<'a>,
    steps: Seq<VirtIOConsole<'a>>,
    rx: Seq<u8>,
    chars: Seq<u8>,
) -> (len: u32)
    requires
        takes_reply(console, steps, rx, chars),
    ensures
        cell::may_read_u32(
            *console.receiveq().inner().used_ring().ring@[console.receiveq()@.last_used_idx as int
                % 2].len,
            len,
        ),
        0 < len <= rx.len(),
        chars.len() == len,
        chars == rx.take(len as int),
{
    let seen = law_reply_replaces_what_was_pending(console, steps[0]);
    law_chars_come_in_order(steps, rx, chars, chars.len());
    seen.1
}

/// Over several replies, each taken to its end, the characters taken are the first bytes
/// of the first reply, then those of the second, and so on, as many of each as the device
/// wrote. Returns how many these are.
pub proof fn law_replies_come_one_after_another<'a>(
    consoles: Seq<VirtIOConsole<'a>>,
    steps: Seq<Seq<VirtIOConsole<'a>>>,
    rxs: Seq<Seq<u8>>,
    chars: Seq<Seq<u8>>,
) -> (lens: Seq<u32>)
    requires
        consoles.len() == chars.len(),
        steps.len() == chars.len(),
        rxs.len() == chars.len(),
        forall|i: int|
            0 <= i < chars.len() ==> #[trigger] takes_reply(
                consoles[i],
                steps[i],
                rxs[i],
                chars[i],
            ),
    ensures
        lens.len() == chars.len(),
        forall|i: int| #![trigger lens[i]]
            0 <= i < chars.len() ==> {
                &&& cell::may_read_u32(
                    *consoles[i].receiveq().inner().used_ring().ring@[consoles[i].receiveq()@.last_used_idx as int
                        % 2].len,
                    lens[i],
                )
                &&& 0 < lens[i] <= rxs[i].len()
            },
        chars.flatten() == Seq::new(
            chars.len(),
            |i: int| rxs[i].take(lens[i] as int),
        ).flatten(),
    decreases chars.len(),
{
    if chars.len() == 0 {
        let lens = Seq::<u32>::empty();
        assert(chars =~= Seq::new(chars.len(), |i: int| rxs[i].take(lens[i] as int)));
        lens
    } else {
        let n = chars.len() - 1;
        let fewer = chars.drop_last();
        let (c, t, x) = (consoles.drop_last(), steps.drop_last(), rxs.drop_last());
        assert forall|i: int| 0 <= i < n implies #[trigger] takes_reply(
            c[i],
            t[i],
            x[i],
            fewer[i],
        ) by {
            assert(takes_reply(consoles[i], steps[i], rxs[i], chars[i]));
        }
        let first = law_replies_come_one_after_another(c, t, x, fewer);
        assert(takes_reply(consoles[n], steps[n], rxs[n], chars[n]));
        let len = law_reply_is_taken_whole(consoles[n], steps[n], rxs[n], chars[n]);
        let lens = first.push(len);
        let now = Seq::new(chars.len(), |i: int| rxs[i].take(lens[i] as int));
        let then = Seq::new(fewer.len(), |i: int| x[i].take(first[i] as int));
        assert(now =~= then.push(chars[n]));
        assert(chars =~= fewer.push(chars[n]));
        fewer.lemma_flatten_push(chars[n]);
        then.lemma_flatten_push(chars[n]);
        assert forall|i: int| #![trigger lens[i]] 0 <= i < chars.len() implies {
            &&& cell::may_read_u32(
                *consoles[i].receiveq().inner().used_ring().ring@[consoles[i].receiveq()@.last_used_idx as int
                    % 2].len,
                lens[i],
            )
            &&& 0 < lens[i] <= rxs[i].len()
        } by {
            if i < n {
                assert(lens[i] == first[i] && c[i] == consoles[i] && x[i] == rxs[i]);
            }
        }
        lens
    }
}

/// Putting a character out, or looking whether the device took it, keeps everything about
/// characters that come in.
pub proof fn law_sending_keeps_what_came_in<'a>(
    console: VirtIOConsole<'a>,
    after: VirtIOConsole<'a>,
)
    requires
        console.sends_as(after),
    ensures
        after.receiveq() == console.receiveq(),
        after.transmitq().index() == console.transmitq().index(),
        after.rx() == console.rx(),
        after.cursor() == console.cursor(),
        after.pending_len() == console.pending_len(),
{
}

/// Characters come in on queue 0 and go out on queue 1, each with two descriptors.
pub proof fn law_console_queues()
    ensures
        QUEUE_RECEIVEQ_PORT_0 == 0,
        QUEUE_TRANSMITQ_PORT_0 == 1,
        QUEUE_SIZE == 2,
{
}

} // verus!
