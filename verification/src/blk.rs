//! The virtio block device.

use crate::effects;
use crate::error::{DeviceFault, Error, HandleIntrError};
use crate::feature;
use crate::interrupt::InterruptHandler;
use crate::queue::{Completion, VirtFuture, VirtQueue};
use crate::ring::Buffer;
use crate::state;
use crate::state::Entry;
use core::task::Waker;
use vstd::prelude::*;

verus! {

/// The number of descriptors of the request queue.
pub const QUEUE_SIZE: usize = 16;

/// The index of the request queue.
pub const QUEUE_REQUEST: u32 = 0;

/// Bytes of a block.
pub const BLK_SIZE: usize = 512;

/// Bytes of the header of a request.
pub const REQ_SIZE: usize = 16;

/// Bytes of a response.
pub const RESP_SIZE: usize = 1;

/// The features to agree on with a block device that offers `features`: the driver
/// takes up none.
pub fn negotiate(features: u64) -> (agreed: u64)
    ensures
        agreed == 0,
{
    assert((features & feature::BLK_FEATURES) & 0 == 0) by (bit_vector);
    feature::negotiate(features, feature::BLK_FEATURES, 0)
}

/// What a request asks for.
#[derive(Clone, Copy, Debug, PartialEq, Eq)]
pub enum ReqType {
    /// Read.
    In,
    /// Write.
    Out,
    /// Flush the cache.
    Flush,
    /// Discard sectors.
    Discard,
    /// Fill sectors with zeroes.
    WriteZeroes,
}

impl ReqType {
    /// The code of the type in a request.
    pub open spec fn code(self) -> u32 {
        match self {
            ReqType::In => 0,
            ReqType::Out => 1,
            ReqType::Flush => 4,
            ReqType::Discard => 11,
            ReqType::WriteZeroes => 13,
        }
    }

    /// The code of the type in a request.
    pub fn to_u32(self) -> (code: u32)
        ensures
            code == self.code(),
    {
        match self {
            ReqType::In => 0,
            ReqType::Out => 1,
            ReqType::Flush => 4,
            ReqType::Discard => 11,
            ReqType::WriteZeroes => 13,
        }
    }
}

/// The header of a request.
#[derive(Clone, Copy, Debug, PartialEq, Eq)]
pub struct BlkReq {
    /// What is asked for.
    pub type_: ReqType,
    /// Zero.
    pub reserved: u32,
    /// The sector that the request starts at.
    pub sector: u64,
}

/// The lowest `n` bytes of `x`, the least significant first.
pub open spec fn le_bytes(x: nat, n: nat) -> Seq<u8>
    decreases n,
{
    if n == 0 {
        seq![]
    } else {
        seq![(x % 256) as u8] + le_bytes(x / 256, (n - 1) as nat)
    }
}

/// The order of the bytes of a number in memory.
#[derive(Clone, Copy, Debug, PartialEq, Eq)]
pub enum ByteOrder {
    /// The least significant byte comes first.
    Little,
    /// The most significant byte comes first.
    Big,
}

/// The lowest `n` bytes of `x` as they lie in memory.
pub open spec fn memory_bytes(x: nat, n: nat, order: ByteOrder) -> Seq<u8> {
    match order {
        ByteOrder::Little => le_bytes(x, n),
        ByteOrder::Big => le_bytes(x, n).reverse(),
    }
}

impl BlkReq {
    /// The bytes of the header: type, reserved word and sector.
    pub open spec fn bytes(self, order: ByteOrder) -> Seq<u8> {
        memory_bytes(self.type_.code() as nat, 4, order) + memory_bytes(
            self.reserved as nat,
            4,
            order,
        ) + memory_bytes(self.sector as nat, 8, order)
    }

    /// The header as it lies in the memory of a machine with this byte order.
    pub fn as_buf(&self, order: ByteOrder) -> (buf: Vec<u8>)
        ensures
            buf@ == self.bytes(order),
            buf@.len() == REQ_SIZE,
    {
        proof {
            law_request_bytes_are_the_request(*self, *self, order);
        }
        let mut buf: Vec<u8> = Vec::new();
        push_number(&mut buf, self.type_.to_u32() as u64, 4, order);
        push_number(&mut buf, self.reserved as u64, 4, order);
        push_number(&mut buf, self.sector, 8, order);
        buf
    }
}

/// Appends the lowest `n` bytes of `x` as they lie in memory.
fn push_number(buf: &mut Vec<u8>, x: u64, n: usize, order: ByteOrder)
    ensures
        final(buf)@ == old(buf)@ + memory_bytes(x as nat, n as nat, order),
{
    match order {
        ByteOrder::Little => push_le(buf, x, n),
        ByteOrder::Big => {
            let mut little: Vec<u8> = Vec::new();
            push_le(&mut little, x, n);
            let ghost le = little@;
            assert(le =~= le_bytes(x as nat, n as nat));
            let mut left: usize = little.len();
            while left > 0
                invariant
                    left <= le.len(),
                    little@ == le,
                    buf@ =~= old(buf)@ + le.reverse().take(le.len() - left),
                decreases left,
            {
                left -= 1;
                buf.push(little[left]);
            }
            assert(le.reverse().take(le.len() as int) =~= le.reverse());
        },
    }
}

/// Appends the lowest `n` bytes of `x`, the least significant first.
fn push_le(buf: &mut Vec<u8>, x: u64, n: usize)
    ensures
        final(buf)@ == old(buf)@ + le_bytes(x as nat, n as nat),
{
    let mut rest: u64 = x;
    let mut i: usize = 0;
    while i < n
        invariant
            i <= n,
            buf@ + le_bytes(rest as nat, (n - i) as nat) == old(buf)@ + le_bytes(
                x as nat,
                n as nat,
            ),
        decreases n - i,
    {
        let ghost before = buf@;
        let byte: u8 = (rest % 256) as u8;
        buf.push(byte);
        proof {
            let tail = le_bytes(rest as nat / 256, (n - i - 1) as nat);
            assert(before + (seq![byte] + tail) =~= buf@ + tail);
        }
        rest = rest / 256;
        i += 1;
    }
    assert(buf@ + le_bytes(rest as nat, 0) =~= buf@);
}

/// How a request went.
#[derive(Clone, Copy, Debug, PartialEq, Eq)]
pub enum RespStatus {
    /// It was served.
    Served,
    /// It failed.
    IoErr,
    /// The device does not serve such requests.
    Unsupported,
    /// The device has not answered yet.
    NotReady,
}

impl RespStatus {
    /// The code of the status in a response.
    pub open spec fn code(self) -> u8 {
        match self {
            RespStatus::Served => 0,
            RespStatus::IoErr => 1,
            RespStatus::Unsupported => 2,
            RespStatus::NotReady => 3,
        }
    }
}

/// The response to a request.
#[derive(Clone, Copy, Debug, PartialEq, Eq)]
pub struct BlkResp {
    /// How the request went.
    pub status: RespStatus,
}

impl Default for BlkResp {
    fn default() -> (resp: Self)
        ensures
            resp.status == RespStatus::NotReady,
    {
        BlkResp { status: RespStatus::NotReady }
    }
}

impl BlkResp {
    /// The byte of the response.
    pub fn as_buf(&self) -> (buf: Vec<u8>)
        ensures
            buf@ == seq![self.status.code()],
    {
        let code: u8 = match self.status {
            RespStatus::Served => 0,
            RespStatus::IoErr => 1,
            RespStatus::Unsupported => 2,
            RespStatus::NotReady => 3,
        };
        let mut buf: Vec<u8> = Vec::new();
        buf.push(code);
        buf
    }
}

/// The outcome of a request whose response the device left as the byte `status`.
pub fn blk_result(status: u8) -> (r: Result<(), Error>)
    ensures
        r == if status == RespStatus::Served.code() {
            Ok::<(), Error>(())
        } else {
            Err::<(), Error>(Error::IoError)
        },
        r is Ok <==> status == 0,
{
    if status == 0 {
        Ok(())
    } else {
        Err(Error::IoError)
    }
}

/// The virtio block device is a simple virtual block device (ie. disk).
///
/// Read and write requests (and other exotic requests) are placed in the queue,
/// and serviced (probably out of order) by the device except where noted.
pub struct VirtIOBlk<'a> {
    queue: VirtQueue<'a, QUEUE_SIZE>,
    capacity: usize,
}

impl<'a> VirtIOBlk<'a> {
    /// The request queue.
    pub closed spec fn queue(&self) -> VirtQueue<'a, QUEUE_SIZE> {
        self.queue
    }

    /// The number of sectors.
    pub closed spec fn sectors(&self) -> usize {
        self.capacity
    }

    /// The request queue is well formed.
    pub open spec fn wf(&self) -> bool {
        self.queue().wf()
    }

    /// Create a new VirtIO-Blk driver over its request queue, for a device whose
    /// configuration says that it has `capacity` sectors.
    pub fn new(queue: VirtQueue<'a, QUEUE_SIZE>, capacity: u64) -> (blk: Self)
        ensures
            blk.queue() == queue,
            blk.sectors() == capacity as usize,
    {
        VirtIOBlk { queue, capacity: capacity as usize }
    }

    /// The number of sectors of the device.
    pub fn capacity(&self) -> (capacity: usize)
        ensures
            capacity == self.sectors(),
    {
        self.capacity
    }

    /// The header of a request to read a block.
    pub fn read_request(block_id: usize) -> (req: BlkReq)
        ensures
            req == (BlkReq { type_: ReqType::In, reserved: 0, sector: block_id as u64 }),
    {
        BlkReq { type_: ReqType::In, reserved: 0, sector: block_id as u64 }
    }

    /// The header of a request to write a block.
    pub fn write_request(block_id: usize) -> (req: BlkReq)
        ensures
            req == (BlkReq { type_: ReqType::Out, reserved: 0, sector: block_id as u64 }),
    {
        BlkReq { type_: ReqType::Out, reserved: 0, sector: block_id as u64 }
    }

    /// Read a block: places the request in the queue, with `buf` and then `resp` for
    /// the device to write. Returns the queue to notify the device of; the wait for
    /// the answer is [`VirtIOBlk::complete`], and the outcome [`blk_result`].
    pub fn read_block(&mut self, req: Buffer, buf: Buffer, resp: Buffer) -> (r: Result<u32, Error>)
        requires
            old(self).wf(),
            req.len == REQ_SIZE,
            buf.len == BLK_SIZE,
            resp.len == RESP_SIZE,
        ensures
            final(self).wf(),
            final(self).sectors() == old(self).sectors(),
            old(self).submits_to(seq![req], seq![buf, resp], r, *final(self)),
    {
        let inputs = [req];
        let outputs = [buf, resp];
        proof {
            assert(inputs@ =~= seq![req]);
            assert(outputs@ =~= seq![buf, resp]);
        }
        self.submit(&inputs, &outputs)
    }

    /// Write a block: places the request in the queue, with `req` and then `buf` for
    /// the device to read, and `resp` for it to write. Returns as
    /// [`VirtIOBlk::read_block`].
    pub fn write_block(&mut self, req: Buffer, buf: Buffer, resp: Buffer) -> (r: Result<u32, Error>)
        requires
            old(self).wf(),
            req.len == REQ_SIZE,
            buf.len == BLK_SIZE,
            resp.len == RESP_SIZE,
        ensures
            final(self).wf(),
            final(self).sectors() == old(self).sectors(),
            old(self).submits_to(seq![req, buf], seq![resp], r, *final(self)),
    {
        let inputs = [req, buf];
        let outputs = [resp];
        proof {
            assert(inputs@ =~= seq![req, buf]);
            assert(outputs@ =~= seq![resp]);
        }
        self.submit(&inputs, &outputs)
    }

    /// `r` answers the placing of these buffers in the queue, which leads from this
    /// driver to `after`: the queue takes them or says why not.
    pub open spec fn submits_to(
        &self,
        inputs: Seq<Buffer>,
        outputs: Seq<Buffer>,
        r: Result<u32, Error>,
        after: Self,
    ) -> bool {
        &&& after.queue().index() == self.queue().index()
        &&& match r {
            Ok(queue) => {
                &&& queue == QUEUE_REQUEST
                &&& self.queue().inner().adds_to(
                    inputs,
                    outputs,
                    Ok(self.queue()@.free_head),
                    after.queue().inner(),
                )
            },
            Err(e) => self.queue().inner().adds_to(
                inputs,
                outputs,
                Err(e),
                after.queue().inner(),
            ),
        }
    }

    /// Places buffers in the queue.
    fn submit(&mut self, inputs: &[Buffer], outputs: &[Buffer]) -> (r: Result<u32, Error>)
        requires
            old(self).wf(),
        ensures
            final(self).wf(),
            final(self).sectors() == old(self).sectors(),
            old(self).submits_to(inputs@, outputs@, r, *final(self)),
    {
        match self.queue.add(inputs, outputs) {
            Ok(_) => Ok(QUEUE_REQUEST),
            Err(e) => Err(e),
        }
    }

    /// One look at whether the device has answered a request.
    pub fn complete(&mut self) -> (r: Completion)
        requires
            old(self).wf(),
        ensures
            final(self).wf(),
            final(self).sectors() == old(self).sectors(),
            final(self).queue().index() == old(self).queue().index(),
            old(self).queue().inner().completes_to(r, final(self).queue().inner()),
    {
        self.queue.complete()
    }

    /// Async read a block: nothing happens before the first poll.
    pub fn async_read_block(block_id: usize, buf: &Buffer) -> (fut: BlkReadFut)
        requires
            buf.len == BLK_SIZE,
        ensures
            fut.req() == (BlkReq { type_: ReqType::In, reserved: 0, sector: block_id as u64 }),
            fut.buf() == *buf,
            fut.virt_fut() is None,
    {
        BlkReadFut { req: Self::read_request(block_id), buf: *buf, virt_fut: None }
    }

    /// Async write a block: nothing happens before the first poll.
    pub fn async_write_block(block_id: usize, buf: &Buffer) -> (fut: BlkWriteFut)
        requires
            buf.len == BLK_SIZE,
        ensures
            fut.req() == (BlkReq { type_: ReqType::Out, reserved: 0, sector: block_id as u64 }),
            fut.buf() == *buf,
            fut.virt_fut() is None,
    {
        BlkWriteFut { req: Self::write_request(block_id), buf: *buf, virt_fut: None }
    }
}

impl<'a> InterruptHandler for VirtIOBlk<'a> {
    open spec fn can_handle(&self) -> bool {
        self.wf()
    }

    open spec fn handles_as(&self, r: Result<(), HandleIntrError>) -> bool {
        self.queue().inner().handles_as(r)
    }

    fn handle_interrupt(&self) -> (r: Result<(), HandleIntrError>) {
        self.queue.handle_interrupt()
    }
}

/// A future before the poll that submits its request, or waiting for the answer.
///
/// `r` answers the start of a poll, which leads from `blk` and `before` to `blk_after`
/// and `after`: a request that was not submitted yet is, with `inputs` for the device to
/// read and `outputs` for it to write, unless the queue refuses it; and the device is to
/// be notified once.
pub open spec fn starts_to<'a>(
    blk: VirtIOBlk<'a>,
    before: Option<VirtFuture>,
    inputs: Seq<Buffer>,
    outputs: Seq<Buffer>,
    r: Result<Option<u32>, Error>,
    blk_after: VirtIOBlk<'a>,
    after: Option<VirtFuture>,
) -> bool {
    &&& blk_after.sectors() == blk.sectors()
    &&& blk_after.queue().index() == blk.queue().index()
    &&& match before {
        Some(fut) => {
            &&& blk_after == blk
            &&& r == Ok::<Option<u32>, Error>(
                if fut.unpolled() {
                    Some(fut.queue_idx())
                } else {
                    None
                },
            )
            &&& after matches Some(fut_after)
            &&& fut_after.desc_idx() == fut.desc_idx()
            &&& fut_after.queue_idx() == fut.queue_idx()
            &&& !fut_after.unpolled()
        },
        None => match r {
            Ok(notify) => {
                &&& notify == Some(blk.queue().index())
                &&& after matches Some(fut)
                &&& blk.queue().inner().adds_to(
                    inputs,
                    outputs,
                    Ok(fut.desc_idx()),
                    blk_after.queue().inner(),
                )
                &&& fut.desc_idx() < QUEUE_SIZE
                &&& fut.queue_idx() == blk.queue().index()
                &&& !fut.unpolled()
            },
            Err(e) => {
                &&& after is None
                &&& blk.queue().inner().adds_to(
                    inputs,
                    outputs,
                    Err(e),
                    blk_after.queue().inner(),
                )
            },
        },
    }
}

/// Starts a poll of a request.
fn start_poll(
    virt_fut: &mut Option<VirtFuture>,
    blk: &mut VirtIOBlk<'_>,
    inputs: &[Buffer],
    outputs: &[Buffer],
) -> (r: Result<Option<u32>, Error>)
    requires
        old(blk).wf(),
    ensures
        final(blk).wf(),
        starts_to(*old(blk), *old(virt_fut), inputs@, outputs@, r, *final(blk), *final(virt_fut)),
{
    let mut fut: VirtFuture = match virt_fut.take() {
        Some(fut) => fut,
        None => match blk.queue.async_add(inputs, outputs) {
            Ok(fut) => fut,
            Err(e) => {
                return Err(e);
            },
        },
    };
    let notify: Option<u32> = fut.notify_once();
    *virt_fut = Some(fut);
    Ok(notify)
}

/// Future for the [`VirtIOBlk::async_read_block()`] method.
pub struct BlkReadFut {
    req: BlkReq,
    buf: Buffer,
    virt_fut: Option<VirtFuture>,
}

impl BlkReadFut {
    /// The header of the request.
    pub closed spec fn req(&self) -> BlkReq {
        self.req
    }

    /// The data of the request.
    pub closed spec fn buf(&self) -> Buffer {
        self.buf
    }

    /// The wait for the answer, once the request was submitted.
    pub closed spec fn virt_fut(&self) -> Option<VirtFuture> {
        self.virt_fut
    }

    /// The request was submitted, on a queue of the right size.
    pub open spec fn started(&self) -> bool {
        self.virt_fut() matches Some(fut) && fut.desc_idx() < QUEUE_SIZE
    }

    /// The header of the request.
    pub fn request(&self) -> (req: BlkReq)
        ensures
            req == self.req(),
    {
        self.req
    }

    /// The first half of a poll: submits the request, if it was not yet, with the header
    /// for the device to read
    /// and the data and the response for it to write; and returns the queue to
    /// notify the device of, if it was not yet.
    pub fn start(
        &mut self,
        blk: &mut VirtIOBlk<'_>,
        req: Buffer,
        resp: Buffer,
    ) -> (r: Result<Option<u32>, Error>)
        requires
            old(blk).wf(),
            req.len == REQ_SIZE,
            resp.len == RESP_SIZE,
        ensures
            final(blk).wf(),
            final(self).req() == old(self).req(),
            final(self).buf() == old(self).buf(),
            starts_to(
                *old(blk),
                old(self).virt_fut(),
                seq![req],
                seq![old(self).buf(), resp],
                r,
                *final(blk),
                final(self).virt_fut(),
            ),
    {
        let inputs = [req];
        let outputs = [self.buf, resp];
        proof {
            assert(inputs@ =~= seq![req]);
            assert(outputs@ =~= seq![self.buf, resp]);
        }
        start_poll(&mut self.virt_fut, blk, &inputs, &outputs)
    }

    /// The second half of a poll: whether the device has answered. The outcome is then
    /// [`blk_result`] of the response.
    pub fn poll(&self, blk: &mut VirtIOBlk<'_>, waker: Waker) -> (r: Result<bool, DeviceFault>)
        requires
            old(blk).wf(),
            self.started(),
        ensures
            final(blk).wf(),
            answers_to(*old(blk), self.virt_fut()->0, waker, r, *final(blk)),
    {
        finish_poll(&self.virt_fut, blk, waker)
    }
}

/// Future for the [`VirtIOBlk::async_write_block()`] method.
pub struct BlkWriteFut {
    req: BlkReq,
    buf: Buffer,
    virt_fut: Option<VirtFuture>,
}

impl BlkWriteFut {
    /// The header of the request.
    pub closed spec fn req(&self) -> BlkReq {
        self.req
    }

    /// The data of the request.
    pub closed spec fn buf(&self) -> Buffer {
        self.buf
    }

    /// The wait for the answer, once the request was submitted.
    pub closed spec fn virt_fut(&self) -> Option<VirtFuture> {
        self.virt_fut
    }

    /// The request was submitted, on a queue of the right size.
    pub open spec fn started(&self) -> bool {
        self.virt_fut() matches Some(fut) && fut.desc_idx() < QUEUE_SIZE
    }

    /// The header of the request.
    pub fn request(&self) -> (req: BlkReq)
        ensures
            req == self.req(),
    {
        self.req
    }

    /// The first half of a poll: submits the request, if it was not yet, with the header
    /// and the data for the device to read
    /// and the response for it to write; and returns the queue to
    /// notify the device of, if it was not yet.
    pub fn start(
        &mut self,
        blk: &mut VirtIOBlk<'_>,
        req: Buffer,
        resp: Buffer,
    ) -> (r: Result<Option<u32>, Error>)
        requires
            old(blk).wf(),
            req.len == REQ_SIZE,
            resp.len == RESP_SIZE,
        ensures
            final(blk).wf(),
            final(self).req() == old(self).req(),
            final(self).buf() == old(self).buf(),
            starts_to(
                *old(blk),
                old(self).virt_fut(),
                seq![req, old(self).buf()],
                seq![resp],
                r,
                *final(blk),
                final(self).virt_fut(),
            ),
    {
        let inputs = [req, self.buf];
        let outputs = [resp];
        proof {
            assert(inputs@ =~= seq![req, self.buf]);
            assert(outputs@ =~= seq![resp]);
        }
        start_poll(&mut self.virt_fut, blk, &inputs, &outputs)
    }

    /// The second half of a poll: whether the device has answered. The outcome is then
    /// [`blk_result`] of the response.
    pub fn poll(&self, blk: &mut VirtIOBlk<'_>, waker: Waker) -> (r: Result<bool, DeviceFault>)
        requires
            old(blk).wf(),
            self.started(),
        ensures
            final(blk).wf(),
            answers_to(*old(blk), self.virt_fut()->0, waker, r, *final(blk)),
    {
        finish_poll(&self.virt_fut, blk, waker)
    }
}

/// `r` is an answer to a poll that leads from `blk` to `after`: true where a chain was
/// taken back; where there was none, `waker` is left for the chain of `fut`.
pub open spec fn answers_to<'a>(
    blk: VirtIOBlk<'a>,
    fut: VirtFuture,
    waker: Waker,
    r: Result<bool, DeviceFault>,
    after: VirtIOBlk<'a>,
) -> bool {
    &&& after.sectors() == blk.sectors()
    &&& after.queue().index() == blk.queue().index()
    &&& match r {
        Ok(true) => exists|token: u16, len: u32| #[trigger]
            blk.queue().inner().pops_to(Ok(Some((token, len))), after.queue().inner()),
        Ok(false) => blk.queue().inner().polls_to(
            fut.desc_idx(),
            waker,
            Ok(None),
            after.queue().inner(),
        ),
        Err(fault) => blk.queue().inner().pops_to(Err(fault), after.queue().inner()),
    }
}

/// Looks for the answer to a request.
fn finish_poll(
    virt_fut: &Option<VirtFuture>,
    blk: &mut VirtIOBlk<'_>,
    waker: Waker,
) -> (r: Result<bool, DeviceFault>)
    requires
        old(blk).wf(),
        virt_fut matches Some(fut) && fut.desc_idx() < QUEUE_SIZE,
    ensures
        final(blk).wf(),
        answers_to(*old(blk), virt_fut->0, waker, r, *final(blk)),
{
    match virt_fut {
        Some(fut) => match fut.poll(&mut blk.queue, waker) {
            Ok(Some((token, len))) => {
                assert(old(blk).queue().inner().pops_to(
                    Ok(Some((token, len))),
                    blk.queue().inner(),
                ));
                Ok(true)
            },
            Ok(None) => Ok(false),
            Err(fault) => Err(fault),
        },
        None => Ok(false),
    }
}

/// In a request to read a block the device reads the header, and writes the data and
/// the response, in this order.
pub proof fn law_read_block_descriptors(req: Buffer, buf: Buffer, resp: Buffer)
    ensures
        state::entries(seq![req], seq![buf, resp]) == seq![
            Entry { addr: req.addr, len: req.len as u32, flags: 1 },
            Entry { addr: buf.addr, len: buf.len as u32, flags: 3 },
            Entry { addr: resp.addr, len: resp.len as u32, flags: 2 },
        ],
{
    assert(1u16 | 2u16 == 3u16) by (bit_vector);
}

/// In a request to write a block the device reads the header and the data, and writes
/// the response, in this order.
pub proof fn law_write_block_descriptors(req: Buffer, buf: Buffer, resp: Buffer)
    ensures
        state::entries(seq![req, buf], seq![resp]) == seq![
            Entry { addr: req.addr, len: req.len as u32, flags: 1 },
            Entry { addr: buf.addr, len: buf.len as u32, flags: 1 },
            Entry { addr: resp.addr, len: resp.len as u32, flags: 2 },
        ],
{
}

/// There are `n` lowest bytes.
proof fn lemma_le_bytes_len(x: nat, n: nat)
    ensures
        le_bytes(x, n).len() == n,
    decreases n,
{
    if n > 0 {
        lemma_le_bytes_len(x / 256, (n - 1) as nat);
    }
}

/// A number that fits `n` bytes is determined by its lowest `n` bytes.
proof fn lemma_le_bytes_injective(x: nat, y: nat, n: nat)
    requires
        x < vstd::arithmetic::power::pow(256, n),
        y < vstd::arithmetic::power::pow(256, n),
        le_bytes(x, n) == le_bytes(y, n),
    ensures
        x == y,
    decreases n,
{
    vstd::arithmetic::power::lemma_pow0(256);
    if n > 0 {
        let m = (n - 1) as nat;
        let tx = le_bytes(x / 256, m);
        let ty = le_bytes(y / 256, m);
        vstd::arithmetic::power::lemma_pow1(256);
        vstd::arithmetic::power::lemma_pow_adds(256, 1, m);
        lemma_le_bytes_len(x / 256, m);
        lemma_le_bytes_len(y / 256, m);
        assert(le_bytes(x, n)[0] == (x % 256) as u8 && le_bytes(y, n)[0] == (y % 256) as u8);
        assert(tx =~= le_bytes(x, n).skip(1));
        assert(ty =~= le_bytes(y, n).skip(1));
        lemma_le_bytes_injective(x / 256, y / 256, m);
    }
}

/// A number that fits `n` bytes is determined by how it lies in memory.
proof fn lemma_memory_bytes_injective(x: nat, y: nat, n: nat, order: ByteOrder)
    requires
        x < vstd::arithmetic::power::pow(256, n),
        y < vstd::arithmetic::power::pow(256, n),
        memory_bytes(x, n, order) == memory_bytes(y, n, order),
    ensures
        x == y,
{
    assert(memory_bytes(x, n, ByteOrder::Big).reverse() =~= le_bytes(x, n));
    assert(memory_bytes(y, n, ByteOrder::Big).reverse() =~= le_bytes(y, n));
    lemma_le_bytes_injective(x, y, n);
}

/// The header of a request takes 16 bytes, and says all there is to the request: two
/// requests with the same bytes are the same.
pub proof fn law_request_bytes_are_the_request(a: BlkReq, b: BlkReq, order: ByteOrder)
    ensures
        a.bytes(order).len() == REQ_SIZE,
        a.bytes(order) == b.bytes(order) ==> a == b,
{
    let (ax, aw, az) = (a.type_.code() as nat, a.reserved as nat, a.sector as nat);
    let (bx, bw, bz) = (b.type_.code() as nat, b.reserved as nat, b.sector as nat);
    lemma_le_bytes_len(ax, 4);
    lemma_le_bytes_len(bx, 4);
    lemma_le_bytes_len(aw, 4);
    lemma_le_bytes_len(bw, 4);
    lemma_le_bytes_len(az, 8);
    lemma_le_bytes_len(bz, 8);
    if a.bytes(order) == b.bytes(order) {
        assert(memory_bytes(ax, 4, order) =~= a.bytes(order).subrange(0, 4));
        assert(memory_bytes(bx, 4, order) =~= b.bytes(order).subrange(0, 4));
        assert(memory_bytes(aw, 4, order) =~= a.bytes(order).subrange(4, 8));
        assert(memory_bytes(bw, 4, order) =~= b.bytes(order).subrange(4, 8));
        assert(memory_bytes(az, 8, order) =~= a.bytes(order).subrange(8, 16));
        assert(memory_bytes(bz, 8, order) =~= b.bytes(order).subrange(8, 16));
        assert(vstd::arithmetic::power::pow(256, 4) == 0x1_0000_0000
            && vstd::arithmetic::power::pow(256, 8) == 0x1_0000_0000_0000_0000) by {
            reveal_with_fuel(vstd::arithmetic::power::pow, 9);
        }
        lemma_memory_bytes_injective(ax, bx, 4, order);
        lemma_memory_bytes_injective(aw, bw, 4, order);
        lemma_memory_bytes_injective(az, bz, 8, order);
    }
}

/// The lowest eight bytes of a 64-bit number, the least significant first, add up to it,
/// each weighted by its power of 256.
proof fn lemma_le_bytes_add_up(x: nat)
    requires
        x < 0x1_0000_0000_0000_0000,
    ensures
        le_bytes(x, 8).len() == 8,
        le_bytes(x, 8)[0] + 0x100 * le_bytes(x, 8)[1] + 0x1_0000 * le_bytes(x, 8)[2] + 0x100_0000
            * le_bytes(x, 8)[3] + 0x1_0000_0000 * le_bytes(x, 8)[4] + 0x100_0000_0000 * le_bytes(
            x,
            8,
        )[5] + 0x1_0000_0000_0000 * le_bytes(x, 8)[6] + 0x100_0000_0000_0000 * le_bytes(x, 8)[7]
            == x,
{
    let high = x / 0x1_0000_0000;
    let low = le_bytes(x, 4);
    lemma_le_bytes_split(x);
    lemma_le_bytes_add_up_short(high);
    lemma_le_bytes_add_up_low(x);
    assert(le_bytes(x, 8) =~= low + le_bytes(high, 4));
}

/// The lowest eight bytes are the lowest four and those of what lies above them.
proof fn lemma_le_bytes_split(x: nat)
    ensures
        le_bytes(x, 8) == le_bytes(x, 4) + le_bytes(x / 0x1_0000_0000, 4),
{
    let (a, b, c, d) = (x / 256, x / 256 / 256, x / 256 / 256 / 256, x / 256 / 256 / 256 / 256);
    assert(d == x / 0x1_0000_0000);
    let rest = le_bytes(d, 4);
    assert(le_bytes(x, 8) == seq![(x % 256) as u8] + le_bytes(a, 7));
    assert(le_bytes(a, 7) == seq![(a % 256) as u8] + le_bytes(b, 6));
    assert(le_bytes(b, 6) == seq![(b % 256) as u8] + le_bytes(c, 5));
    assert(le_bytes(c, 5) == seq![(c % 256) as u8] + rest);
    lemma_le_bytes_four(x);
    lemma_le_bytes_len(d, 4);
    assert(le_bytes(x, 8) =~= le_bytes(x, 4) + rest);
}

/// The lowest four bytes, one by one.
proof fn lemma_le_bytes_four(x: nat)
    ensures
        le_bytes(x, 4) == seq![
            (x % 256) as u8,
            (x / 256 % 256) as u8,
            (x / 256 / 256 % 256) as u8,
            (x / 256 / 256 / 256 % 256) as u8,
        ],
{
    let (a, b, c, d) = (x / 256, x / 256 / 256, x / 256 / 256 / 256, x / 256 / 256 / 256 / 256);
    assert(le_bytes(x, 4) == seq![(x % 256) as u8] + le_bytes(a, 3));
    assert(le_bytes(a, 3) == seq![(a % 256) as u8] + le_bytes(b, 2));
    assert(le_bytes(b, 2) == seq![(b % 256) as u8] + le_bytes(c, 1));
    assert(le_bytes(c, 1) == seq![(c % 256) as u8] + le_bytes(d, 0));
    assert(le_bytes(d, 0) =~= seq![]);
    assert(le_bytes(x, 4) =~= seq![
        (x % 256) as u8,
        (a % 256) as u8,
        (b % 256) as u8,
        (c % 256) as u8,
    ]);
}

/// The lowest four bytes add up to the remainder by 2 to the 32.
proof fn lemma_le_bytes_add_up_low(x: nat)
    ensures
        le_bytes(x, 4).len() == 4,
        le_bytes(x, 4)[0] + 0x100 * le_bytes(x, 4)[1] + 0x1_0000 * le_bytes(x, 4)[2] + 0x100_0000
            * le_bytes(x, 4)[3] == x % 0x1_0000_0000,
{
    lemma_le_bytes_four(x);
    assert(x == 256 * (x / 256) + x % 256);
}

/// The lowest four bytes of a 32-bit number add up to it.
proof fn lemma_le_bytes_add_up_short(x: nat)
    requires
        x < 0x1_0000_0000,
    ensures
        le_bytes(x, 4).len() == 4,
        le_bytes(x, 4)[0] + 0x100 * le_bytes(x, 4)[1] + 0x1_0000 * le_bytes(x, 4)[2] + 0x100_0000
            * le_bytes(x, 4)[3] == x,
{
    lemma_le_bytes_add_up_low(x);
}

/// The header of every request is 16 bytes: bytes 0 to 3 decode to the number of its type,
/// bytes 4 to 7 to the reserved word and bytes 8 to 15 to the sector, with the weights 1,
/// 256, 256 squared and so on from the front in the little byte order, and from the back in
/// the big one. Reading is type 0, writing 1, flushing 4, discarding 11 and filling with
/// zeroes 13.
pub proof fn law_header_decodes_to_the_request(req: BlkReq, order: ByteOrder)
    ensures
        req.bytes(order).len() == 16,
        ({
            let b = req.bytes(order);
            let number = match req.type_ {
                ReqType::In => 0int,
                ReqType::Out => 1int,
                ReqType::Flush => 4int,
                ReqType::Discard => 11int,
                ReqType::WriteZeroes => 13int,
            };
            match order {
                ByteOrder::Little => {
                    &&& b[0] + 0x100 * b[1] + 0x1_0000 * b[2] + 0x100_0000 * b[3] == number
                    &&& b[4] + 0x100 * b[5] + 0x1_0000 * b[6] + 0x100_0000 * b[7] == req.reserved
                    &&& b[8] + 0x100 * b[9] + 0x1_0000 * b[10] + 0x100_0000 * b[11] + 0x1_0000_0000
                        * b[12] + 0x100_0000_0000 * b[13] + 0x1_0000_0000_0000 * b[14]
                        + 0x100_0000_0000_0000 * b[15] == req.sector
                },
                ByteOrder::Big => {
                    &&& b[3] + 0x100 * b[2] + 0x1_0000 * b[1] + 0x100_0000 * b[0] == number
                    &&& b[7] + 0x100 * b[6] + 0x1_0000 * b[5] + 0x100_0000 * b[4] == req.reserved
                    &&& b[15] + 0x100 * b[14] + 0x1_0000 * b[13] + 0x100_0000 * b[12]
                        + 0x1_0000_0000 * b[11] + 0x100_0000_0000 * b[10] + 0x1_0000_0000_0000
                        * b[9] + 0x100_0000_0000_0000 * b[8] == req.sector
                },
            }
        }),
{
    let (x, w, z) = (req.type_.code() as nat, req.reserved as nat, req.sector as nat);
    lemma_le_bytes_add_up_short(x);
    lemma_le_bytes_add_up_short(w);
    lemma_le_bytes_add_up(z);
    let b = req.bytes(order);
    assert forall|i: int| 0 <= i < 4 implies b[i] == #[trigger] memory_bytes(x, 4, order)[i] by {}
    assert forall|i: int| 0 <= i < 4 implies b[4 + i] == #[trigger] memory_bytes(w, 4, order)[i] by {}
    assert forall|i: int| 0 <= i < 8 implies b[8 + i] == #[trigger] memory_bytes(z, 8, order)[i] by {}
    let (mx, mw, mz) = (
        memory_bytes(x, 4, order),
        memory_bytes(w, 4, order),
        memory_bytes(z, 8, order),
    );
    assert(b[0] == mx[0] && b[1] == mx[1] && b[2] == mx[2] && b[3] == mx[3]);
    assert(b[4] == mw[0] && b[5] == mw[1] && b[6] == mw[2] && b[7] == mw[3]);
    assert(b[8] == mz[0] && b[9] == mz[1] && b[10] == mz[2] && b[11] == mz[3]);
    assert(b[12] == mz[4] && b[13] == mz[5] && b[14] == mz[6] && b[15] == mz[7]);
}

/// The byte of a response is 0 where the request was served, 1 where it failed, 2 where
/// the device does not serve such requests, and 3 before the device has answered.
pub proof fn law_status_bytes(status: RespStatus)
    ensures
        status.code() == match status {
            RespStatus::Served => 0int,
            RespStatus::IoErr => 1int,
            RespStatus::Unsupported => 2int,
            RespStatus::NotReady => 3int,
        },
{
}

/// A request that the driver places gets to the device with the buffers as they were
/// given, on queue 0; it is refused where the queue has no room for them, and then the
/// queue is as it was.
pub proof fn law_request_is_placed_as_given<'a>(
    blk: VirtIOBlk<'a>,
    inputs: Seq<Buffer>,
    outputs: Seq<Buffer>,
    r: Result<u32, Error>,
    after: VirtIOBlk<'a>,
)
    requires
        blk.wf(),
        inputs.len() + outputs.len() > 0,
        blk.submits_to(inputs, outputs, r, after),
    ensures
        after.queue().index() == blk.queue().index(),
        r is Ok <==> inputs.len() + outputs.len() + blk.queue()@.num_used <= 16,
        r matches Ok(queue) ==> queue == 0 && blk.queue().inner().adds_to(
            inputs,
            outputs,
            Ok(blk.queue()@.free_head),
            after.queue().inner(),
        ),
        r is Err ==> r == Err::<u32, Error>(Error::BufferTooSmall) && after.queue()@
            == blk.queue()@,
{
    if r is Ok {
        effects::law_add_answers(
            blk.queue().inner(),
            inputs,
            outputs,
            Ok(blk.queue()@.free_head),
            after.queue().inner(),
        );
    } else {
        effects::law_add_answers(
            blk.queue().inner(),
            inputs,
            outputs,
            Err(r->Err_0),
            after.queue().inner(),
        );
    }
}

/// The first poll of a future places its request with the buffers as they were given, and
/// has the device notified of the queue; where the queue refuses it, the future is as it
/// was and nothing is to be notified.
pub proof fn law_first_poll_places_the_request<'a>(
    blk: VirtIOBlk<'a>,
    inputs: Seq<Buffer>,
    outputs: Seq<Buffer>,
    r: Result<Option<u32>, Error>,
    blk_after: VirtIOBlk<'a>,
    after: Option<VirtFuture>,
)
    requires
        blk.wf(),
        inputs.len() + outputs.len() > 0,
        starts_to(blk, None, inputs, outputs, r, blk_after, after),
    ensures
        blk_after.sectors() == blk.sectors(),
        blk_after.queue().index() == blk.queue().index(),
        r is Ok <==> inputs.len() + outputs.len() + blk.queue()@.num_used <= 16,
        r is Ok <==> after is Some,
        r matches Ok(notify) ==> {
            &&& notify == Some(blk.queue().index())
            &&& after->0.desc_idx() == blk.queue()@.free_head
            &&& after->0.queue_idx() == blk.queue().index()
            &&& !after->0.unpolled()
            &&& blk.queue().inner().adds_to(
                inputs,
                outputs,
                Ok(blk.queue()@.free_head),
                blk_after.queue().inner(),
            )
        },
        r is Err ==> r == Err::<Option<u32>, Error>(Error::BufferTooSmall)
            && blk_after.queue()@ == blk.queue()@,
{
    if r is Ok {
        effects::law_add_answers(
            blk.queue().inner(),
            inputs,
            outputs,
            Ok(after->0.desc_idx()),
            blk_after.queue().inner(),
        );
    } else {
        effects::law_add_answers(
            blk.queue().inner(),
            inputs,
            outputs,
            Err(r->Err_0),
            blk_after.queue().inner(),
        );
    }
}

/// A poll of a future whose request was placed places nothing: the driver is as it was,
/// the future waits for the same chain, and the device is to be notified of the future's
/// queue exactly if the future was not polled yet.
pub proof fn law_placed_request_only_notifies<'a>(
    blk: VirtIOBlk<'a>,
    fut: VirtFuture,
    inputs: Seq<Buffer>,
    outputs: Seq<Buffer>,
    r: Result<Option<u32>, Error>,
    blk_after: VirtIOBlk<'a>,
    after: Option<VirtFuture>,
)
    requires
        starts_to(blk, Some(fut), inputs, outputs, r, blk_after, after),
    ensures
        blk_after == blk,
        r is Ok,
        r->Ok_0 is Some <==> fut.unpolled(),
        fut.unpolled() ==> r->Ok_0->0 == fut.queue_idx(),
        after is Some,
        after->0.desc_idx() == fut.desc_idx(),
        after->0.queue_idx() == fut.queue_idx(),
        !after->0.unpolled(),
{
}

/// A later poll places nothing: the driver is as it was, and the future waits for the same
/// chain. Over two polls of one future the device is notified in the first one only.
pub proof fn law_request_is_placed_once<'a>(
    blk: VirtIOBlk<'a>,
    before: Option<VirtFuture>,
    inputs: Seq<Buffer>,
    outputs: Seq<Buffer>,
    r: Result<Option<u32>, Error>,
    blk_mid: VirtIOBlk<'a>,
    mid: Option<VirtFuture>,
    blk_then: VirtIOBlk<'a>,
    r_again: Result<Option<u32>, Error>,
    blk_after: VirtIOBlk<'a>,
    after: Option<VirtFuture>,
)
    requires
        starts_to(blk, before, inputs, outputs, r, blk_mid, mid),
        r is Ok,
        starts_to(blk_then, mid, inputs, outputs, r_again, blk_after, after),
    ensures
        r_again == Ok::<Option<u32>, Error>(None),
        blk_after == blk_then,
        after matches Some(fut) && {
            &&& fut.desc_idx() == mid->0.desc_idx()
            &&& fut.queue_idx() == mid->0.queue_idx()
            &&& !fut.unpolled()
        },
{
}

/// A poll finds an answer exactly where it took a chain back; while it is pending the
/// waker is left for the chain of the future, and for no other.
pub proof fn law_pending_request_leaves_its_waker<'a>(
    blk: VirtIOBlk<'a>,
    fut: VirtFuture,
    waker: Waker,
    r: Result<bool, DeviceFault>,
    after: VirtIOBlk<'a>,
) -> (taken: (u16, u32))
    requires
        blk.wf(),
        fut.desc_idx() < 16,
        answers_to(blk, fut, waker, r, after),
    ensures
        after.sectors() == blk.sectors(),
        after.queue().index() == blk.queue().index(),
        r == Ok::<bool, DeviceFault>(true) ==> blk.queue().inner().pops_to(
            Ok(Some(taken)),
            after.queue().inner(),
        ),
        r == Ok::<bool, DeviceFault>(false) ==> {
            &&& after.queue()@.wakers[fut.desc_idx() as int] == Some(waker)
            &&& forall|t: int|
                0 <= t < 16 && t != fut.desc_idx() ==> #[trigger] after.queue()@.wakers[t]
                    == blk.queue()@.wakers[t]
            &&& after.queue()@.desc == blk.queue()@.desc
            &&& after.queue()@.num_used == blk.queue()@.num_used
            &&& after.queue()@.last_used_idx == blk.queue()@.last_used_idx
        },
        r matches Err(fault) ==> blk.queue().inner().pops_to(Err(fault), after.queue().inner()),
{
    match r {
        Ok(true) => {
            choose|token: u16, len: u32| #[trigger]
                blk.queue().inner().pops_to(Ok(Some((token, len))), after.queue().inner())
        },
        Ok(false) => {
            effects::law_pending_poll_keeps_other_waiters(
                blk.queue().inner(),
                fut.desc_idx(),
                waker,
                Ok(None),
                after.queue().inner(),
            );
            (0, 0)
        },
        Err(_) => (0, 0),
    }
}

/// The driver's answer to an interrupt is that of its queue: it wakes who waits for the
/// chain that came back.
pub proof fn law_driver_answers_for_its_queue<'a>(
    blk: VirtIOBlk<'a>,
    r: Result<(), HandleIntrError>,
)
    ensures
        blk.handles_as(r) <==> blk.queue().inner().handles_as(r),
        blk.can_handle() <==> blk.queue().inner().wf(),
{
}

/// A block has 512 bytes, and the request queue 16 descriptors.
pub proof fn law_block_device_sizes()
    ensures
        BLK_SIZE == 512,
        QUEUE_SIZE == 16,
        REQ_SIZE == 16,
        RESP_SIZE == 1,
        QUEUE_REQUEST == 0,
{
}

} // verus!
