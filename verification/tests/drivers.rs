use std::sync::Arc;
use std::task::{Wake, Waker};

use virtio_drivers::blk::{blk_result, ReqType};
use virtio_drivers::error::{DeviceFault, Error, HandleIntrError};
use virtio_drivers::interrupt::{handle_interrupt_fn, InterruptHandler};
use virtio_drivers::queue::{Completion, VirtQueue};
use virtio_drivers::ring::{AvailRing, Buffer, Descriptor, QueueMemory, UsedElem, UsedRing};
use virtio_drivers::{VirtIOBlk, VirtIOConsole};
use volatile::Volatile;

struct Memory {
    addr: Vec<Volatile<u64>>,
    len: Vec<Volatile<u32>>,
    flags: Vec<Volatile<u16>>,
    next: Vec<Volatile<u16>>,
    avail_idx: Volatile<u16>,
    avail: Vec<Volatile<u16>>,
    used_idx: Volatile<u16>,
    used: Vec<(Volatile<u32>, Volatile<u32>)>,
}

impl Memory {
    fn new(size: usize) -> Memory {
        Memory {
            addr: (0..size).map(|_| Volatile::new(0)).collect(),
            len: (0..size).map(|_| Volatile::new(0)).collect(),
            flags: (0..size).map(|_| Volatile::new(0)).collect(),
            next: (0..size).map(|_| Volatile::new(0)).collect(),
            avail_idx: Volatile::new(0),
            avail: (0..size).map(|_| Volatile::new(0)).collect(),
            used_idx: Volatile::new(0),
            used: (0..size).map(|_| (Volatile::new(0), Volatile::new(0))).collect(),
        }
    }

    fn returned(mut self, elems: &[(u32, u32)]) -> Memory {
        for (slot, (id, len)) in elems.iter().enumerate() {
            self.used[slot].0.write(*id);
            self.used[slot].1.write(*len);
        }
        self.used_idx.write(elems.len() as u16);
        self
    }

    fn parts(&mut self) -> QueueMemory<'_> {
        let mut desc = Vec::new();
        for (((addr, len), flags), next) in self
            .addr
            .iter_mut()
            .zip(self.len.iter_mut())
            .zip(self.flags.iter_mut())
            .zip(self.next.iter_mut())
        {
            desc.push(Descriptor { addr, len, flags, next });
        }
        QueueMemory {
            desc,
            avail: AvailRing { idx: &mut self.avail_idx, ring: &mut self.avail },
            used: UsedRing {
                idx: &self.used_idx,
                ring: self.used.iter().map(|(id, len)| UsedElem { id, len }).collect(),
            },
        }
    }

    fn desc(&self, i: usize) -> (u64, u32, u16, u16) {
        (self.addr[i].read(), self.len[i].read(), self.flags[i].read(), self.next[i].read())
    }
}

struct Idle;

impl Wake for Idle {
    fn wake(self: Arc<Self>) {}
}

fn idle() -> Waker {
    Waker::from(Arc::new(Idle))
}

fn buf(addr: u64, len: usize) -> Buffer {
    Buffer { addr, len }
}

#[test]
fn read_block_offers_data_to_be_written() {
    let mut m = Memory::new(16).returned(&[(0, 513)]);
    {
        let mut blk = VirtIOBlk::new(VirtQueue::new(0, m.parts()), 2048);
        assert_eq!(blk.capacity(), 2048);
        let sent = blk.read_block(buf(0x100, 16), buf(0x200, 512), buf(0x400, 1));
        assert_eq!(sent, Ok(0));
        assert_eq!(blk.complete(), Completion::Done(0, 513));
        assert_eq!(blk.complete(), Completion::Waiting);
        assert_eq!(blk_result(0), Ok(()));
    }
    assert_eq!(m.desc(0), (0x100, 16, 1, 1));
    assert_eq!(m.desc(1), (0x200, 512, 3, 2));
    assert_eq!((m.desc(2).0, m.desc(2).1, m.desc(2).2), (0x400, 1, 2));
    assert_eq!(m.avail_idx.read(), 1);
}

#[test]
fn write_block_offers_data_to_be_read() {
    let mut m = Memory::new(16);
    {
        let mut blk = VirtIOBlk::new(VirtQueue::new(0, m.parts()), 2048);
        let sent = blk.write_block(buf(0x100, 16), buf(0x200, 512), buf(0x400, 1));
        assert_eq!(sent, Ok(0));
        assert_eq!(blk.complete(), Completion::Waiting);
    }
    assert_eq!(m.desc(0), (0x100, 16, 1, 1));
    assert_eq!(m.desc(1), (0x200, 512, 1, 2));
    assert_eq!(m.desc(2), (0x400, 1, 2, 3));
}

#[test]
fn request_headers() {
    let req = VirtIOBlk::read_request(7);
    assert_eq!((req.type_, req.reserved, req.sector), (ReqType::In, 0, 7));
    let req = VirtIOBlk::write_request(8);
    assert_eq!((req.type_, req.reserved, req.sector), (ReqType::Out, 0, 8));
}

#[test]
fn block_queue_holds_five_requests() {
    let mut m = Memory::new(16);
    let mut blk = VirtIOBlk::new(VirtQueue::new(0, m.parts()), 1);
    for _ in 0..5 {
        assert_eq!(blk.read_block(buf(1, 16), buf(2, 512), buf(3, 1)), Ok(0));
    }
    assert_eq!(
        blk.write_block(buf(1, 16), buf(2, 512), buf(3, 1)),
        Err(Error::BufferTooSmall)
    );
}

#[test]
fn block_device_that_breaks_the_rules() {
    let mut m = Memory::new(16).returned(&[(16, 0)]);
    let mut blk = VirtIOBlk::new(VirtQueue::new(0, m.parts()), 1);
    assert_eq!(blk.read_block(buf(1, 16), buf(2, 512), buf(3, 1)), Ok(0));
    assert_eq!(blk.complete(), Completion::Faulty(DeviceFault::BadToken(16)));
}

#[test]
fn async_requests_are_submitted_once() {
    let mut m = Memory::new(16).returned(&[(3, 1), (0, 513)]);
    {
        let mut blk = VirtIOBlk::new(VirtQueue::new(0, m.parts()), 1);
        let data = buf(0x200, 512);
        let mut read = VirtIOBlk::async_read_block(5, &data);
        let mut write = VirtIOBlk::async_write_block(6, &data);
        assert_eq!(read.request().sector, 5);
        assert_eq!(read.request().type_, ReqType::In);
        assert_eq!(write.request().sector, 6);
        assert_eq!(write.request().type_, ReqType::Out);
        assert_eq!(read.start(&mut blk, buf(0x100, 16), buf(0x400, 1)), Ok(Some(0)));
        assert_eq!(read.start(&mut blk, buf(0x100, 16), buf(0x400, 1)), Ok(None));
        assert_eq!(write.start(&mut blk, buf(0x101, 16), buf(0x401, 1)), Ok(Some(0)));
        assert_eq!(write.poll(&mut blk, idle()), Ok(true));
        assert_eq!(read.poll(&mut blk, idle()), Ok(true));
        assert_eq!(read.poll(&mut blk, idle()), Ok(false));
    }
    assert_eq!(m.avail_idx.read(), 2);
    // the device reads the header, and writes the data and the response
    let flags: Vec<u16> = m.flags.iter().take(3).map(|c| c.read()).collect();
    assert_eq!(flags, vec![1, 3, 2]);
    // the device reads the header and the data, and writes the response
    let flags: Vec<u16> = m.flags.iter().skip(3).take(3).map(|c| c.read()).collect();
    assert_eq!(flags, vec![1, 1, 2]);
    let addr: Vec<u64> = m.addr.iter().take(6).map(|c| c.read()).collect();
    assert_eq!(addr, vec![0x100, 0x200, 0x400, 0x101, 0x200, 0x401]);
}

#[test]
fn async_request_is_refused_by_a_full_queue() {
    let mut m = Memory::new(16).returned(&[(0, 0)]);
    let mut blk = VirtIOBlk::new(VirtQueue::new(0, m.parts()), 1);
    let data = buf(2, 512);
    for _ in 0..5 {
        assert_eq!(blk.read_block(buf(1, 16), data, buf(3, 1)), Ok(0));
    }
    let mut write = VirtIOBlk::async_write_block(6, &data);
    let refused = write.start(&mut blk, buf(1, 16), buf(3, 1));
    assert_eq!(refused, Err(Error::BufferTooSmall));
    assert_eq!(blk.complete(), Completion::Done(0, 0));
    assert_eq!(write.start(&mut blk, buf(1, 16), buf(3, 1)), Ok(Some(0)));
}

struct Ready;

impl InterruptHandler for Ready {
    fn handle_interrupt(&self) -> Result<(), HandleIntrError> {
        Ok(())
    }
}

#[test]
fn interrupts_reach_the_driver_of_the_device() {
    let mut m = Memory::new(16).returned(&[(4, 0)]);
    let blk = VirtIOBlk::new(VirtQueue::new(0, m.parts()), 1);
    let handle = handle_interrupt_fn(|dev_id: usize| -> &dyn InterruptHandler {
        if dev_id == 3 {
            &blk
        } else {
            &Ready
        }
    });
    assert_eq!(handle(0), Ok(()));
    assert_eq!(handle(3), Err(HandleIntrError::WakerNotExist(4)));
}

#[test]
fn interrupt_of_an_idle_block_device() {
    let mut m = Memory::new(16);
    let blk = VirtIOBlk::new(VirtQueue::new(0, m.parts()), 1);
    assert_eq!(blk.handle_interrupt(), Err(HandleIntrError::QueueNotReady));
}

#[test]
fn console_offers_its_buffer_at_once() {
    let mut rxm = Memory::new(2);
    let mut txm = Memory::new(2);
    {
        let rx: VirtQueue<2> = VirtQueue::new(0, rxm.parts());
        let tx: VirtQueue<2> = VirtQueue::new(1, txm.parts());
        let mut console = VirtIOConsole::new(rx, tx, buf(0x5000, 4096)).ok().unwrap();
        assert_eq!(console.next_index(), None);
        assert_eq!(console.recv(&[], true), Ok(None));
        assert_eq!(console.ack_interrupt(false), Ok(false));
        assert_eq!(console.ack_interrupt(true), Ok(false));
    }
    assert_eq!(rxm.desc(0), (0x5000, 4096, 2, 1));
    assert_eq!(rxm.avail_idx.read(), 1);
    assert_eq!(txm.avail_idx.read(), 0);
}

#[test]
fn console_refuses_a_full_queue() {
    let mut rxm = Memory::new(2);
    let mut txm = Memory::new(2);
    let mut rx: VirtQueue<2> = VirtQueue::new(0, rxm.parts());
    let tx: VirtQueue<2> = VirtQueue::new(1, txm.parts());
    assert_eq!(rx.add(&[], &[buf(1, 1), buf(2, 1)]), Ok(0));
    let refused = VirtIOConsole::new(rx, tx, buf(0x5000, 4096)).err();
    assert_eq!(refused, Some(Error::BufferTooSmall));
}

#[test]
fn console_reads_in_order() {
    let mut rxm = Memory::new(2).returned(&[(0, 3)]);
    let mut txm = Memory::new(2);
    {
        let rx: VirtQueue<2> = VirtQueue::new(0, rxm.parts());
        let tx: VirtQueue<2> = VirtQueue::new(1, txm.parts());
        let mut console = VirtIOConsole::new(rx, tx, buf(0x5000, 4096)).ok().unwrap();
        assert_eq!(console.ack_interrupt(false), Ok(false));
        assert_eq!(console.next_index(), None);
        assert_eq!(console.ack_interrupt(true), Ok(true));
        let data = [10, 20, 30, 40];
        assert_eq!(console.recv(&data, false), Ok(Some(10)));
        assert_eq!(console.recv(&data, true), Ok(Some(10)));
        assert_eq!(console.next_index(), Some(1));
        assert_eq!(console.recv(&data, true), Ok(Some(20)));
        assert_eq!(console.recv(&data, false), Ok(Some(30)));
        assert_eq!(console.recv(&data, true), Ok(Some(30)));
        assert_eq!(console.recv(&data, true), Ok(None));
    }
    // the buffer was offered again, after its last character
    assert_eq!(rxm.avail_idx.read(), 2);
    assert_eq!(rxm.desc(0).0, 0x5000);
}

#[test]
fn console_that_cannot_offer_again() {
    let mut rxm = Memory::new(2);
    let mut txm = Memory::new(2);
    let mut rx: VirtQueue<2> = VirtQueue::new(0, rxm.parts());
    let tx: VirtQueue<2> = VirtQueue::new(1, txm.parts());
    assert_eq!(rx.add(&[], &[buf(1, 1)]), Ok(0));
    let mut console = VirtIOConsole::new(rx, tx, buf(0x5000, 4096)).ok().unwrap();
    console.deliver(1);
    assert_eq!(console.recv(&[9], true), Err(Error::BufferTooSmall));
    assert_eq!(console.recv(&[9], true), Ok(None));
}

#[test]
fn console_device_with_an_empty_reply() {
    let mut rxm = Memory::new(2).returned(&[(0, 0)]);
    let mut txm = Memory::new(2);
    let rx: VirtQueue<2> = VirtQueue::new(0, rxm.parts());
    let tx: VirtQueue<2> = VirtQueue::new(1, txm.parts());
    let mut console = VirtIOConsole::new(rx, tx, buf(0x5000, 4096)).ok().unwrap();
    assert_eq!(console.ack_interrupt(true), Err(DeviceFault::EmptyReply));
    assert_eq!(console.next_index(), None);
}

#[test]
fn console_device_with_an_extra_reply() {
    let mut rxm = Memory::new(2).returned(&[(1, 2), (0, 1)]);
    let mut txm = Memory::new(2);
    let mut rx: VirtQueue<2> = VirtQueue::new(0, rxm.parts());
    let tx: VirtQueue<2> = VirtQueue::new(1, txm.parts());
    assert_eq!(rx.add(&[], &[buf(1, 1)]), Ok(0));
    let mut console = VirtIOConsole::new(rx, tx, buf(0x5000, 4096)).ok().unwrap();
    assert_eq!(console.ack_interrupt(true), Err(DeviceFault::ExtraReply));
}

#[test]
fn console_device_with_a_bad_token() {
    let mut rxm = Memory::new(2).returned(&[(2, 1)]);
    let mut txm = Memory::new(2);
    let rx: VirtQueue<2> = VirtQueue::new(0, rxm.parts());
    let tx: VirtQueue<2> = VirtQueue::new(1, txm.parts());
    let mut console = VirtIOConsole::new(rx, tx, buf(0x5000, 4096)).ok().unwrap();
    assert_eq!(console.ack_interrupt(true), Err(DeviceFault::BadToken(2)));
}

#[test]
fn console_sends_a_char() {
    let mut rxm = Memory::new(2);
    let mut txm = Memory::new(2).returned(&[(0, 0)]);
    {
        let rx: VirtQueue<2> = VirtQueue::new(0, rxm.parts());
        let tx: VirtQueue<2> = VirtQueue::new(1, txm.parts());
        let mut console = VirtIOConsole::new(rx, tx, buf(0x5000, 4096)).ok().unwrap();
        assert_eq!(console.send(buf(0x77, 1)), Ok(1));
        assert_eq!(console.send_complete(), Completion::Done(0, 0));
        assert_eq!(console.send_complete(), Completion::Waiting);
        assert_eq!(console.send(buf(0x78, 1)), Ok(1));
        assert_eq!(console.send(buf(0x79, 1)), Ok(1));
        assert_eq!(console.send(buf(0x7a, 1)), Err(Error::BufferTooSmall));
    }
    assert_eq!(txm.desc(0), (0x78, 1, 0, 1));
    assert_eq!(txm.avail_idx.read(), 3);
}
