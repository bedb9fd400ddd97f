use std::sync::atomic::{AtomicUsize, Ordering};
use std::sync::Arc;
use std::task::{Wake, Waker};

use virtio_drivers::error::{DeviceFault, Error, HandleIntrError};
use virtio_drivers::inner::VirtQueueInner;
use virtio_drivers::page::{PageSize, Size4KiB};
use virtio_drivers::queue::{Completion, VirtQueue};
use virtio_drivers::ring::{AvailRing, Buffer, Descriptor, QueueMemory, UsedElem, UsedRing};
use volatile::Volatile;

struct Memory {
    addr: Vec<Volatile<u64>>,
    len: Vec<Volatile<u32>>,
    flags: Vec<Volatile<u16>>,
    next: Vec<Volatile<u16>>,
    avail_idx: Volatile<u16>,
    avail: Vec<Volatile<u16>>,
    used_idx: Volatile<u16>,
    used: Vec<(Volatile<u32>, Volatile<u32>)>,
}

impl Memory {
    fn new(size: usize) -> Memory {
        Memory {
            addr: (0..size).map(|_| Volatile::new(0)).collect(),
            len: (0..size).map(|_| Volatile::new(0)).collect(),
            flags: (0..size).map(|_| Volatile::new(0)).collect(),
            next: (0..size).map(|_| Volatile::new(0)).collect(),
            avail_idx: Volatile::new(0),
            avail: (0..size).map(|_| Volatile::new(0)).collect(),
            used_idx: Volatile::new(0),
            used: (0..size).map(|_| (Volatile::new(0), Volatile::new(0))).collect(),
        }
    }

    fn returned(mut self, elems: &[(u32, u32)]) -> Memory {
        for (slot, (id, len)) in elems.iter().enumerate() {
            self.used[slot].0.write(*id);
            self.used[slot].1.write(*len);
        }
        self.used_idx.write(elems.len() as u16);
        self
    }

    fn parts(&mut self) -> QueueMemory<'_> {
        let mut desc = Vec::new();
        for (((addr, len), flags), next) in self
            .addr
            .iter_mut()
            .zip(self.len.iter_mut())
            .zip(self.flags.iter_mut())
            .zip(self.next.iter_mut())
        {
            desc.push(Descriptor { addr, len, flags, next });
        }
        QueueMemory {
            desc,
            avail: AvailRing { idx: &mut self.avail_idx, ring: &mut self.avail },
            used: UsedRing {
                idx: &self.used_idx,
                ring: self.used.iter().map(|(id, len)| UsedElem { id, len }).collect(),
            },
        }
    }

    fn desc(&self, i: usize) -> (u64, u32, u16, u16) {
        (self.addr[i].read(), self.len[i].read(), self.flags[i].read(), self.next[i].read())
    }
}

struct Counter(AtomicUsize);

impl Wake for Counter {
    fn wake(self: Arc<Self>) {
        self.0.fetch_add(1, Ordering::SeqCst);
    }
}

fn counter() -> (Arc<Counter>, Waker) {
    let counter = Arc::new(Counter(AtomicUsize::new(0)));
    (counter.clone(), Waker::from(counter))
}

fn buf(addr: u64, len: usize) -> Buffer {
    Buffer { addr, len }
}

#[test]
fn new_queue_links_descriptors() {
    let mut m = Memory::new(4);
    m.next[3].write(77);
    m.flags[1].write(5);
    {
        let q: VirtQueue<4> = VirtQueue::new(0, m.parts());
        assert_eq!(q.available_desc(), 4);
        assert!(!q.can_pop());
    }
    let next: Vec<u16> = m.next.iter().map(|c| c.read()).collect();
    assert_eq!(next, vec![1, 2, 3, 77]);
    assert_eq!(m.flags[1].read(), 5);
    assert_eq!(m.avail_idx.read(), 0);
}

#[test]
fn queue_of_one_descriptor() {
    let mut m = Memory::new(1).returned(&[(0, 9)]);
    let mut q: VirtQueue<1> = VirtQueue::new(0, m.parts());
    assert_eq!(q.add(&[buf(1, 1)], &[buf(2, 2)]), Err(Error::BufferTooSmall));
    assert_eq!(q.add(&[], &[buf(2, 2)]), Ok(0));
    assert_eq!(q.available_desc(), 0);
    assert_eq!(q.pop_used(), Ok(Some((0, 9))));
    assert_eq!(q.available_desc(), 1);
}

#[test]
fn add_writes_the_chain() {
    let mut m = Memory::new(4);
    {
        let mut q: VirtQueue<4> = VirtQueue::new(3, m.parts());
        let token = q.add(&[buf(0x1000, 16)], &[buf(0x2000, 512), buf(0x3000, 1)]);
        assert_eq!(token, Ok(0));
        assert_eq!(q.available_desc(), 1);
    }
    assert_eq!(m.desc(0), (0x1000, 16, 1, 1));
    assert_eq!(m.desc(1), (0x2000, 512, 3, 2));
    assert_eq!(m.desc(2), (0x3000, 1, 2, 3));
    assert_eq!(m.desc(3), (0, 0, 0, 0));
    assert_eq!(m.avail[0].read(), 0);
    assert_eq!(m.avail_idx.read(), 1);
}

#[test]
fn inputs_alone_end_without_flags() {
    let mut m = Memory::new(4);
    {
        let mut q: VirtQueue<4> = VirtQueue::new(0, m.parts());
        assert_eq!(q.add(&[buf(1, 10), buf(2, 20)], &[]), Ok(0));
        assert_eq!(q.add(&[buf(3, 30)], &[]), Ok(2));
    }
    assert_eq!(m.desc(0), (1, 10, 1, 1));
    assert_eq!(m.desc(1), (2, 20, 0, 2));
    assert_eq!(m.desc(2), (3, 30, 0, 3));
    assert_eq!(m.avail[0].read(), 0);
    assert_eq!(m.avail[1].read(), 2);
    assert_eq!(m.avail_idx.read(), 2);
}

#[test]
fn add_refuses_no_buffers() {
    let mut m = Memory::new(2);
    {
        let mut q: VirtQueue<2> = VirtQueue::new(0, m.parts());
        assert_eq!(q.add(&[], &[]), Err(Error::InvalidParam));
        assert_eq!(q.available_desc(), 2);
    }
    assert_eq!(m.avail_idx.read(), 0);
}

#[test]
fn add_refuses_too_many_buffers() {
    let mut m = Memory::new(2);
    {
        let mut q: VirtQueue<2> = VirtQueue::new(0, m.parts());
        let three = [buf(1, 1), buf(2, 1), buf(3, 1)];
        assert_eq!(q.add(&three, &[]), Err(Error::BufferTooSmall));
        assert_eq!(q.add(&three[..1], &three[..2]), Err(Error::BufferTooSmall));
        assert_eq!(q.add(&three[..1], &[]), Ok(0));
        assert_eq!(q.add(&three[..1], &three[..1]), Err(Error::BufferTooSmall));
        assert_eq!(q.add(&[], &three[..1]), Ok(1));
        assert_eq!(q.available_desc(), 0);
        assert_eq!(q.add(&[], &three[..1]), Err(Error::BufferTooSmall));
    }
    assert_eq!(m.avail_idx.read(), 2);
}

#[test]
fn long_buffer_keeps_low_bits_of_length() {
    let mut m = Memory::new(1);
    {
        let mut q: VirtQueue<1> = VirtQueue::new(0, m.parts());
        assert_eq!(q.add(&[buf(7, 0x1_0000_0005)], &[]), Ok(0));
    }
    assert_eq!(m.desc(0).1, 5);
}

#[test]
fn pop_undoes_add() {
    let mut m = Memory::new(4).returned(&[(0, 100)]);
    let mut q: VirtQueue<4> = VirtQueue::new(0, m.parts());
    assert_eq!(q.add(&[buf(1, 1)], &[buf(2, 2)]), Ok(0));
    assert_eq!(q.available_desc(), 2);
    assert!(q.can_pop());
    assert_eq!(q.pop_used(), Ok(Some((0, 100))));
    assert!(!q.can_pop());
    assert_eq!(q.pop_used(), Ok(None));
    assert_eq!(q.available_desc(), 4);
    assert_eq!(q.add(&[buf(1, 1)], &[buf(2, 2), buf(3, 3), buf(4, 4)]), Ok(0));
}

#[test]
fn chains_come_back_in_any_order() {
    let mut m = Memory::new(8).returned(&[(2, 20), (0, 0)]);
    {
        let mut q: VirtQueue<8> = VirtQueue::new(0, m.parts());
        assert_eq!(q.add(&[buf(1, 1), buf(2, 2)], &[]), Ok(0));
        assert_eq!(q.add(&[buf(3, 3)], &[buf(4, 4)]), Ok(2));
        assert_eq!(q.pop_used(), Ok(Some((2, 20))));
        assert_eq!(q.available_desc(), 6);
        assert_eq!(q.pop_used(), Ok(Some((0, 0))));
        assert_eq!(q.available_desc(), 8);
        assert_eq!(q.pop_used(), Ok(None));
        // the chain that came back last is handed out first
        let five: Vec<Buffer> = (0..5).map(|i| buf(100 + i, 1)).collect();
        assert_eq!(q.add(&five, &[]), Ok(0));
        assert_eq!(q.available_desc(), 3);
    }
    let order: Vec<u64> = [0, 1, 2, 3, 4].iter().map(|i| m.addr[*i].read()).collect();
    assert_eq!(order, vec![100, 101, 102, 103, 104]);
    assert_eq!(m.next[3].read(), 4);
    assert_eq!(m.avail[2].read(), 0);
}

#[test]
fn available_is_what_is_not_outstanding() {
    let mut m = Memory::new(8);
    let mut q: VirtQueueInner<8> = VirtQueueInner::new(m.parts());
    let bufs: Vec<Buffer> = (0..8).map(|i| buf(i, 1)).collect();
    assert_eq!(q.add(&bufs[..3], &[]), Ok(0));
    assert_eq!(q.add(&bufs[..1], &bufs[..1]), Ok(3));
    assert_eq!(q.add(&[], &bufs[..1]), Ok(5));
    assert_eq!(q.available_desc(), 2);
    q.pop_token(3);
    assert_eq!(q.available_desc(), 4);
    assert_eq!(q.add(&bufs[..5], &[]), Err(Error::BufferTooSmall));
    assert_eq!(q.add(&bufs[..4], &[]), Ok(3));
    assert_eq!(q.available_desc(), 0);
    q.pop_token(0);
    q.pop_token(3);
    q.pop_token(5);
    assert_eq!(q.available_desc(), 8);
}

#[test]
fn token_is_the_low_half_of_the_id() {
    let mut m = Memory::new(2).returned(&[(0xabcd_0001, 6)]);
    let mut q: VirtQueue<2> = VirtQueue::new(0, m.parts());
    assert_eq!(q.add(&[buf(1, 1)], &[]), Ok(0));
    assert_eq!(q.add(&[buf(1, 1)], &[]), Ok(1));
    assert_eq!(q.pop_used(), Ok(Some((1, 6))));
}

#[test]
fn token_outside_the_table_is_refused() {
    let mut m = Memory::new(2).returned(&[(9, 6)]);
    let mut q: VirtQueue<2> = VirtQueue::new(0, m.parts());
    assert_eq!(q.add(&[buf(1, 1)], &[]), Ok(0));
    assert_eq!(q.pop_used(), Err(DeviceFault::BadToken(9)));
    assert_eq!(q.available_desc(), 1);
    assert!(q.can_pop());
}

#[test]
fn token_without_chain_is_refused() {
    let mut m = Memory::new(2).returned(&[(0, 6)]);
    let mut q: VirtQueue<2> = VirtQueue::new(0, m.parts());
    assert_eq!(q.pop_used(), Err(DeviceFault::BadToken(0)));
    assert_eq!(q.complete(), Completion::Faulty(DeviceFault::BadToken(0)));
}

#[test]
fn completion_waits_then_is_done() {
    let mut m = Memory::new(2);
    let mut q: VirtQueue<2> = VirtQueue::new(0, m.parts());
    assert_eq!(q.complete(), Completion::Waiting);

    let mut m = Memory::new(2).returned(&[(0, 4)]);
    let mut q: VirtQueue<2> = VirtQueue::new(0, m.parts());
    assert_eq!(q.add(&[], &[buf(1, 4)]), Ok(0));
    assert_eq!(q.complete(), Completion::Done(0, 4));
    assert_eq!(q.complete(), Completion::Waiting);
}

#[test]
fn next_used_leaves_the_chain() {
    let mut m = Memory::new(2).returned(&[(0, 4)]);
    let mut q: VirtQueueInner<2> = VirtQueueInner::new(m.parts());
    assert_eq!(q.add(&[], &[buf(1, 4)]), Ok(0));
    assert_eq!(q.next_used(), Some((0, 4)));
    assert_eq!(q.next_used(), Some((0, 4)));
    assert_eq!(q.available_desc(), 1);
    assert!(q.is_chain(0));
    assert!(!q.is_chain(7));
}

#[test]
fn counters_wrap() {
    let mut m = Memory::new(2);
    {
        let mut q: VirtQueueInner<2> = VirtQueueInner::new(m.parts());
        for i in 0..0x10001usize {
            assert_eq!(q.used_slot(), i % 2);
            assert!(!q.can_pop_at(i as u16));
            assert!(q.can_pop_at((i + 1) as u16));
            assert_eq!(q.add(&[buf(i as u64, 1)], &[]), Ok(0));
            q.pop_token(0);
        }
        assert_eq!(q.available_desc(), 2);
    }
    assert_eq!(m.avail_idx.read(), 1);
    assert_eq!(m.addr[0].read(), 0x10000);
}

#[test]
fn interrupt_without_used_buffer() {
    let mut m = Memory::new(2);
    let q: VirtQueue<2> = VirtQueue::new(0, m.parts());
    assert_eq!(q.handle_interrupt(), Err(HandleIntrError::QueueNotReady));
}

#[test]
fn interrupt_without_waker() {
    let mut m = Memory::new(2).returned(&[(0, 4)]);
    let mut q: VirtQueue<2> = VirtQueue::new(0, m.parts());
    assert_eq!(q.add(&[], &[buf(1, 4)]), Ok(0));
    assert_eq!(q.handle_interrupt(), Err(HandleIntrError::WakerNotExist(0)));

    let mut m = Memory::new(2).returned(&[(5, 4)]);
    let q: VirtQueue<2> = VirtQueue::new(0, m.parts());
    assert_eq!(q.handle_interrupt(), Err(HandleIntrError::WakerNotExist(5)));
}

#[test]
fn interrupt_wakes_the_waiter() {
    let mut m = Memory::new(2).returned(&[(1, 4)]);
    let mut q: VirtQueueInner<2> = VirtQueueInner::new(m.parts());
    let (first, first_waker) = counter();
    let (second, second_waker) = counter();
    q.set_waker(0, first_waker);
    q.set_waker(1, second_waker);
    assert_eq!(q.handle_interrupt(), Ok(()));
    assert_eq!(q.handle_interrupt(), Ok(()));
    assert_eq!(first.0.load(Ordering::SeqCst), 0);
    assert_eq!(second.0.load(Ordering::SeqCst), 2);
}

#[test]
fn waiter_is_woken_by_its_token() {
    let mut m = Memory::new(2);
    let mut q: VirtQueueInner<2> = VirtQueueInner::new(m.parts());
    let (count, waker) = counter();
    q.set_waker(1, waker);
    assert_eq!(q.wake_waiter(0), Err(HandleIntrError::WakerNotExist(0)));
    assert_eq!(q.wake_waiter(2), Err(HandleIntrError::WakerNotExist(2)));
    assert_eq!(count.0.load(Ordering::SeqCst), 0);
    assert_eq!(q.wake_waiter(1), Ok(()));
    assert_eq!(count.0.load(Ordering::SeqCst), 1);
}

#[test]
fn waker_stays_while_chains_come_and_go() {
    let mut m = Memory::new(2).returned(&[(0, 0), (1, 4)]);
    let mut q: VirtQueueInner<2> = VirtQueueInner::new(m.parts());
    let (count, waker) = counter();
    q.set_waker(1, waker);
    assert_eq!(q.add(&[buf(1, 1)], &[]), Ok(0));
    assert_eq!(q.handle_interrupt(), Err(HandleIntrError::WakerNotExist(0)));
    assert_eq!(q.add(&[buf(1, 1)], &[]), Ok(1));
    assert_eq!(q.pop_used(), Ok(Some((0, 0))));
    assert_eq!(q.handle_interrupt(), Ok(()));
    assert_eq!(count.0.load(Ordering::SeqCst), 1);
}

#[test]
fn future_notifies_once_and_takes_the_chain() {
    let mut m = Memory::new(2).returned(&[(0, 8)]);
    let mut q: VirtQueue<2> = VirtQueue::new(5, m.parts());
    let mut fut = q.async_add(&[buf(1, 1)], &[]).ok().unwrap();
    assert_eq!(fut.notify_once(), Some(5));
    assert_eq!(fut.notify_once(), None);
    let (count, waker) = counter();
    assert_eq!(fut.poll(&mut q, waker), Ok(Some((0, 8))));
    assert_eq!(q.available_desc(), 2);
    assert_eq!(count.0.load(Ordering::SeqCst), 0);
}

#[test]
fn pending_future_leaves_its_waker() {
    let mut m = Memory::new(2);
    let mut q: VirtQueue<2> = VirtQueue::new(0, m.parts());
    let fut = q.async_add(&[buf(1, 1)], &[]).ok().unwrap();
    let (count, waker) = counter();
    assert_eq!(Arc::strong_count(&count), 2);
    assert_eq!(fut.poll(&mut q, waker), Ok(None));
    assert_eq!(Arc::strong_count(&count), 2);
    assert_eq!(q.available_desc(), 1);
}

#[test]
fn faulty_device_fails_the_poll() {
    let mut m = Memory::new(2).returned(&[(3, 8)]);
    let mut q: VirtQueue<2> = VirtQueue::new(0, m.parts());
    let fut = q.async_add(&[buf(1, 1)], &[]).ok().unwrap();
    let (_, waker) = counter();
    assert_eq!(fut.poll(&mut q, waker), Err(DeviceFault::BadToken(3)));
}

#[test]
fn async_add_refuses_as_add_does() {
    let mut m = Memory::new(2);
    let mut q: VirtQueue<2> = VirtQueue::new(0, m.parts());
    assert_eq!(q.async_add(&[], &[]).err(), Some(Error::InvalidParam));
    assert_eq!(q.add(&[buf(1, 1)], &[buf(1, 1)]), Ok(0));
    assert_eq!(q.async_add(&[buf(1, 1)], &[]).err(), Some(Error::BufferTooSmall));
}

#[test]
fn plan_checks_the_device() {
    assert_eq!(
        VirtQueue::<16>::plan::<Size4KiB>(true, 16).err(),
        Some(Error::AlreadyUsed)
    );
    assert_eq!(
        VirtQueue::<16>::plan::<Size4KiB>(false, 15).err(),
        Some(Error::InvalidParam)
    );
    assert_eq!(
        VirtQueue::<3>::plan::<Size4KiB>(false, 16).err(),
        Some(Error::InvalidParam)
    );
    assert_eq!(
        VirtQueue::<0>::plan::<Size4KiB>(false, 16).err(),
        Some(Error::InvalidParam)
    );
    let plan = VirtQueue::<16>::plan::<Size4KiB>(false, 16).ok().unwrap();
    assert_eq!(plan.layout.avail_offset, 256);
    assert_eq!(plan.layout.used_offset, 4096);
    assert_eq!(plan.layout.size, 8192);
    assert_eq!(plan.pages, 2);
    let plan = VirtQueue::<2>::plan::<Size4KiB>(false, 16).ok().unwrap();
    assert_eq!(plan.layout.avail_offset, 32);
    assert_eq!(plan.layout.used_offset, 4096);
    assert_eq!(plan.layout.size, 8192);
    assert_eq!(plan.pages, 2);
}

#[test]
fn registers_tell_the_queue() {
    let r = VirtQueue::<16>::registers::<Size4KiB>(1, 0x80001);
    assert_eq!((r.queue, r.size, r.align, r.pfn), (1, 16, 4096, 0x80001));
    assert_eq!(Size4KiB::page_size(), 4096);
}
