use virtio_drivers::blk::{blk_result, BlkReq, BlkResp, ByteOrder, ReqType, RespStatus};
use virtio_drivers::error::Error;
use virtio_drivers::feature;
use virtio_drivers::layout::VirtQueueLayout;
use virtio_drivers::page::{align_up, pages};
use virtio_drivers::ring::DescFlags;
use virtio_drivers::{blk, console};

#[test]
fn align_up_goes_to_the_boundary() {
    assert_eq!(align_up(0, 4096), 0);
    assert_eq!(align_up(1, 4096), 4096);
    assert_eq!(align_up(4095, 4096), 4096);
    assert_eq!(align_up(4096, 4096), 4096);
    assert_eq!(align_up(4097, 4096), 8192);
    assert_eq!(align_up(5, 1), 5);
    assert_eq!(align_up(usize::MAX - 4095, 4096), usize::MAX - 4095);
    assert_eq!(align_up(10, 6), 12);
    assert_eq!(align_up(12, 6), 12);
}

#[test]
fn pages_round_up() {
    assert_eq!(pages(0, 4096), 0);
    assert_eq!(pages(1, 4096), 1);
    assert_eq!(pages(4096, 4096), 1);
    assert_eq!(pages(4097, 4096), 2);
    assert_eq!(pages(10, 3), 4);
}

#[test]
fn layout_parts_follow_each_other() {
    for n in [1, 2, 16] {
        let l = VirtQueueLayout::new(n, 4096);
        assert_eq!(l.avail_offset, 16 * n);
        assert_eq!(l.used_offset, 4096);
        assert_eq!(l.size, 8192);
    }
    let l = VirtQueueLayout::new(256, 4096);
    assert_eq!(l.avail_offset, 4096);
    assert_eq!(l.used_offset, 8192);
    assert_eq!(l.size, 12288);
    let l = VirtQueueLayout::new(8, 64);
    assert_eq!(l.avail_offset, 128);
    assert_eq!(l.used_offset, 192);
    assert_eq!(l.size, 320);
}

#[test]
fn used_ring_has_pages_of_its_own() {
    // the rings end exactly on a boundary, and nothing is skipped
    let l = VirtQueueLayout::new(5, 32);
    assert_eq!(l.avail_offset + 2 * (3 + 5), 96);
    assert_eq!(l.used_offset, 96);
    assert_eq!(l.size, 160);
}

#[test]
fn descriptor_flags() {
    let next = DescFlags { bits: 1 };
    let write = DescFlags { bits: 2 };
    let mut both = next.union(write);
    assert_eq!(both.bits, 3);
    assert!(both.contains(next));
    both.remove(next);
    assert_eq!(both.bits, 2);
    assert!(!both.contains(next));
    assert!(both.contains(write));
}

#[test]
fn request_bytes() {
    let req = BlkReq { type_: ReqType::Out, reserved: 0, sector: 0x0102_0304_0506_0708 };
    assert_eq!(req.as_buf(ByteOrder::Little), vec![1, 0, 0, 0, 0, 0, 0, 0, 8, 7, 6, 5, 4, 3, 2, 1]);
    let req = BlkReq { type_: ReqType::WriteZeroes, reserved: 0xa0b0c0d0, sector: 0 };
    assert_eq!(
        req.as_buf(ByteOrder::Little),
        vec![13, 0, 0, 0, 0xd0, 0xc0, 0xb0, 0xa0, 0, 0, 0, 0, 0, 0, 0, 0]
    );
}

#[test]
fn request_bytes_of_a_big_endian_machine() {
    let req = BlkReq { type_: ReqType::Discard, reserved: 0xa0b0c0d0, sector: 0x0102 };
    assert_eq!(
        req.as_buf(ByteOrder::Big),
        vec![0, 0, 0, 11, 0xa0, 0xb0, 0xc0, 0xd0, 0, 0, 0, 0, 0, 0, 1, 2]
    );
}

#[test]
fn request_codes() {
    assert_eq!(ReqType::In.to_u32(), 0);
    assert_eq!(ReqType::Out.to_u32(), 1);
    assert_eq!(ReqType::Flush.to_u32(), 4);
    assert_eq!(ReqType::Discard.to_u32(), 11);
    assert_eq!(ReqType::WriteZeroes.to_u32(), 13);
}

#[test]
fn response_starts_as_not_ready() {
    assert_eq!(BlkResp::default().status, RespStatus::NotReady);
    assert_eq!(BlkResp::default().as_buf(), vec![3]);
    assert_eq!(BlkResp { status: RespStatus::Served }.as_buf(), vec![0]);
    assert_eq!(BlkResp { status: RespStatus::IoErr }.as_buf(), vec![1]);
    assert_eq!(BlkResp { status: RespStatus::Unsupported }.as_buf(), vec![2]);
}

#[test]
fn outcome_of_a_response() {
    assert_eq!(blk_result(0), Ok(()));
    for status in [1, 2, 3, 4, 255] {
        assert_eq!(blk_result(status), Err(Error::IoError));
    }
}

#[test]
fn drivers_take_up_no_feature() {
    assert_eq!(blk::negotiate(u64::MAX), 0);
    assert_eq!(console::negotiate(u64::MAX), 0);
    assert_eq!(feature::negotiate(0b1110, 0b0111, 0b1010), 0b0010);
    assert_eq!(feature::BLK_FEATURES, 0x7f_7900_6ef7);
    assert_eq!(feature::CONSOLE_FEATURES, 0x7f_7900_0007);
}
