//! Features of devices, and what the drivers agree on with them.

use vstd::prelude::*;

verus! {

/// Block device: supports request barriers. (legacy)
pub const BLK_BARRIER: u64 = 1 << 0;

/// Block device: maximum size of any single segment is in `size_max`.
pub const BLK_SIZE_MAX: u64 = 1 << 1;

/// Block device: maximum number of segments in a request is in `seg_max`.
pub const BLK_SEG_MAX: u64 = 1 << 2;

/// Block device: disk-style geometry specified in geometry.
pub const BLK_GEOMETRY: u64 = 1 << 4;

/// Block device: is read-only.
pub const BLK_RO: u64 = 1 << 5;

/// Block device: block size of disk is in `blk_size`.
pub const BLK_BLK_SIZE: u64 = 1 << 6;

/// Block device: supports scsi packet commands. (legacy)
pub const BLK_SCSI: u64 = 1 << 7;

/// Block device: cache flush command support.
pub const BLK_FLUSH: u64 = 1 << 9;

/// Block device: exports information on optimal I/O alignment.
pub const BLK_TOPOLOGY: u64 = 1 << 10;

/// Block device: can toggle its cache between writeback and writethrough modes.
pub const BLK_CONFIG_WCE: u64 = 1 << 11;

/// Block device: can support discard command, maximum discard sectors size in
/// `max_discard_sectors` and maximum discard segment number in `max_discard_seg`.
pub const BLK_DISCARD: u64 = 1 << 13;

/// Block device: can support write zeroes command, maximum write zeroes sectors size
/// in `max_write_zeroes_sectors` and maximum write zeroes segment number in
/// `max_write_zeroes_seg`.
pub const BLK_WRITE_ZEROES: u64 = 1 << 14;

/// Console: its size is in `cols` and `rows`.
pub const CONSOLE_SIZE: u64 = 1 << 0;

/// Console: has more than one port.
pub const CONSOLE_MULTIPORT: u64 = 1 << 1;

/// Console: can write a character before it is set up.
pub const CONSOLE_EMERG_WRITE: u64 = 1 << 2;

/// Any device (legacy).
pub const NOTIFY_ON_EMPTY: u64 = 1 << 24;

/// Any device (legacy).
pub const ANY_LAYOUT: u64 = 1 << 27;

/// Any device: descriptors may be indirect.
pub const RING_INDIRECT_DESC: u64 = 1 << 28;

/// Any device: the rings carry event indices.
pub const RING_EVENT_IDX: u64 = 1 << 29;

/// Any device (legacy).
pub const UNUSED: u64 = 1 << 30;

/// Any device: detects legacy ones.
pub const VERSION_1: u64 = 1 << 32;

/// Any device since virtio v1.1.
pub const ACCESS_PLATFORM: u64 = 1 << 33;

/// Any device since virtio v1.1.
pub const RING_PACKED: u64 = 1 << 34;

/// Any device since virtio v1.1.
pub const IN_ORDER: u64 = 1 << 35;

/// Any device since virtio v1.1.
pub const ORDER_PLATFORM: u64 = 1 << 36;

/// Any device since virtio v1.1.
pub const SR_IOV: u64 = 1 << 37;

/// Any device since virtio v1.1.
pub const NOTIFICATION_DATA: u64 = 1 << 38;

/// The features that every device may have.
pub const COMMON_FEATURES: u64 = NOTIFY_ON_EMPTY | ANY_LAYOUT | RING_INDIRECT_DESC | RING_EVENT_IDX
    | UNUSED | VERSION_1 | ACCESS_PLATFORM | RING_PACKED | IN_ORDER | ORDER_PLATFORM | SR_IOV
    | NOTIFICATION_DATA;

/// The features that a block device may have.
pub const BLK_FEATURES: u64 = BLK_BARRIER | BLK_SIZE_MAX | BLK_SEG_MAX | BLK_GEOMETRY | BLK_RO
    | BLK_BLK_SIZE | BLK_SCSI | BLK_FLUSH | BLK_TOPOLOGY | BLK_CONFIG_WCE | BLK_DISCARD
    | BLK_WRITE_ZEROES | COMMON_FEATURES;

/// The features that a console may have.
pub const CONSOLE_FEATURES: u64 = CONSOLE_SIZE | CONSOLE_MULTIPORT | CONSOLE_EMERG_WRITE
    | COMMON_FEATURES;

/// The features to agree on with a device that offers `offered`, where the driver
/// knows `known` and takes up `supported`.
pub fn negotiate(offered: u64, known: u64, supported: u64) -> (agreed: u64)
    ensures
        agreed == (offered & known) & supported,
{
    (offered & known) & supported
}

/// Nothing is agreed on that the device does not offer, or that the driver does not
/// know and take up.
pub proof fn law_agreed_features_are_common(offered: u64, known: u64, supported: u64)
    ensures
        ((offered & known) & supported) & !offered == 0,
        ((offered & known) & supported) & !known == 0,
        ((offered & known) & supported) & !supported == 0,
{
    assert(((offered & known) & supported) & !offered == 0) by (bit_vector);
    assert(((offered & known) & supported) & !known == 0) by (bit_vector);
    assert(((offered & known) & supported) & !supported == 0) by (bit_vector);
}

/// The bits of the features in the words that device and driver exchange.
pub proof fn law_feature_bits()
    ensures
        BLK_BARRIER == 0x1,
        BLK_SIZE_MAX == 0x2,
        BLK_SEG_MAX == 0x4,
        BLK_GEOMETRY == 0x10,
        BLK_RO == 0x20,
        BLK_BLK_SIZE == 0x40,
        BLK_SCSI == 0x80,
        BLK_FLUSH == 0x200,
        BLK_TOPOLOGY == 0x400,
        BLK_CONFIG_WCE == 0x800,
        BLK_DISCARD == 0x2000,
        BLK_WRITE_ZEROES == 0x4000,
        CONSOLE_SIZE == 0x1,
        CONSOLE_MULTIPORT == 0x2,
        CONSOLE_EMERG_WRITE == 0x4,
        NOTIFY_ON_EMPTY == 0x100_0000,
        ANY_LAYOUT == 0x800_0000,
        RING_INDIRECT_DESC == 0x1000_0000,
        RING_EVENT_IDX == 0x2000_0000,
        UNUSED == 0x4000_0000,
        VERSION_1 == 0x1_0000_0000,
        ACCESS_PLATFORM == 0x2_0000_0000,
        RING_PACKED == 0x4_0000_0000,
        IN_ORDER == 0x8_0000_0000,
        ORDER_PLATFORM == 0x10_0000_0000,
        SR_IOV == 0x20_0000_0000,
        NOTIFICATION_DATA == 0x40_0000_0000,
        COMMON_FEATURES == 0x7f_7900_0000,
        BLK_FEATURES == 0x7f_7900_6ef7,
        CONSOLE_FEATURES == 0x7f_7900_0007,
{
    assert(COMMON_FEATURES == 0x7f_7900_0000 && BLK_FEATURES == 0x7f_7900_6ef7 && CONSOLE_FEATURES
        == 0x7f_7900_0007) by (bit_vector);
    assert(BLK_BARRIER == 0x1 && BLK_SIZE_MAX == 0x2 && BLK_SEG_MAX == 0x4 && BLK_GEOMETRY == 0x10
        && BLK_RO == 0x20 && BLK_BLK_SIZE == 0x40 && BLK_SCSI == 0x80 && BLK_FLUSH == 0x200
        && BLK_TOPOLOGY == 0x400 && BLK_CONFIG_WCE == 0x800 && BLK_DISCARD == 0x2000
        && BLK_WRITE_ZEROES == 0x4000) by (bit_vector);
    assert(CONSOLE_SIZE == 0x1 && CONSOLE_MULTIPORT == 0x2 && CONSOLE_EMERG_WRITE == 0x4)
        by (bit_vector);
    assert(NOTIFY_ON_EMPTY == 0x100_0000 && ANY_LAYOUT == 0x800_0000 && RING_INDIRECT_DESC
        == 0x1000_0000 && RING_EVENT_IDX == 0x2000_0000 && UNUSED == 0x4000_0000 && VERSION_1
        == 0x1_0000_0000 && ACCESS_PLATFORM == 0x2_0000_0000 && RING_PACKED == 0x4_0000_0000
        && IN_ORDER == 0x8_0000_0000 && ORDER_PLATFORM == 0x10_0000_0000 && SR_IOV
        == 0x20_0000_0000 && NOTIFICATION_DATA == 0x40_0000_0000) by (bit_vector);
}

} // verus!
