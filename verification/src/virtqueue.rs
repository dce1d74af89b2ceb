//! Legacy virtio split queues: where the descriptor table and the two rings
//! lie in the queue's memory, and how the ring indices move.
use vstd::prelude::*;

verus! {

pub const REG_GUEST_FEATURES: u16 = 0x04;

pub const REG_QUEUE_ADDRESS: u16 = 0x08;

pub const REG_QUEUE_SIZE: u16 = 0x0C;

pub const REG_QUEUE_SELECT: u16 = 0x0E;

pub const REG_QUEUE_NOTIFY: u16 = 0x10;

pub const REG_DEVICE_STATUS: u16 = 0x12;

pub const REG_DEVICE_CONFIG: u16 = 0x14;

pub const STATUS_ACKNOWLEDGE: u8 = 1;

pub const STATUS_DRIVER: u8 = 2;

pub const STATUS_DRIVER_OK: u8 = 4;

pub const DESC_F_NEXT: u16 = 1;

pub const DESC_F_WRITE: u16 = 2;

/// The page size queues are laid out in.
pub const PAGE: usize = 4096;

/// Where the parts of a queue of `size` entries lie, in bytes from its start.
#[derive(Debug, Clone, Copy, PartialEq, Eq, Structural)]
pub struct QueueLayout {
    pub desc_bytes: usize,
    pub avail_offset: usize,
    pub avail_bytes: usize,
    pub used_offset: usize,
    pub used_bytes: usize,
    pub pages: usize,
}

/// The layout of a queue of `size` entries: the descriptor table (16 bytes
/// each), then the available ring (4 + 2 per entry), then, from the next page
/// boundary, the used ring (4 + 8 per entry).
pub fn queue_layout(size: u16) -> (r: QueueLayout)
    ensures
        r.desc_bytes == 16 * size,
        r.avail_offset == r.desc_bytes,
        r.avail_bytes == 4 + 2 * size,
        r.used_offset % PAGE == 0,
        r.avail_offset + r.avail_bytes <= r.used_offset < r.avail_offset + r.avail_bytes + PAGE,
        r.used_bytes == 4 + 8 * size,
        r.pages * PAGE >= r.used_offset + r.used_bytes,
        (r.pages - 1) * PAGE < r.used_offset + r.used_bytes,
{
    let desc_bytes = (size as usize) * 16;
    let avail_bytes = 4 + (size as usize) * 2;
    let first = desc_bytes + avail_bytes;
    let used_offset = ((first + PAGE - 1) / PAGE) * PAGE;
    let used_bytes = 4 + (size as usize) * 8;
    let total = used_offset + used_bytes;
    let pages = (total + PAGE - 1) / PAGE;
    proof {
        assert(used_offset % 4096 == 0 && first <= used_offset < first + 4096) by (nonlinear_arith)
            requires
                used_offset == ((first + 4095) / 4096) * 4096,
                first >= 0,
        ;
        assert(pages * 4096 >= total && (pages - 1) * 4096 < total) by (nonlinear_arith)
            requires
                pages == (total + 4095) / 4096,
                total >= 1,
        ;
    }
    QueueLayout {
        desc_bytes,
        avail_offset: desc_bytes,
        avail_bytes,
        used_offset,
        used_bytes,
        pages,
    }
}

/// The byte offset, within the available ring, of the slot the entry with
/// ring index `avail_idx` goes to.
pub fn avail_slot(avail_idx: u16, size: u16) -> (r: usize)
    requires
        size > 0,
    ensures
        r == 4 + (avail_idx % size) * 2,
{
    4 + ((avail_idx % size) as usize) * 2
}

/// The byte offset, within the used ring, of the element with ring index
/// `used_seen`.
pub fn used_slot(used_seen: u16, size: u16) -> (r: usize)
    requires
        size > 0,
    ensures
        r == 4 + (used_seen % size) * 8,
{
    4 + ((used_seen % size) as usize) * 8
}

/// The ring index after `idx`: indices run modulo 2^16.
pub fn next_index(idx: u16) -> (r: u16)
    ensures
        r == (idx + 1) % 0x1_0000,
{
    idx.wrapping_add(1)
}

/// Whether the device has used an entry the driver has not seen.
pub fn has_used(used_idx: u16, used_seen: u16) -> (r: bool)
    ensures
        r == (used_idx != used_seen),
{
    used_idx != used_seen
}

/// A descriptor as the device reads it: buffer address, length, flags and
/// the next descriptor of the chain.
#[derive(Debug, Clone, Copy, PartialEq, Eq, Structural)]
pub struct Descriptor {
    pub addr: u64,
    pub len: u32,
    pub flags: u16,
    pub next: u16,
}

/// The device-status values written during set-up, in order: reset,
/// acknowledge, driver, and (after the queues are set up) driver ok.
pub fn setup_statuses() -> (r: [u8; 4])
    ensures
        r@ == seq![0u8, 1u8, 3u8, 7u8],
{
    let r = [
        0u8,
        STATUS_ACKNOWLEDGE,
        STATUS_ACKNOWLEDGE | STATUS_DRIVER,
        STATUS_ACKNOWLEDGE | STATUS_DRIVER | STATUS_DRIVER_OK,
    ];
    assert(STATUS_ACKNOWLEDGE | STATUS_DRIVER == 3u8) by (bit_vector);
    assert(STATUS_ACKNOWLEDGE | STATUS_DRIVER | STATUS_DRIVER_OK == 7u8) by (bit_vector);
    assert(r@ =~= seq![0u8, 1u8, 3u8, 7u8]);
    r
}

} // verus!
