//! The virtio block driver's requests: what goes into the request header,
//! which descriptors carry it, and what the device's answer means.
use vstd::prelude::*;
use crate::bytes::{le_u64, u32_le, u64_le, push_le_u32, push_le_u64};
use crate::virtqueue::{Descriptor, DESC_F_NEXT, DESC_F_WRITE};

verus! {

pub const VIRTIO_VENDOR_ID: u16 = 0x1AF4;

pub const VIRTIO_BLK_DEVICE_ID: u16 = 0x1001;

pub const QUEUE_REQUEST: u16 = 0;

pub const VIRTIO_BLK_T_IN: u32 = 0;

pub const VIRTIO_BLK_T_OUT: u32 = 1;

pub const SECTOR_SIZE: usize = 512;

/// The driver once set up: the disk's size, and the physical addresses of
/// the request header, the sector buffer and the status byte.
#[derive(Clone, Copy)]
pub struct VirtioBlk {
    pub capacity_sectors: u64,
    pub header_phys: u64,
    pub data_phys: u64,
    pub status_phys: u64,
}

/// The disk's size in sectors, from the eight bytes of device configuration.
pub fn capacity_from_config(config: [u8; 8]) -> (r: u64)
    ensures
        r == le_u64(config@, 0),
{
    crate::bytes::read_le_u64(config.as_slice(), 0)
}

/// The driver for a disk of `capacity_sectors`, whose request buffers lie in
/// the page at `page_phys`: the header, then the sector buffer 512 bytes on,
/// then the status byte 512 bytes after that.
pub fn new_driver(capacity_sectors: u64, page_phys: u64) -> (r: VirtioBlk)
    requires
        page_phys + 1024 <= u64::MAX,
    ensures
        r.capacity_sectors == capacity_sectors,
        r.header_phys == page_phys,
        r.data_phys == page_phys + 512,
        r.status_phys == page_phys + 1024,
{
    VirtioBlk {
        capacity_sectors,
        header_phys: page_phys,
        data_phys: page_phys + 512,
        status_phys: page_phys + 1024,
    }
}

/// The disk's size, once the driver is set up.
pub fn capacity_sectors(driver: &Option<VirtioBlk>) -> (r: Option<u64>)
    ensures
        r == (match driver {
            Some(d) => Some(d.capacity_sectors),
            None => None::<u64>,
        }),
{
    match driver {
        Some(d) => Some(d.capacity_sectors),
        None => None,
    }
}

/// A request as the device sees it: the 16-byte header and the three
/// descriptors of its chain (header, sector buffer, status byte).
pub struct BlkRequest {
    pub header: Vec<u8>,
    pub descriptors: [Descriptor; 3],
}

/// The header of a request of type `req_type` for `sector`.
pub open spec fn header_bytes(req_type: u32, sector: u64) -> Seq<u8> {
    u32_le(req_type) + u32_le(0) + u64_le(sector)
}

/// The request for `sector` of type `req_type`; the sector buffer is
/// written by the device for a read and read by it for a write.
fn do_request(driver: &VirtioBlk, sector: u64, req_type: u32) -> (r: BlkRequest)
    ensures
        r.header@ == header_bytes(req_type, sector),
        r.descriptors@ == seq![
            Descriptor { addr: driver.header_phys, len: 16, flags: DESC_F_NEXT, next: 1 },
            Descriptor {
                addr: driver.data_phys,
                len: SECTOR_SIZE as u32,
                flags: if req_type == VIRTIO_BLK_T_IN {
                    3u16
                } else {
                    DESC_F_NEXT
                },
                next: 2,
            },
            Descriptor { addr: driver.status_phys, len: 1, flags: DESC_F_WRITE, next: 0 },
        ],
{
    let mut header: Vec<u8> = Vec::new();
    push_le_u32(&mut header, req_type);
    push_le_u32(&mut header, 0);
    push_le_u64(&mut header, sector);
    assert(header@ =~= header_bytes(req_type, sector));
    let data_flags = if req_type == VIRTIO_BLK_T_IN {
        DESC_F_NEXT | DESC_F_WRITE
    } else {
        DESC_F_NEXT
    };
    assert(DESC_F_NEXT | DESC_F_WRITE == 3u16) by (bit_vector);
    let descriptors = [
        Descriptor { addr: driver.header_phys, len: 16, flags: DESC_F_NEXT, next: 1 },
        Descriptor { addr: driver.data_phys, len: SECTOR_SIZE as u32, flags: data_flags, next: 2 },
        Descriptor { addr: driver.status_phys, len: 1, flags: DESC_F_WRITE, next: 0 },
    ];
    let r = BlkRequest { header, descriptors };
    assert(r.descriptors@ =~= seq![
        Descriptor { addr: driver.header_phys, len: 16, flags: DESC_F_NEXT, next: 1 },
        Descriptor {
            addr: driver.data_phys,
            len: SECTOR_SIZE as u32,
            flags: if req_type == VIRTIO_BLK_T_IN {
                3u16
            } else {
                DESC_F_NEXT
            },
            next: 2,
        },
        Descriptor { addr: driver.status_phys, len: 1, flags: DESC_F_WRITE, next: 0 },
    ]);
    r
}

/// The request that reads `sector` into the sector buffer.
pub fn read_sector(driver: &VirtioBlk, sector: u64) -> (r: BlkRequest)
    ensures
        r.header@ == header_bytes(VIRTIO_BLK_T_IN, sector),
        r.descriptors@[1].flags == DESC_F_NEXT | DESC_F_WRITE,
        r.descriptors@[0] == (Descriptor {
            addr: driver.header_phys,
            len: 16,
            flags: DESC_F_NEXT,
            next: 1,
        }),
        r.descriptors@[1].addr == driver.data_phys && r.descriptors@[1].len == 512
            && r.descriptors@[1].next == 2,
        r.descriptors@[2] == (Descriptor {
            addr: driver.status_phys,
            len: 1,
            flags: DESC_F_WRITE,
            next: 0,
        }),
{
    let r = do_request(driver, sector, VIRTIO_BLK_T_IN);
    assert(DESC_F_NEXT | DESC_F_WRITE == 3u16) by (bit_vector);
    r
}

/// The request that writes the sector buffer to `sector`.
pub fn write_sector(driver: &VirtioBlk, sector: u64) -> (r: BlkRequest)
    ensures
        r.header@ == header_bytes(VIRTIO_BLK_T_OUT, sector),
        r.descriptors@[1].flags == DESC_F_NEXT,
        r.descriptors@[0] == (Descriptor {
            addr: driver.header_phys,
            len: 16,
            flags: DESC_F_NEXT,
            next: 1,
        }),
        r.descriptors@[1].addr == driver.data_phys && r.descriptors@[1].len == 512
            && r.descriptors@[1].next == 2,
        r.descriptors@[2] == (Descriptor {
            addr: driver.status_phys,
            len: 1,
            flags: DESC_F_WRITE,
            next: 0,
        }),
{
    do_request(driver, sector, VIRTIO_BLK_T_OUT)
}

/// Whether the device reports success in the status byte.
pub fn request_succeeded(status: u8) -> (r: bool)
    ensures
        r == (status == 0),
{
    status == 0
}

} // verus!
