//! The virtio network driver's buffers: what the driver hands the device to
//! send, and how much of a received buffer is the frame.
use vstd::prelude::*;
use crate::virtqueue::{Descriptor, DESC_F_WRITE};

verus! {

pub const VIRTIO_VENDOR_ID: u16 = 0x1AF4;

pub const VIRTIO_NET_DEVICE_ID: u16 = 0x1000;

pub const QUEUE_RX: u16 = 0;

pub const QUEUE_TX: u16 = 1;

/// How many receive buffers the driver keeps with the device.
pub const RX_BUFFERS: usize = 8;

/// The virtio-net header in front of every frame.
pub const VIRTIO_NET_HDR_LEN: usize = 10;

/// A receive buffer: the header and the largest Ethernet frame.
pub const FRAME_BUF_LEN: usize = 1524;

/// The driver once set up: the card's MAC address and the physical
/// addresses of its receive buffers and its transmit buffer.
pub struct VirtioNet {
    pub mac: [u8; 6],
    pub rx_buffers: [u64; 8],
    pub tx_buffer: u64,
}

/// The card's MAC address, once the driver is set up.
pub fn mac_address(driver: &Option<VirtioNet>) -> (r: Option<[u8; 6]>)
    ensures
        r == (match driver {
            Some(d) => Some(d.mac),
            None => None::<[u8; 6]>,
        }),
{
    match driver {
        Some(d) => Some(d.mac),
        None => None,
    }
}

/// The descriptor that gives receive buffer `i` (at `phys`) to the device.
pub fn rx_descriptor(phys: u64) -> (r: Descriptor)
    ensures
        r == (Descriptor { addr: phys, len: FRAME_BUF_LEN as u32, flags: DESC_F_WRITE, next: 0 }),
{
    Descriptor { addr: phys, len: FRAME_BUF_LEN as u32, flags: DESC_F_WRITE, next: 0 }
}

/// The descriptor that sends a frame of `frame_len` bytes from the transmit
/// buffer (header first).
pub fn tx_descriptor(driver: &VirtioNet, frame_len: usize) -> (r: Descriptor)
    requires
        VIRTIO_NET_HDR_LEN + frame_len <= u32::MAX,
    ensures
        r == (Descriptor {
            addr: driver.tx_buffer,
            len: (VIRTIO_NET_HDR_LEN + frame_len) as u32,
            flags: 0,
            next: 0,
        }),
{
    Descriptor {
        addr: driver.tx_buffer,
        len: (VIRTIO_NET_HDR_LEN + frame_len) as u32,
        flags: 0,
        next: 0,
    }
}

/// Where a used receive buffer's frame goes: the buffer it came back in (by
/// descriptor id) and how many bytes of it to copy into a buffer of
/// `out_len`: the frame after the header, cut to fit.
pub fn received(driver: &VirtioNet, id: u16, used_len: u32, out_len: usize) -> (r: (u64, usize))
    ensures
        r.0 == driver.rx_buffers@[id as int % RX_BUFFERS as int],
        r.1 == ({
            let payload = if used_len < VIRTIO_NET_HDR_LEN {
                0
            } else {
                used_len - VIRTIO_NET_HDR_LEN
            };
            if payload < out_len {
                payload
            } else {
                out_len as int
            }
        }),
{
    let buf = driver.rx_buffers[(id as usize) % RX_BUFFERS];
    let payload_len: usize = if (used_len as usize) < VIRTIO_NET_HDR_LEN {
        0
    } else {
        used_len as usize - VIRTIO_NET_HDR_LEN
    };
    let copy_len = if payload_len < out_len {
        payload_len
    } else {
        out_len
    };
    (buf, copy_len)
}

} // verus!
