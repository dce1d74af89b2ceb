//! PCI configuration space through the legacy I/O mechanism: the address
//! the kernel selects for a register, and what it makes of the value read.
//!
//! Reads are done by `read`, a function from the configuration address
//! (written to port 0xCF8) to the 32-bit value then read from port 0xCFC.
use vstd::prelude::*;

verus! {

/// A function on bus 0..255, device 0..31, function 0..7.
#[derive(Debug, Clone, Copy, PartialEq, Eq, Structural)]
pub struct PciDevice {
    pub bus: u8,
    pub device: u8,
    pub function: u8,
}

/// The configuration address of the 32-bit register holding `offset`.
pub open spec fn config_address(bus: u8, device: u8, function: u8, offset: u8) -> u32 {
    0x8000_0000u32 | ((bus as u32) << 16u32) | ((device as u32) << 11u32) | ((function as u32)
        << 8u32) | ((offset & 0xFCu8) as u32)
}

/// The 16-bit field at `offset` within the 32-bit register value `v`.
pub open spec fn field16(v: u32, offset: u8) -> u16 {
    (v >> ((((offset & 2u8) as u32) * 8) as u32)) as u16
}

/// `read` can return `v` for the register holding `offset` of `dev`.
pub open spec fn reads<F: Fn(u32) -> u32>(read: &F, dev: PciDevice, offset: u8, v: u32) -> bool {
    call_ensures(*read, (config_address(dev.bus, dev.device, dev.function, offset),), v)
}

/// `read` may be called on any address.
pub open spec fn reads_anywhere<F: Fn(u32) -> u32>(read: &F) -> bool {
    forall|a: u32| call_requires(*read, (a,))
}

impl PciDevice {
    /// The configuration address of the register holding `offset`.
    pub fn address(&self, offset: u8) -> (r: u32)
        ensures
            r == config_address(self.bus, self.device, self.function, offset),
    {
        0x8000_0000u32 | ((self.bus as u32) << 16u32) | ((self.device as u32) << 11u32) | ((
        self.function as u32) << 8u32) | ((offset & 0xFC) as u32)
    }

    /// The 16-bit register at `offset`.
    pub fn read_u16<F: Fn(u32) -> u32>(&self, read: &F, offset: u8) -> (r: u16)
        requires
            reads_anywhere(read),
        ensures
            exists|v: u32| reads(read, *self, offset, v) && r == field16(v, offset),
    {
        let v = read(self.address(offset));
        let bit = (offset & 2) as u32;
        assert(bit <= 2) by (bit_vector)
            requires
                bit == (offset & 2u8) as u32,
        ;
        let shift = bit * 8;
        let r = (v >> shift) as u16;
        assert(reads(read, *self, offset, v));
        assert(r == field16(v, offset));
        r
    }

    /// The vendor id, at offset 0.
    pub fn vendor_id<F: Fn(u32) -> u32>(&self, read: &F) -> (r: u16)
        requires
            reads_anywhere(read),
        ensures
            exists|v: u32| reads(read, *self, 0, v) && r == v as u16,
    {
        let r = self.read_u16(read, 0x00);
        proof {
            let v = choose|v: u32| reads(read, *self, 0, v) && r == field16(v, 0);
            assert(field16(v, 0) == v as u16) by (bit_vector);
        }
        r
    }

    /// The device id, at offset 2.
    pub fn device_id<F: Fn(u32) -> u32>(&self, read: &F) -> (r: u16)
        requires
            reads_anywhere(read),
        ensures
            exists|v: u32| reads(read, *self, 2, v) && r == (v >> 16u32) as u16,
    {
        let r = self.read_u16(read, 0x02);
        proof {
            let v = choose|v: u32| reads(read, *self, 2, v) && r == field16(v, 2);
            assert(field16(v, 2) == (v >> 16u32) as u16) by (bit_vector);
        }
        r
    }

    /// Turns on bus mastering and I/O space: the address of the command
    /// register and the value to write there, the command read with bits 0
    /// and 2 set.
    pub fn enable_bus_mastering_and_io<F: Fn(u32) -> u32>(&self, read: &F) -> (r: (u32, u32))
        requires
            reads_anywhere(read),
        ensures
            r.0 == config_address(self.bus, self.device, self.function, 0x04),
            exists|v: u32| reads(read, *self, 0x04, v) && r.1 == v | 0x5u32,
    {
        let addr = self.address(0x04);
        let command = read(addr);
        assert(reads(read, *self, 0x04, command));
        let value = command | 0x1 | 0x4;
        assert(value == command | 0x5u32) by (bit_vector)
            requires
                value == command | 0x1u32 | 0x4u32,
        ;
        (addr, value)
    }

    /// The I/O port base of base address register `bar_index`, or `None` when
    /// that register maps memory rather than ports.
    pub fn io_bar<F: Fn(u32) -> u32>(&self, read: &F, bar_index: u8) -> (r: Option<u16>)
        requires
            reads_anywhere(read),
            bar_index <= 59,
        ensures
            exists|v: u32|
                reads(read, *self, (0x10 + bar_index * 4) as u8, v) && r == (if v & 1 == 0 {
                    None
                } else {
                    Some((v & 0xFFFCu32) as u16)
                }),
    {
        let offset: u8 = 0x10 + bar_index * 4;
        let raw = read(self.address(offset));
        assert(reads(read, *self, offset, raw));
        if raw & 0x1 == 0 {
            return None;
        }
        Some((raw & 0xFFFC) as u16)
    }
}

/// The value `v` read from a function's first register shows a present
/// function with these vendor and device ids.
pub open spec fn probe_matches(v: u32, vendor_id: u16, device_id: u16) -> bool {
    &&& v as u16 != 0xFFFFu16
    &&& v as u16 == vendor_id
    &&& (v >> 16u32) as u16 == device_id
}

/// Bus 0, device `slot / 8`, function `slot % 8`.
pub open spec fn slot_device(slot: int) -> PciDevice {
    PciDevice { bus: 0, device: (slot / 8) as u8, function: (slot % 8) as u8 }
}

/// Probing slot `slot` can give a value that does not match.
pub open spec fn probed_miss<F: Fn(u32) -> u32>(
    read: &F,
    slot: int,
    vendor_id: u16,
    device_id: u16,
) -> bool {
    exists|v: u32| reads(read, slot_device(slot), 0, v) && !probe_matches(v, vendor_id, device_id)
}

/// Scans bus 0, device by device and function by function, for the first
/// function with these vendor and device ids.
pub fn find_device<F: Fn(u32) -> u32>(vendor_id: u16, device_id: u16, read: &F) -> (r: Option<
    PciDevice,
>)
    requires
        reads_anywhere(read),
    ensures
        match r {
            Some(d) => {
                &&& d.bus == 0 && d.device < 32 && d.function < 8
                &&& d == slot_device(d.device * 8 + d.function)
                &&& exists|v: u32| reads(read, d, 0, v) && probe_matches(v, vendor_id, device_id)
                &&& forall|s: int|
                    0 <= s < d.device * 8 + d.function ==> #[trigger] probed_miss(
                        read,
                        s,
                        vendor_id,
                        device_id,
                    )
            },
            None => forall|s: int|
                0 <= s < 256 ==> #[trigger] probed_miss(read, s, vendor_id, device_id),
        },
{
    let mut slot: u16 = 0;
    while slot < 256
        invariant
            slot <= 256,
            reads_anywhere(read),
            forall|s: int| 0 <= s < slot ==> #[trigger] probed_miss(read, s, vendor_id, device_id),
        decreases 256 - slot,
    {
        let dev = PciDevice { bus: 0, device: (slot / 8) as u8, function: (slot % 8) as u8 };
        assert(dev == slot_device(slot as int));
        let v = read(dev.address(0));
        assert(reads(read, dev, 0, v));
        let vendor = v as u16;
        let device = (v >> 16u32) as u16;
        if vendor != 0xFFFF && vendor == vendor_id && device == device_id {
            assert(dev.device * 8 + dev.function == slot);
            assert(probe_matches(v, vendor_id, device_id));
            return Some(dev);
        }
        assert(!probe_matches(v, vendor_id, device_id));
        assert(probed_miss(read, slot as int, vendor_id, device_id));
        slot = slot + 1;
    }
    None
}

} // verus!
