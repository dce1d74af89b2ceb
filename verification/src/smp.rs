//! Starting the application processors and talking to the local APIC: which
//! processors get started and which register writes do it.
use vstd::prelude::*;

verus! {

/// Where the application processors' real-mode start code is placed.
pub const TRAMPOLINE_PHYS: u64 = 0x8000;

/// The most CPUs the kernel runs on.
pub const MAX_CPUS: usize = 8;

pub const LAPIC_ID: u32 = 0x020;

pub const LAPIC_EOI: u32 = 0x0B0;

pub const LAPIC_ICR_LOW: u32 = 0x300;

pub const LAPIC_ICR_HIGH: u32 = 0x310;

pub const LAPIC_TIMER_LVT: u32 = 0x320;

pub const LAPIC_TIMER_INITIAL_COUNT: u32 = 0x380;

pub const LAPIC_TIMER_DIVIDE_CONFIG: u32 = 0x3E0;

pub const ICR_DELIVERY_INIT: u32 = 0x500;

pub const ICR_DELIVERY_STARTUP: u32 = 0x600;

pub const ICR_DELIVERY_NMI: u32 = 0x400;

pub const ICR_LEVEL_ASSERT: u32 = 0x4000;

pub const ICR_DEST_ALL_EXCLUDING_SELF: u32 = 0xC_0000;

/// The delivery-status bit of the interrupt command register: set while an
/// IPI is still being sent.
pub const ICR_DELIVERY_STATUS_PENDING: u32 = 0x1000;

pub const LAPIC_TIMER_VECTOR: u8 = 0x40;

pub const LAPIC_TIMER_PERIODIC: u32 = 0x2_0000;

/// The local APIC, once its registers are mapped (`virt` is 0 before).
pub struct Lapic {
    pub virt: u64,
}

/// The boot processor's APIC id, from what `cpuid` leaf 1 puts in `ebx`.
pub fn initial_apic_id(ebx: u32) -> (r: u32)
    ensures
        r == ebx / 0x100_0000,
{
    let r = ebx >> 24u32;
    assert(r == ebx / 0x100_0000) by (bit_vector)
        requires
            r == ebx >> 24u32,
    ;
    r
}

/// Whether the local APIC's registers are mapped.
pub fn lapic_prepared(lapic: &Lapic) -> (r: bool)
    ensures
        r == (lapic.virt != 0),
{
    lapic.virt != 0
}

/// The register write that stops every other CPU (an NMI to all but this
/// one); nothing before the local APIC is mapped.
pub fn halt_other_cores(lapic: &Lapic) -> (r: Option<(u32, u32)>)
    ensures
        r == (if lapic.virt != 0 {
            Some((LAPIC_ICR_LOW, 0xC_4400u32))
        } else {
            None::<(u32, u32)>
        }),
{
    if !lapic_prepared(lapic) {
        return None;
    }
    let value = ICR_DEST_ALL_EXCLUDING_SELF | ICR_DELIVERY_NMI | ICR_LEVEL_ASSERT;
    assert(value == 0xC_4400u32) by (bit_vector)
        requires
            value == 0xC_0000u32 | 0x400u32 | 0x4000u32,
    ;
    Some((LAPIC_ICR_LOW, value))
}

/// The register write that acknowledges an interrupt.
pub fn lapic_eoi() -> (r: (u32, u32))
    ensures
        r == (LAPIC_EOI, 0u32),
{
    (LAPIC_EOI, 0)
}

/// An APIC id from the value of the local APIC's id register.
pub fn apic_id_of(id_register: u32) -> (r: u8)
    ensures
        r == id_register / 0x100_0000,
{
    let r = id_register >> 24u32;
    assert(r == id_register / 0x100_0000 && r < 256) by (bit_vector)
        requires
            r == id_register >> 24u32,
    ;
    r as u8
}

/// The processors to start: those the MADT lists, in order, except the
/// boot processor. None when there is no local APIC or at most one
/// processor is listed.
pub fn ap_targets(local_apic: Option<u64>, ids: &[u8], bsp_id: u8) -> (r: Vec<u8>)
    ensures
        local_apic is None || ids@.len() <= 1 ==> r@.len() == 0,
        local_apic is Some && ids@.len() > 1 ==> r@ == ids@.filter(|id: u8| id != bsp_id),
{
    let mut r: Vec<u8> = Vec::new();
    if local_apic.is_none() || ids.len() <= 1 {
        return r;
    }
    let mut i: usize = 0;
    while i < ids.len()
        invariant
            i <= ids@.len(),
            r@ == ids@.take(i as int).filter(|id: u8| id != bsp_id),
        decreases ids@.len() - i,
    {
        proof {
            reveal(Seq::filter);
            assert(ids@.take(i + 1).drop_last() =~= ids@.take(i as int));
            assert(ids@.take(i + 1).last() == ids@[i as int]);
        }
        if ids[i] != bsp_id {
            r.push(ids[i]);
        }
        i = i + 1;
    }
    assert(ids@.take(ids@.len() as int) =~= ids@);
    r
}

/// The start-up vector: the page number of the trampoline.
pub fn sipi_vector() -> (r: u32)
    ensures
        r == TRAMPOLINE_PHYS / 4096,
{
    let v = TRAMPOLINE_PHYS >> 12u64;
    assert(v == 8) by (bit_vector)
        requires
            v == 0x8000u64 >> 12u64,
    ;
    v as u32
}

/// The high half of the interrupt command register addressing `apic_id`.
pub open spec fn icr_high(apic_id: u8) -> u32 {
    ((apic_id as u32) * 0x100_0000) as u32
}

/// The INIT-SIPI-SIPI sequence that starts the processor `apic_id`: the
/// values for the high and low halves of the interrupt command register,
/// in the order they are sent.
pub fn startup_ipis(apic_id: u8) -> (r: [(u32, u32); 4])
    ensures
        r@ == seq![
            (icr_high(apic_id), ICR_DELIVERY_INIT | ICR_LEVEL_ASSERT),
            (icr_high(apic_id), ICR_DELIVERY_INIT),
            (icr_high(apic_id), ICR_DELIVERY_STARTUP | 8u32),
            (icr_high(apic_id), ICR_DELIVERY_STARTUP | 8u32),
        ],
{
    let high = (apic_id as u32) << 24u32;
    assert(high == ((apic_id as u32) * 0x100_0000) as u32) by (bit_vector)
        requires
            high == (apic_id as u32) << 24u32,
    ;
    let vector = sipi_vector();
    let r = [
        (high, ICR_DELIVERY_INIT | ICR_LEVEL_ASSERT),
        (high, ICR_DELIVERY_INIT),
        (high, ICR_DELIVERY_STARTUP | vector),
        (high, ICR_DELIVERY_STARTUP | vector),
    ];
    assert(r@ =~= seq![
        (icr_high(apic_id), ICR_DELIVERY_INIT | ICR_LEVEL_ASSERT),
        (icr_high(apic_id), ICR_DELIVERY_INIT),
        (icr_high(apic_id), ICR_DELIVERY_STARTUP | 8u32),
        (icr_high(apic_id), ICR_DELIVERY_STARTUP | 8u32),
    ]);
    r
}

/// Whether an IPI has left: the delivery-status bit is clear.
pub fn ipi_delivered(icr_low: u32) -> (r: bool)
    ensures
        r == (icr_low & ICR_DELIVERY_STATUS_PENDING == 0),
{
    icr_low & ICR_DELIVERY_STATUS_PENDING == 0
}

/// The register writes that start the local APIC timer: divide by 1,
/// periodic on `LAPIC_TIMER_VECTOR`, ten million counts per period.
pub fn lapic_timer_setup() -> (r: [(u32, u32); 3])
    ensures
        r@ == seq![
            (LAPIC_TIMER_DIVIDE_CONFIG, 0b1011u32),
            (LAPIC_TIMER_LVT, LAPIC_TIMER_PERIODIC | 0x40u32),
            (LAPIC_TIMER_INITIAL_COUNT, 10_000_000u32),
        ],
{
    let r = [
        (LAPIC_TIMER_DIVIDE_CONFIG, 0b1011u32),
        (LAPIC_TIMER_LVT, LAPIC_TIMER_PERIODIC | (LAPIC_TIMER_VECTOR as u32)),
        (LAPIC_TIMER_INITIAL_COUNT, 10_000_000u32),
    ];
    assert(r@ =~= seq![
        (LAPIC_TIMER_DIVIDE_CONFIG, 0b1011u32),
        (LAPIC_TIMER_LVT, LAPIC_TIMER_PERIODIC | 0x40u32),
        (LAPIC_TIMER_INITIAL_COUNT, 10_000_000u32),
    ]);
    r
}

} // verus!
