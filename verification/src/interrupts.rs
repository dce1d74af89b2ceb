//! The interrupt vectors and which handler each one gets.
use vstd::prelude::*;

verus! {

/// The first vector of the primary PIC.
pub const PIC_1_OFFSET: u8 = 32;

/// The first vector of the secondary PIC.
pub const PIC_2_OFFSET: u8 = 40;

/// The local APIC timer's vector.
pub const LAPIC_TIMER_VECTOR: u8 = 0x40;

/// The hardware interrupts the kernel handles, by PIC line.
#[derive(Debug, Clone, Copy, PartialEq, Eq, Structural)]
pub enum InterruptIndex {
    Timer,
    Keyboard,
}

impl InterruptIndex {
    /// The interrupt's vector: the PIC's first vector plus its line.
    pub fn as_u8(self) -> (r: u8)
        ensures
            r == match self {
                InterruptIndex::Timer => PIC_1_OFFSET,
                InterruptIndex::Keyboard => (PIC_1_OFFSET + 1) as u8,
            },
    {
        match self {
            InterruptIndex::Timer => PIC_1_OFFSET,
            InterruptIndex::Keyboard => PIC_1_OFFSET + 1,
        }
    }
}

/// What runs on a hardware interrupt vector.
#[derive(Debug, Clone, Copy, PartialEq, Eq, Structural)]
pub enum Handler {
    Timer,
    Keyboard,
    LapicTimer,
    Spurious,
}

/// The handler the interrupt table gives `vector`, if any: the timer and
/// keyboard lines, the local APIC timer, and a handler that logs for every
/// other line of the two PICs.
pub open spec fn handler_for(vector: u8) -> Option<Handler> {
    if vector == PIC_1_OFFSET {
        Some(Handler::Timer)
    } else if vector == PIC_1_OFFSET + 1 {
        Some(Handler::Keyboard)
    } else if vector == LAPIC_TIMER_VECTOR {
        Some(Handler::LapicTimer)
    } else if PIC_1_OFFSET <= vector <= PIC_2_OFFSET + 7 {
        Some(Handler::Spurious)
    } else {
        None
    }
}

/// Some entry of `table` is for `vector`.
pub open spec fn installed(table: Seq<(u8, Handler)>, vector: u8) -> bool {
    exists|i: int| 0 <= i < table.len() && table[i].0 == vector
}

/// The hardware-interrupt entries of the interrupt table, in the order they
/// are installed: each vector that gets a handler, once, with that handler.
pub fn init_idt() -> (r: Vec<(u8, Handler)>)
    ensures
        forall|i: int| 0 <= i < r@.len() ==> handler_for(#[trigger] r@[i].0) == Some(r@[i].1),
        forall|v: u8| #[trigger] handler_for(v) is Some ==> installed(r@, v),
        forall|i: int, j: int| 0 <= i < j < r@.len() ==> r@[i].0 != r@[j].0,
{
    let mut r: Vec<(u8, Handler)> = Vec::new();
    r.push((InterruptIndex::Timer.as_u8(), Handler::Timer));
    r.push((InterruptIndex::Keyboard.as_u8(), Handler::Keyboard));
    r.push((LAPIC_TIMER_VECTOR, Handler::LapicTimer));
    let mut vector: u8 = PIC_1_OFFSET;
    while vector <= PIC_2_OFFSET + 7
        invariant
            PIC_1_OFFSET <= vector <= PIC_2_OFFSET + 8,
            r@.len() >= 3,
            r@[0].0 == PIC_1_OFFSET,
            r@[1].0 == PIC_1_OFFSET + 1,
            r@[2].0 == LAPIC_TIMER_VECTOR,
            forall|i: int| 0 <= i < r@.len() ==> handler_for(#[trigger] r@[i].0) == Some(r@[i].1),
            forall|i: int| 3 <= i < r@.len() ==> PIC_1_OFFSET + 2 <= #[trigger] r@[i].0 < vector,
            forall|v: u8| PIC_1_OFFSET + 2 <= v < vector ==> #[trigger] installed(r@, v),
            forall|i: int, j: int| 0 <= i < j < r@.len() ==> r@[i].0 != r@[j].0,
        decreases PIC_2_OFFSET + 8 - vector,
    {
        let ghost before = r@;
        if vector != InterruptIndex::Timer.as_u8() && vector != InterruptIndex::Keyboard.as_u8() {
            r.push((vector, Handler::Spurious));
            assert(r@[r@.len() - 1].0 == vector);
            assert forall|v: u8| installed(before, v) implies #[trigger] installed(r@, v) by {
                let i = choose|i: int| 0 <= i < before.len() && before[i].0 == v;
                assert(r@[i] == before[i]);
            }
        }
        vector = vector + 1;
    }
    assert forall|v: u8| #[trigger] handler_for(v) is Some implies installed(r@, v) by {
        if v == PIC_1_OFFSET {
            assert(r@[0].0 == v);
        } else if v == PIC_1_OFFSET + 1 {
            assert(r@[1].0 == v);
        } else if v == LAPIC_TIMER_VECTOR {
            assert(r@[2].0 == v);
        } else {
            assert(PIC_1_OFFSET + 2 <= v < vector);
        }
    }
    r
}

/// The hardware-interrupt entries of the table an application processor
/// loads: the very table the boot processor loaded.
pub fn load_idt_on_ap() -> (r: Vec<(u8, Handler)>)
    ensures
        forall|i: int| 0 <= i < r@.len() ==> handler_for(#[trigger] r@[i].0) == Some(r@[i].1),
        forall|v: u8| #[trigger] handler_for(v) is Some ==> installed(r@, v),
        forall|i: int, j: int| 0 <= i < j < r@.len() ==> r@[i].0 != r@[j].0,
{
    init_idt()
}

/// Whether an interrupted context ran in user mode: the privilege level in
/// the low bits of its code segment selector is 3.
pub fn is_user_mode(code_segment: u16) -> (r: bool)
    ensures
        r == (code_segment % 4 == 3),
{
    let r = code_segment & 0b11 == 3;
    assert((code_segment & 3) == code_segment % 4) by (bit_vector);
    r
}

/// The error-code bit of a page fault caused by a write.
pub const PF_CAUSED_BY_WRITE: u64 = 0x2;

/// Whether a page fault is worth a copy-on-write attempt: the faulting
/// access was a write.
pub fn fault_was_write(error_code: u64) -> (r: bool)
    ensures
        r == (error_code & PF_CAUSED_BY_WRITE != 0),
{
    error_code & PF_CAUSED_BY_WRITE != 0
}

/// What the kernel does about an exception it cannot simply return from.
#[derive(Debug, Clone, Copy, PartialEq, Eq, Structural)]
pub enum FaultOutcome {
    /// The fault was dealt with: return to the interrupted code.
    Resume,
    /// End the faulting user process, with exit code `KILLED`.
    KillProcess,
    /// The kernel itself faulted: stop with a panic.
    Panic,
}

/// After a page fault: resume when a copy-on-write fault was resolved;
/// otherwise end the process when user code faulted, and stop the kernel
/// when it faulted itself.
pub fn page_fault_outcome(cow_resolved: bool, code_segment: u16) -> (r: FaultOutcome)
    ensures
        r == (if cow_resolved {
            FaultOutcome::Resume
        } else if code_segment % 4 == 3 {
            FaultOutcome::KillProcess
        } else {
            FaultOutcome::Panic
        }),
{
    if cow_resolved {
        FaultOutcome::Resume
    } else if is_user_mode(code_segment) {
        FaultOutcome::KillProcess
    } else {
        FaultOutcome::Panic
    }
}

/// After a general protection fault: end a faulting user process, and stop
/// the kernel when it faulted itself.
pub fn protection_fault_outcome(code_segment: u16) -> (r: FaultOutcome)
    ensures
        r == (if code_segment % 4 == 3 {
            FaultOutcome::KillProcess
        } else {
            FaultOutcome::Panic
        }),
{
    if is_user_mode(code_segment) {
        FaultOutcome::KillProcess
    } else {
        FaultOutcome::Panic
    }
}

} // verus!
