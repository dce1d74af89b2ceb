//! Entering user mode: the built-in ring-3 demo program, where it is put,
//! and the checks on what a process may touch.
use vstd::prelude::*;
use crate::memory::AddressSpace;
use crate::scheduler::{Scheduler, TaskEntry, wf, slot, take_current_fork_resume};

verus! {

/// Where the demo program's code is placed.
pub const USER_CODE_ADDR: u64 = 0x5555_5555_0000;

/// The top of the demo program's stack.
pub const USER_STACK_TOP: u64 = 0x6666_6666_0000;

/// The demo program: three times, write "Hello from ring 3!\n" to stdout and
/// sleep 100 ticks; then exit with code 0.
pub const USER_PROGRAM: [u8; 74] = [
    0xBB, 0x03, 0x00, 0x00, 0x00, 0xB8, 0x01, 0x00, 0x00, 0x00, 0xBF, 0x01, 0x00, 0x00, 0x00, 0x48,
    0x8D, 0x35, 0x21, 0x00, 0x00, 0x00, 0xBA, 0x13, 0x00, 0x00, 0x00, 0x0F, 0x05, 0xB8, 0x04, 0x00,
    0x00, 0x00, 0xBF, 0x64, 0x00, 0x00, 0x00, 0x0F, 0x05, 0xFF, 0xCB, 0x75, 0xD8, 0xFA, 0xB8, 0x02,
    0x00, 0x00, 0x00, 0x31, 0xFF, 0x0F, 0x05, 0x48, 0x65, 0x6C, 0x6C, 0x6F, 0x20, 0x66, 0x72, 0x6F,
    0x6D, 0x20, 0x72, 0x69, 0x6E, 0x67, 0x20, 0x33, 0x21, 0x0A,
];

/// The page holding `addr`.
pub open spec fn page_of(addr: u64) -> u64 {
    (addr - addr % 4096) as u64
}

/// The page holding `addr`.
pub fn page_containing(addr: u64) -> (r: u64)
    ensures
        r == page_of(addr),
        r % 4096 == 0,
{
    addr - addr % 4096
}

/// Whether the running process may touch `start..end`: it has an address
/// space and one of its registered ranges holds the whole range.
pub fn user_region_contains(space: &Option<AddressSpace>, start: u64, end: u64) -> (r: bool)
    ensures
        r == (match space {
            Some(s) => exists|i: int|
                0 <= i < s.regions@.len() && start >= (#[trigger] s.regions@[i]).0 && end
                    <= s.regions@[i].1,
            None => false,
        }),
{
    match space {
        Some(s) => s.contains(start, end),
        None => false,
    }
}

/// How the demo process is set up: the pages to map, the ranges it may
/// touch, where its code goes, and where it starts.
pub struct LaunchPlan {
    pub code_page: u64,
    pub code_region: (u64, u64),
    pub stack_page: u64,
    pub stack_region: (u64, u64),
    pub program: [u8; 74],
    pub entry: u64,
    pub user_stack: u64,
}

/// The demo process: its code page at `USER_CODE_ADDR` (which may touch up
/// to the stack top), one stack page below `USER_STACK_TOP`, the program
/// copied to `USER_CODE_ADDR`, and a start there with the 16-byte-aligned
/// stack top.
pub fn launch() -> (r: LaunchPlan)
    ensures
        r.code_page == page_of(USER_CODE_ADDR),
        r.code_region == (USER_CODE_ADDR, USER_STACK_TOP),
        r.stack_page == page_of((USER_STACK_TOP - 1) as u64),
        r.stack_region == ((USER_STACK_TOP - 4096) as u64, USER_STACK_TOP),
        r.program == USER_PROGRAM,
        r.entry == USER_CODE_ADDR,
        r.user_stack == USER_STACK_TOP - USER_STACK_TOP % 16,
{
    let code_page = page_containing(USER_CODE_ADDR);
    let stack_page = page_containing(USER_STACK_TOP - 1);
    LaunchPlan {
        code_page,
        code_region: (USER_CODE_ADDR, USER_STACK_TOP),
        stack_page,
        stack_region: (USER_STACK_TOP - 4096, USER_STACK_TOP),
        program: USER_PROGRAM,
        entry: USER_CODE_ADDR,
        user_stack: USER_STACK_TOP - USER_STACK_TOP % 16,
    }
}

/// Where a forked child enters user mode: the instruction and stack pointer
/// its parent's `fork` left, taken from the running task once.
pub fn fork_child_entry(s: &mut Scheduler, cpu_id: u32) -> (r: (u64, u64))
    requires
        wf(*old(s)),
        old(s).current@[slot(cpu_id)] is Some,
        old(s).current@[slot(cpu_id)]->0.fork_resume is Some,
    ensures
        r == old(s).current@[slot(cpu_id)]->0.fork_resume->0,
        final(s).current@ == old(s).current@.update(
            slot(cpu_id),
            Some(TaskEntry { fork_resume: None, ..old(s).current@[slot(cpu_id)]->0 }),
        ),
        final(s).ready@ == old(s).ready@,
        wf(*final(s)),
{
    match take_current_fork_resume(s, cpu_id) {
        Some(r) => r,
        None => {
            assert(false);
            (0, 0)
        },
    }
}

/// The interrupt-return frame that enters user mode at `entry` with stack
/// `user_stack`, interrupts on, as it lies on the stack from the top down:
/// stack segment, stack pointer, flags, code segment, instruction pointer.
pub fn ring3_frame(entry: u64, user_stack: u64, user_cs: u16, user_ss: u16) -> (r: [u64; 5])
    ensures
        r@ == seq![user_ss as u64, user_stack, 0x202u64, user_cs as u64, entry],
{
    let r = [user_ss as u64, user_stack, 0x202u64, user_cs as u64, entry];
    assert(r@ =~= seq![user_ss as u64, user_stack, 0x202u64, user_cs as u64, entry]);
    r
}

} // verus!
