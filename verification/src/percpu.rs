//! The per-CPU block: what each CPU keeps for the syscall entry path.
use vstd::prelude::*;

verus! {

/// One CPU's block. The syscall entry saves the user stack and return
/// address here and switches to `syscall_stack_top`.
pub struct PerCpu {
    pub self_ptr: u64,
    pub syscall_stack_top: u64,
    pub user_rsp_scratch: u64,
    pub user_rip_scratch: u64,
    pub cpu_id: u32,
    pub tss_ptr: u64,
}

/// The block for the CPU `cpu_id`, whose TSS is at `tss_ptr`; its own
/// address is filled in once it has one.
pub fn init_this_cpu(cpu_id: u32, tss_ptr: u64) -> (r: PerCpu)
    ensures
        r.cpu_id == cpu_id,
        r.tss_ptr == tss_ptr,
        r.self_ptr == 0,
        r.syscall_stack_top == 0,
        r.user_rsp_scratch == 0,
        r.user_rip_scratch == 0,
{
    PerCpu {
        self_ptr: 0,
        syscall_stack_top: 0,
        user_rsp_scratch: 0,
        user_rip_scratch: 0,
        cpu_id,
        tss_ptr,
    }
}

/// The CPU's identity (its APIC id).
pub fn cpu_id(block: &PerCpu) -> (r: u32)
    ensures
        r == block.cpu_id,
{
    block.cpu_id
}

/// Sets the kernel stack the next syscall runs on; nothing else changes.
pub fn set_syscall_stack_top(block: &mut PerCpu, top: u64)
    ensures
        *final(block) == (PerCpu { syscall_stack_top: top, ..*old(block) }),
{
    block.syscall_stack_top = top;
}

/// The address of the CPU's task-state segment.
pub fn tss_ptr(block: &PerCpu) -> (r: u64)
    ensures
        r == block.tss_ptr,
{
    block.tss_ptr
}

/// The user instruction pointer the last syscall came from.
pub fn user_rip_scratch(block: &PerCpu) -> (r: u64)
    ensures
        r == block.user_rip_scratch,
{
    block.user_rip_scratch
}

/// The user stack pointer the last syscall came from.
pub fn user_rsp_scratch(block: &PerCpu) -> (r: u64)
    ensures
        r == block.user_rsp_scratch,
{
    block.user_rsp_scratch
}

} // verus!
