pub mod acpi;
pub mod bytes;
pub mod devfs;
pub mod digits;
pub mod diskfs;
pub mod elf;
pub mod framebuffer;
pub mod initrd;
pub mod loader;
pub mod interrupts;
pub mod keyboard;
pub mod memory;
pub mod net;
pub mod pci;
pub mod percpu;
pub mod pipe;
pub mod runner;
pub mod scheduler;
pub mod shell;
pub mod smp;
pub mod syscall;
pub mod task;
pub mod tcp;
pub mod timer;
pub mod usb;
pub mod usermode;
pub mod virtio_blk;
pub mod virtio_net;
pub mod virtqueue;

use vstd::prelude::*;

verus! {

/// The codes the kernel's test runs exit QEMU with, through its debug-exit
/// port.
#[derive(Debug, Clone, Copy, PartialEq, Eq, Structural)]
pub enum QemuExitCode {
    Success,
    Failed,
}

impl QemuExitCode {
    /// The value written to the debug-exit port.
    pub fn code(self) -> (r: u32)
        ensures
            r == match self {
                QemuExitCode::Success => 0x10u32,
                QemuExitCode::Failed => 0x11u32,
            },
    {
        match self {
            QemuExitCode::Success => 0x10,
            QemuExitCode::Failed => 0x11,
        }
    }
}

} // verus!
