//! The system call interface: numbers, argument checks and the decisions
//! each call takes.
use vstd::prelude::*;
use crate::memory::AddressSpace;
use crate::usermode::user_region_contains;

verus! {

pub const SYS_WRITE: u64 = 1;

pub const SYS_EXIT: u64 = 2;

pub const SYS_GETPID: u64 = 3;

pub const SYS_SLEEP: u64 = 4;

pub const SYS_READ: u64 = 5;

pub const SYS_MMAP: u64 = 6;

pub const SYS_WAIT: u64 = 7;

pub const SYS_KILL: u64 = 8;

pub const SYS_FORK: u64 = 9;

pub const SYS_EXEC: u64 = 10;

/// The result of a call that does not exist or cannot be done.
pub const ENOSYS: u64 = u64::MAX;

/// The result of a call given memory outside the process.
pub const EFAULT: u64 = 0xFFFF_FFFF_FFFF_FFFE;

pub const FD_STDIN: u64 = 0;

pub const FD_STDOUT: u64 = 1;

pub const FD_PIPE_READ: u64 = 3;

pub const FD_PIPE_WRITE: u64 = 4;

/// A system call with its arguments.
#[derive(Debug, Clone, Copy, PartialEq, Eq, Structural)]
pub enum Syscall {
    Write { fd: u64, ptr: u64, len: u64 },
    Exit { code: u64 },
    GetPid,
    Sleep { ticks: u64 },
    Read { fd: u64, ptr: u64, len: u64 },
    Mmap,
    Wait { child: u64 },
    Kill { target: u64 },
    Fork,
    Exec { program: u64 },
    Unknown,
}

/// The call a syscall number and its first three arguments make.
pub fn syscall_dispatch(nr: u64, arg1: u64, arg2: u64, arg3: u64) -> (r: Syscall)
    ensures
        r == (if nr == SYS_WRITE {
            Syscall::Write { fd: arg1, ptr: arg2, len: arg3 }
        } else if nr == SYS_EXIT {
            Syscall::Exit { code: arg1 }
        } else if nr == SYS_GETPID {
            Syscall::GetPid
        } else if nr == SYS_SLEEP {
            Syscall::Sleep { ticks: arg1 }
        } else if nr == SYS_READ {
            Syscall::Read { fd: arg1, ptr: arg2, len: arg3 }
        } else if nr == SYS_MMAP {
            Syscall::Mmap
        } else if nr == SYS_WAIT {
            Syscall::Wait { child: arg1 }
        } else if nr == SYS_KILL {
            Syscall::Kill { target: arg1 }
        } else if nr == SYS_FORK {
            Syscall::Fork
        } else if nr == SYS_EXEC {
            Syscall::Exec { program: arg1 }
        } else {
            Syscall::Unknown
        }),
{
    if nr == SYS_WRITE {
        Syscall::Write { fd: arg1, ptr: arg2, len: arg3 }
    } else if nr == SYS_EXIT {
        Syscall::Exit { code: arg1 }
    } else if nr == SYS_GETPID {
        Syscall::GetPid
    } else if nr == SYS_SLEEP {
        Syscall::Sleep { ticks: arg1 }
    } else if nr == SYS_READ {
        Syscall::Read { fd: arg1, ptr: arg2, len: arg3 }
    } else if nr == SYS_MMAP {
        Syscall::Mmap
    } else if nr == SYS_WAIT {
        Syscall::Wait { child: arg1 }
    } else if nr == SYS_KILL {
        Syscall::Kill { target: arg1 }
    } else if nr == SYS_FORK {
        Syscall::Fork
    } else if nr == SYS_EXEC {
        Syscall::Exec { program: arg1 }
    } else {
        Syscall::Unknown
    }
}

/// Whether the process may hand the kernel `len` bytes at `ptr`: the range
/// does not wrap around and lies within one of its registered ranges.
pub fn user_range_is_valid(space: &Option<AddressSpace>, ptr: u64, len: u64) -> (r: bool)
    ensures
        r == (ptr + len <= u64::MAX && match space {
            Some(s) => exists|i: int|
                0 <= i < s.regions@.len() && ptr >= (#[trigger] s.regions@[i]).0 && ptr + len
                    <= s.regions@[i].1,
            None => false,
        }),
{
    match ptr.checked_add(len) {
        Some(end) => user_region_contains(space, ptr, end),
        None => false,
    }
}

/// Where a write or read on a descriptor goes.
#[derive(Debug, Clone, Copy, PartialEq, Eq, Structural)]
pub enum Stream {
    Console,
    Pipe,
}

/// The stream `write` sends to on `fd`: the console for stdout, the pipe
/// for its write end; none otherwise.
pub fn write_target(fd: u64) -> (r: Option<Stream>)
    ensures
        r == (if fd == FD_STDOUT {
            Some(Stream::Console)
        } else if fd == FD_PIPE_WRITE {
            Some(Stream::Pipe)
        } else {
            None::<Stream>
        }),
{
    if fd == FD_STDOUT {
        Some(Stream::Console)
    } else if fd == FD_PIPE_WRITE {
        Some(Stream::Pipe)
    } else {
        None
    }
}

/// The stream `read` takes from on `fd`: the keyboard for stdin, the pipe
/// for its read end; none otherwise.
pub fn read_source(fd: u64) -> (r: Option<Stream>)
    ensures
        r == (if fd == FD_STDIN {
            Some(Stream::Console)
        } else if fd == FD_PIPE_READ {
            Some(Stream::Pipe)
        } else {
            None::<Stream>
        }),
{
    if fd == FD_STDIN {
        Some(Stream::Console)
    } else if fd == FD_PIPE_READ {
        Some(Stream::Pipe)
    } else {
        None
    }
}

/// What reading stdin does with the next key, if there is one.
#[derive(Debug, Clone, Copy, PartialEq, Eq, Structural)]
pub enum StdinStep {
    /// Store this byte and go on.
    Store(u8),
    /// Store this byte (a newline) and return.
    StoreAndFinish(u8),
    /// Skip a character that is not ASCII.
    Skip,
    /// No key waiting and something was read: return.
    Finish,
    /// No key waiting and nothing read yet: let other tasks run, then retry.
    Yield,
}

/// The decision for the next key of a stdin read that has stored `n` bytes.
pub fn stdin_step(key: Option<char>, n: usize) -> (r: StdinStep)
    ensures
        r == (match key {
            Some(c) => if (c as u32) < 0x80 {
                if c == '\n' {
                    StdinStep::StoreAndFinish(c as u8)
                } else {
                    StdinStep::Store(c as u8)
                }
            } else {
                StdinStep::Skip
            },
            None => if n > 0 {
                StdinStep::Finish
            } else {
                StdinStep::Yield
            },
        }),
{
    match key {
        Some(c) => {
            if (c as u32) < 0x80 {
                if c == '\n' {
                    StdinStep::StoreAndFinish(c as u8)
                } else {
                    StdinStep::Store(c as u8)
                }
            } else {
                StdinStep::Skip
            }
        },
        None => {
            if n > 0 {
                StdinStep::Finish
            } else {
                StdinStep::Yield
            }
        },
    }
}

/// The programs `exec` can start, by id: the initrd name (as bytes) and the
/// stack top it runs with.
pub fn exec_program(program_id: u64) -> (r: Option<(&'static str, u64)>)
    ensures
        program_id == 0 ==> (r matches Some(p) && p.0@ == "init"@ && p.1
            == crate::loader::INIT_STACK_TOP),
        program_id == 1 ==> (r matches Some(p) && p.0@ == "producer"@ && p.1
            == crate::loader::PRODUCER_STACK_TOP),
        program_id == 2 ==> (r matches Some(p) && p.0@ == "consumer"@ && p.1
            == crate::loader::CONSUMER_STACK_TOP),
        program_id > 2 ==> r is None,
{
    if program_id == 0 {
        Some(("init", crate::loader::INIT_STACK_TOP))
    } else if program_id == 1 {
        Some(("producer", crate::loader::PRODUCER_STACK_TOP))
    } else if program_id == 2 {
        Some(("consumer", crate::loader::CONSUMER_STACK_TOP))
    } else {
        None
    }
}

/// The result `kill` returns: 1 when the task was killed, 0 otherwise.
pub fn kill_result(killed: bool) -> (r: u64)
    ensures
        r == (if killed {
            1u64
        } else {
            0u64
        }),
{
    if killed {
        1
    } else {
        0
    }
}

} // verus!
