//! Task identities and states.
use vstd::prelude::*;

verus! {

/// What a task waits for: nothing, or the tick at which it wakes.
#[derive(Debug, Clone, Copy, PartialEq, Eq, Structural)]
pub enum TaskState {
    Ready,
    Blocked(u64),
}

/// The counter task identities are drawn from. Identity 0 is the boot
/// task's; the counter starts at 1.
pub struct TaskIds {
    pub next: u64,
}

impl TaskIds {
    /// A fresh counter: the first identity it hands out is 1.
    pub fn new() -> (r: Self)
        ensures
            r.next == 1,
    {
        TaskIds { next: 1 }
    }
}

/// Hands out the next task identity; the counter wraps around at `u64::MAX`.
pub fn next_id(ids: &mut TaskIds) -> (id: u64)
    ensures
        id == old(ids).next,
        final(ids).next == (if old(ids).next == u64::MAX {
            0
        } else {
            old(ids).next + 1
        }),
{
    let id = ids.next;
    ids.next = ids.next.wrapping_add(1);
    id
}

} // verus!
