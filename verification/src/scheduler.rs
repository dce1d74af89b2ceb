//! The scheduler's bookkeeping: which task runs on each CPU, the ready
//! queue, and the exit codes of finished tasks until someone collects them.
//!
//! The context switch itself (saving and loading stack pointers, loading
//! CR3) happens outside; the functions here decide who runs next.
use vstd::prelude::*;
use crate::task::{TaskIds, TaskState, next_id};
use crate::smp::MAX_CPUS;

verus! {

/// The exit code a killed task gets.
pub const KILLED: u64 = u64::MAX;

/// The size of a spawned task's kernel stack.
pub const STACK_SIZE: u64 = 4096 * 16;

/// What the scheduler knows of a task.
#[derive(Debug, Clone, Copy)]
pub struct TaskEntry {
    pub id: u64,
    pub state: TaskState,
    /// The top of its kernel stack; 0 for a task running on a boot stack.
    pub stack_top: u64,
    /// The physical address of its own top-level page table, if it has an
    /// address space of its own.
    pub address_space: Option<u64>,
    /// Where a forked child resumes in user mode: instruction and stack pointer.
    pub fork_resume: Option<(u64, u64)>,
}

/// The running tasks (one slot per CPU), the ready queue, and the
/// `(id, exit code)` of finished tasks.
pub struct Scheduler {
    pub current: Vec<Option<TaskEntry>>,
    pub ready: Vec<TaskEntry>,
    pub zombies: Vec<(u64, u64)>,
    pub ids: TaskIds,
}

/// The slot of the CPU whose APIC id is `cpu_id`.
pub open spec fn slot(cpu_id: u32) -> int {
    cpu_id as int % MAX_CPUS as int
}

/// The task with its wake-up time reached made ready.
pub open spec fn wake_entry(t: TaskEntry, now: u64) -> TaskEntry {
    match t.state {
        TaskState::Blocked(w) => if now >= w {
            TaskEntry { state: TaskState::Ready, ..t }
        } else {
            t
        },
        TaskState::Ready => t,
    }
}

/// The ready queue after waking every task whose time has come.
pub open spec fn woken(ready: Seq<TaskEntry>, now: u64) -> Seq<TaskEntry> {
    Seq::new(ready.len(), |i: int| wake_entry(ready[i], now))
}

/// `i` is the first ready task of the queue.
pub open spec fn first_ready(q: Seq<TaskEntry>, i: int) -> bool {
    &&& 0 <= i < q.len()
    &&& q[i].state == TaskState::Ready
    &&& forall|j: int| 0 <= j < i ==> q[j].state != TaskState::Ready
}

/// No task of the queue is ready.
pub open spec fn none_ready(q: Seq<TaskEntry>) -> bool {
    forall|j: int| 0 <= j < q.len() ==> q[j].state != TaskState::Ready
}

/// The identities of the tasks that run or wait to run.
pub open spec fn live_ids(s: Scheduler) -> Set<u64> {
    Set::new(
        |id: u64|
            (exists|c: int|
                0 <= c < s.current@.len() && s.current@[c] is Some && s.current@[c]->0.id == id) || (
            exists|i: int| 0 <= i < s.ready@.len() && s.ready@[i].id == id),
    )
}

/// The scheduler's invariant: one slot per CPU, no identity twice among the
/// running and ready tasks, and every identity below the next one handed out
/// (the boot task's 0 included).
pub open spec fn wf(s: Scheduler) -> bool {
    &&& s.current@.len() == MAX_CPUS
    &&& forall|c: int, d: int|
        #![trigger s.current@[c], s.current@[d]]
        0 <= c < d < MAX_CPUS && s.current@[c] is Some && s.current@[d] is Some
            ==> s.current@[c]->0.id != s.current@[d]->0.id
    &&& forall|c: int, i: int|
        #![trigger s.current@[c], s.ready@[i]]
        0 <= c < MAX_CPUS && 0 <= i < s.ready@.len() && s.current@[c] is Some
            ==> s.current@[c]->0.id != s.ready@[i].id
    &&& forall|i: int, j: int|
        #![trigger s.ready@[i], s.ready@[j]]
        0 <= i < j < s.ready@.len() ==> s.ready@[i].id != s.ready@[j].id
    &&& forall|c: int|
        0 <= c < MAX_CPUS && #[trigger] s.current@[c] is Some ==> s.current@[c]->0.id
            < s.ids.next
    &&& forall|i: int| 0 <= i < s.ready@.len() ==> #[trigger] s.ready@[i].id < s.ids.next
}

/// The task switch `schedule` decided on this CPU.
pub struct Switch {
    /// The task that stops running; it goes to the back of the ready queue.
    pub from: u64,
    /// The task that runs now.
    pub to: TaskEntry,
    /// Where `to` stood in the ready queue.
    pub picked: usize,
}

impl Scheduler {
    /// No tasks yet.
    pub fn new() -> (r: Self)
        ensures
            wf(r),
            r.ready@.len() == 0,
            r.zombies@.len() == 0,
            r.ids.next == 1,
            forall|c: int| 0 <= c < MAX_CPUS ==> r.current@[c] is None,
    {
        let mut current: Vec<Option<TaskEntry>> = Vec::new();
        let mut c: usize = 0;
        while c < MAX_CPUS
            invariant
                c <= MAX_CPUS,
                current@.len() == c,
                forall|d: int| 0 <= d < c ==> current@[d] is None,
            decreases MAX_CPUS - c,
        {
            current.push(None);
            c = c + 1;
        }
        Scheduler { current, ready: Vec::new(), zombies: Vec::new(), ids: TaskIds::new() }
    }

    /// The task running on the CPU, if the CPU has joined.
    pub fn current_entry(&self, cpu_id: u32) -> (r: Option<TaskEntry>)
        requires
            wf(*self),
        ensures
            r == self.current@[slot(cpu_id)],
    {
        self.current[(cpu_id as usize) % MAX_CPUS]
    }

    fn set_current(&mut self, cpu_id: u32, t: Option<TaskEntry>)
        requires
            old(self).current@.len() == MAX_CPUS,
        ensures
            final(self).current@ == old(self).current@.update(slot(cpu_id), t),
            final(self).ready@ == old(self).ready@,
            final(self).zombies@ == old(self).zombies@,
            final(self).ids == old(self).ids,
    {
        let c = (cpu_id as usize) % MAX_CPUS;
        self.current.set(c, t);
    }
}

/// Makes the boot code the task running on the bootstrap CPU, as task 0.
pub fn init(s: &mut Scheduler, cpu_id: u32)
    requires
        wf(*old(s)),
    ensures
        final(s).current@ == old(s).current@.update(
            slot(cpu_id),
            Some(
                TaskEntry {
                    id: 0,
                    state: TaskState::Ready,
                    stack_top: 0,
                    address_space: None,
                    fork_resume: None,
                },
            ),
        ),
        final(s).ready@ == old(s).ready@,
        final(s).zombies@ == old(s).zombies@,
        final(s).ids == old(s).ids,
        old(s).ids.next > 0 && (forall|c: int|
            0 <= c < MAX_CPUS && c != slot(cpu_id) && #[trigger] old(s).current@[c] is Some
                ==> old(s).current@[c]->0.id != 0) && (forall|i: int|
            0 <= i < old(s).ready@.len() ==> #[trigger] old(s).ready@[i].id != 0) ==> wf(*final(s)),
{
    let boot = TaskEntry {
        id: 0,
        state: TaskState::Ready,
        stack_top: 0,
        address_space: None,
        fork_resume: None,
    };
    s.set_current(cpu_id, Some(boot));
    proof {
        let c0 = slot(cpu_id);
        if old(s).ids.next > 0 && (forall|c: int|
            0 <= c < MAX_CPUS && c != c0 && #[trigger] old(s).current@[c] is Some
                ==> old(s).current@[c]->0.id != 0) && (forall|i: int|
            0 <= i < old(s).ready@.len() ==> #[trigger] old(s).ready@[i].id != 0) {
            assert forall|c: int, d: int|
                #![trigger s.current@[c], s.current@[d]]
                0 <= c < d < MAX_CPUS && s.current@[c] is Some && s.current@[d] is Some
                    implies s.current@[c]->0.id != s.current@[d]->0.id by {
                if c != c0 && d != c0 {
                    assert(old(s).current@[c] == s.current@[c]);
                    assert(old(s).current@[d] == s.current@[d]);
                } else if c == c0 {
                    assert(old(s).current@[d] == s.current@[d]);
                } else {
                    assert(old(s).current@[c] == s.current@[c]);
                }
            }
            assert forall|c: int, i: int|
                #![trigger s.current@[c], s.ready@[i]]
                0 <= c < MAX_CPUS && 0 <= i < s.ready@.len() && s.current@[c] is Some
                    implies s.current@[c]->0.id != s.ready@[i].id by {
                if c != c0 {
                    assert(old(s).current@[c] == s.current@[c]);
                    assert(old(s).ready@[i] == s.ready@[i]);
                } else {
                    assert(old(s).ready@[i] == s.ready@[i]);
                }
            }
            assert forall|c: int|
                0 <= c < MAX_CPUS && #[trigger] s.current@[c] is Some implies s.current@[c]->0.id
                    < s.ids.next by {
                if c != c0 {
                    assert(old(s).current@[c] == s.current@[c]);
                }
            }
        }
    }
}

/// Makes the code running on an application processor that joins the
/// scheduler a task of its own, with a fresh identity, which it returns.
pub fn init_this_cpu(s: &mut Scheduler, cpu_id: u32) -> (id: u64)
    requires
        wf(*old(s)),
    ensures
        id == old(s).ids.next,
        final(s).current@ == old(s).current@.update(
            slot(cpu_id),
            Some(
                TaskEntry {
                    id,
                    state: TaskState::Ready,
                    stack_top: 0,
                    address_space: None,
                    fork_resume: None,
                },
            ),
        ),
        final(s).ready@ == old(s).ready@,
        final(s).zombies@ == old(s).zombies@,
        final(s).ids.next == (if old(s).ids.next == u64::MAX {
            0
        } else {
            old(s).ids.next + 1
        }),
        old(s).ids.next < u64::MAX ==> wf(*final(s)),
{
    let id = next_id(&mut s.ids);
    let t = TaskEntry {
        id,
        state: TaskState::Ready,
        stack_top: 0,
        address_space: None,
        fork_resume: None,
    };
    s.set_current(cpu_id, Some(t));
    id
}

/// Adds a new task at the back of the ready queue and returns its identity.
/// It runs on the kernel stack whose top is `stack_top`, in its own address
/// space if it has one, and resumes a forked parent's user code if
/// `fork_resume` says where.
pub fn spawn(
    s: &mut Scheduler,
    stack_top: u64,
    address_space: Option<u64>,
    fork_resume: Option<(u64, u64)>,
) -> (id: u64)
    requires
        wf(*old(s)),
    ensures
        id == old(s).ids.next,
        final(s).ready@ == old(s).ready@.push(
            TaskEntry { id, state: TaskState::Ready, stack_top, address_space, fork_resume },
        ),
        final(s).current@ == old(s).current@,
        final(s).zombies@ == old(s).zombies@,
        final(s).ids.next == (if old(s).ids.next == u64::MAX {
            0
        } else {
            old(s).ids.next + 1
        }),
        old(s).ids.next < u64::MAX ==> wf(*final(s)),
{
    let id = next_id(&mut s.ids);
    s.ready.push(TaskEntry { id, state: TaskState::Ready, stack_top, address_space, fork_resume });
    id
}

/// Wakes every task in the ready queue whose wake-up tick `now` has reached.
fn wake_all(s: &mut Scheduler, now: u64)
    ensures
        final(s).ready@ == woken(old(s).ready@, now),
        final(s).current@ == old(s).current@,
        final(s).zombies@ == old(s).zombies@,
        final(s).ids == old(s).ids,
{
    let mut i: usize = 0;
    while i < s.ready.len()
        invariant
            i <= s.ready@.len(),
            s.ready@.len() == old(s).ready@.len(),
            forall|j: int| 0 <= j < i ==> s.ready@[j] == wake_entry(old(s).ready@[j], now),
            forall|j: int| i <= j < s.ready@.len() ==> s.ready@[j] == old(s).ready@[j],
            s.current@ == old(s).current@,
            s.zombies@ == old(s).zombies@,
            s.ids == old(s).ids,
        decreases s.ready@.len() - i,
    {
        let t = s.ready[i];
        match t.state {
            TaskState::Blocked(w) => {
                if now >= w {
                    s.ready.set(i, TaskEntry { state: TaskState::Ready, ..t });
                }
            },
            TaskState::Ready => {},
        }
        i = i + 1;
    }
    assert(s.ready@ =~= woken(old(s).ready@, now));
}

/// The position of the first ready task in the queue, if any.
fn find_ready(q: &Vec<TaskEntry>) -> (r: Option<usize>)
    ensures
        match r {
            Some(i) => first_ready(q@, i as int),
            None => none_ready(q@),
        },
{
    let mut i: usize = 0;
    while i < q.len()
        invariant
            i <= q@.len(),
            forall|j: int| 0 <= j < i ==> q@[j].state != TaskState::Ready,
        decreases q@.len() - i,
    {
        if q[i].state == TaskState::Ready {
            return Some(i);
        }
        i = i + 1;
    }
    None
}

proof fn lemma_wake_keeps_ids(q: Seq<TaskEntry>, now: u64)
    ensures
        woken(q, now).len() == q.len(),
        forall|i: int| 0 <= i < q.len() ==> (#[trigger] woken(q, now)[i]).id == q[i].id,
{
}

/// Two schedulers with the same running tasks and the same identities in
/// their ready queues have the same live tasks.
proof fn lemma_live_ids_same(a: Scheduler, b: Scheduler)
    requires
        a.current@ == b.current@,
        a.ready@.len() == b.ready@.len(),
        forall|i: int| 0 <= i < a.ready@.len() ==> a.ready@[i].id == b.ready@[i].id,
    ensures
        live_ids(a) == live_ids(b),
{
    assert forall|x: u64| live_ids(a).contains(x) <==> live_ids(b).contains(x) by {
        if exists|i: int| 0 <= i < a.ready@.len() && a.ready@[i].id == x {
            let i = choose|i: int| 0 <= i < a.ready@.len() && a.ready@[i].id == x;
            assert(b.ready@[i].id == x);
        }
        if exists|i: int| 0 <= i < b.ready@.len() && b.ready@[i].id == x {
            let i = choose|i: int| 0 <= i < b.ready@.len() && b.ready@[i].id == x;
            assert(a.ready@[i].id == x);
        }
    }
    assert(live_ids(a) =~= live_ids(b));
}

/// Switches the CPU to the next task: wakes the tasks whose time has come,
/// takes the first ready one out of the queue, and puts the task that ran
/// at the back of the queue. With no ready task nothing switches (`None`).
pub fn schedule(s: &mut Scheduler, cpu_id: u32, now: u64) -> (r: Option<Switch>)
    requires
        wf(*old(s)),
        old(s).current@[slot(cpu_id)] is Some,
    ensures
        ({
            let q = woken(old(s).ready@, now);
            let running = old(s).current@[slot(cpu_id)]->0;
            match r {
                None => {
                    &&& none_ready(q)
                    &&& final(s).ready@ == q
                    &&& final(s).current@ == old(s).current@
                },
                Some(sw) => {
                    &&& first_ready(q, sw.picked as int)
                    &&& sw.to == q[sw.picked as int]
                    &&& sw.from == running.id
                    &&& final(s).ready@ == q.remove(sw.picked as int).push(running)
                    &&& final(s).current@ == old(s).current@.update(slot(cpu_id), Some(sw.to))
                },
            }
        }),
        final(s).zombies@ == old(s).zombies@,
        final(s).ids == old(s).ids,
        wf(*final(s)),
        live_ids(*final(s)) == live_ids(*old(s)),
{
    wake_all(s, now);
    proof {
        lemma_wake_keeps_ids(old(s).ready@, now);
        assert(wf(*s));
        lemma_live_ids_same(*s, *old(s));
    }
    let idx = match find_ready(&s.ready) {
        Some(i) => i,
        None => return None,
    };
    let ghost mid = *s;
    let next = s.ready.remove(idx);
    let running = match s.current_entry(cpu_id) {
        Some(t) => t,
        None => {
            assert(false);
            return None;
        },
    };
    s.ready.push(running);
    s.set_current(cpu_id, Some(next));
    proof {
        let c0 = slot(cpu_id);
        assert(s.ready@ == mid.ready@.remove(idx as int).push(running));
        assert forall|x: u64| live_ids(*s).contains(x) <==> live_ids(mid).contains(x) by {
            if live_ids(mid).contains(x) {
                if exists|c: int|
                    0 <= c < mid.current@.len() && mid.current@[c] is Some && mid.current@[c]->0.id == x {
                    let c = choose|c: int|
                        0 <= c < mid.current@.len() && mid.current@[c] is Some && mid.current@[c]->0.id == x;
                    if c == c0 {
                        assert(s.ready@[s.ready@.len() - 1].id == x);
                    } else {
                        assert(s.current@[c] == mid.current@[c]);
                    }
                } else {
                    let i = choose|i: int| 0 <= i < mid.ready@.len() && mid.ready@[i].id == x;
                    if i == idx {
                        assert(s.current@[c0] == Some(next));
                    } else if i < idx {
                        assert(s.ready@[i] == mid.ready@[i]);
                    } else {
                        assert(s.ready@[i - 1] == mid.ready@[i]);
                    }
                }
            }
            if live_ids(*s).contains(x) {
                if exists|c: int|
                    0 <= c < s.current@.len() && s.current@[c] is Some && s.current@[c]->0.id == x {
                    let c = choose|c: int|
                        0 <= c < s.current@.len() && s.current@[c] is Some && s.current@[c]->0.id == x;
                    if c == c0 {
                        assert(mid.ready@[idx as int].id == x);
                    } else {
                        assert(s.current@[c] == mid.current@[c]);
                    }
                } else {
                    let i = choose|i: int| 0 <= i < s.ready@.len() && s.ready@[i].id == x;
                    if i == s.ready@.len() - 1 {
                        assert(mid.current@[c0] == Some(running));
                    } else if i < idx {
                        assert(s.ready@[i] == mid.ready@[i]);
                    } else {
                        assert(s.ready@[i] == mid.ready@[i + 1]);
                    }
                }
            }
        }
        assert(live_ids(*s) =~= live_ids(mid));
        assert(wf(*s)) by {
            assert forall|c: int, d: int|
                #![trigger s.current@[c], s.current@[d]]
                0 <= c < d < MAX_CPUS && s.current@[c] is Some && s.current@[d] is Some
                    implies s.current@[c]->0.id != s.current@[d]->0.id by {
                if c == c0 {
                    assert(mid.ready@[idx as int] == next);
                } else if d == c0 {
                    assert(mid.ready@[idx as int] == next);
                }
            }
            assert forall|c: int, i: int|
                #![trigger s.current@[c], s.ready@[i]]
                0 <= c < MAX_CPUS && 0 <= i < s.ready@.len() && s.current@[c] is Some
                    implies s.current@[c]->0.id != s.ready@[i].id by {
                if i == s.ready@.len() - 1 {
                    if c != c0 {
                        assert(mid.current@[c0] == Some(running));
                    } else {
                        assert(mid.ready@[idx as int] == next);
                        assert(mid.current@[c0] == Some(running));
                    }
                } else if i < idx {
                    assert(s.ready@[i] == mid.ready@[i]);
                } else {
                    assert(s.ready@[i] == mid.ready@[i + 1]);
                }
            }
            assert forall|i: int, j: int|
                #![trigger s.ready@[i], s.ready@[j]]
                0 <= i < j < s.ready@.len() implies s.ready@[i].id != s.ready@[j].id by {
                if j == s.ready@.len() - 1 {
                    assert(mid.current@[c0] == Some(running));
                    if i < idx {
                        assert(s.ready@[i] == mid.ready@[i]);
                    } else {
                        assert(s.ready@[i] == mid.ready@[i + 1]);
                    }
                } else {
                    if i < idx {
                        assert(s.ready@[i] == mid.ready@[i]);
                    } else {
                        assert(s.ready@[i] == mid.ready@[i + 1]);
                    }
                    if j < idx {
                        assert(s.ready@[j] == mid.ready@[j]);
                    } else {
                        assert(s.ready@[j] == mid.ready@[j + 1]);
                    }
                }
            }
            assert forall|i: int| 0 <= i < s.ready@.len() implies #[trigger] s.ready@[i].id
                < s.ids.next by {
                if i == s.ready@.len() - 1 {
                    assert(mid.current@[c0] == Some(running));
                } else if i < idx {
                    assert(s.ready@[i] == mid.ready@[i]);
                } else {
                    assert(s.ready@[i] == mid.ready@[i + 1]);
                }
            }
        }
    }
    Some(Switch { from: running.id, to: next, picked: idx })
}

/// Ends the task running on the CPU with exit code `code`: wakes the tasks
/// whose time has come and, when one is ready, makes the first of them run
/// and records the ended task's identity and code for `wait_for`. With no
/// ready task the ended task stays on the CPU (`None`) until a later try.
pub fn exit_current(s: &mut Scheduler, cpu_id: u32, code: u64, now: u64) -> (r: Option<TaskEntry>)
    requires
        wf(*old(s)),
    ensures
        ({
            let q = woken(old(s).ready@, now);
            match r {
                None => {
                    &&& none_ready(q)
                    &&& final(s).ready@ == q
                    &&& final(s).current@ == old(s).current@
                    &&& final(s).zombies@ == old(s).zombies@
                },
                Some(next) => exists|i: int|
                    {
                        &&& first_ready(q, i)
                        &&& next == q[i]
                        &&& final(s).ready@ == q.remove(i)
                        &&& final(s).current@ == old(s).current@.update(slot(cpu_id), Some(next))
                        &&& final(s).zombies@ == (match old(s).current@[slot(cpu_id)] {
                            Some(dead) => old(s).zombies@.push((dead.id, code)),
                            None => old(s).zombies@,
                        })
                    },
            }
        }),
        final(s).ids == old(s).ids,
        wf(*final(s)),
{
    wake_all(s, now);
    proof {
        lemma_wake_keeps_ids(old(s).ready@, now);
        assert(wf(*s));
    }
    let idx = match find_ready(&s.ready) {
        Some(i) => i,
        None => return None,
    };
    let ghost mid = *s;
    let next = s.ready.remove(idx);
    let dead = s.current_entry(cpu_id);
    match dead {
        Some(d) => s.zombies.push((d.id, code)),
        None => {},
    }
    s.set_current(cpu_id, Some(next));
    proof {
        let c0 = slot(cpu_id);
        assert(first_ready(woken(old(s).ready@, now), idx as int));
        assert forall|c: int, d: int|
            #![trigger s.current@[c], s.current@[d]]
            0 <= c < d < MAX_CPUS && s.current@[c] is Some && s.current@[d] is Some
                implies s.current@[c]->0.id != s.current@[d]->0.id by {
            if c == c0 || d == c0 {
                assert(mid.ready@[idx as int] == next);
            }
        }
        assert forall|c: int, i: int|
            #![trigger s.current@[c], s.ready@[i]]
            0 <= c < MAX_CPUS && 0 <= i < s.ready@.len() && s.current@[c] is Some
                implies s.current@[c]->0.id != s.ready@[i].id by {
            if i < idx {
                assert(s.ready@[i] == mid.ready@[i]);
            } else {
                assert(s.ready@[i] == mid.ready@[i + 1]);
            }
            if c == c0 {
                assert(mid.ready@[idx as int] == next);
            }
        }
        assert forall|i: int, j: int|
            #![trigger s.ready@[i], s.ready@[j]]
            0 <= i < j < s.ready@.len() implies s.ready@[i].id != s.ready@[j].id by {
            if i < idx {
                assert(s.ready@[i] == mid.ready@[i]);
            } else {
                assert(s.ready@[i] == mid.ready@[i + 1]);
            }
            if j < idx {
                assert(s.ready@[j] == mid.ready@[j]);
            } else {
                assert(s.ready@[j] == mid.ready@[j + 1]);
            }
        }
        assert forall|i: int| 0 <= i < s.ready@.len() implies #[trigger] s.ready@[i].id
            < s.ids.next by {
            if i < idx {
                assert(s.ready@[i] == mid.ready@[i]);
            } else {
                assert(s.ready@[i] == mid.ready@[i + 1]);
            }
        }
    }
    Some(next)
}

/// Collects the exit code of the finished task `child`, the first record of

/// Waiting for `child` over the finished tasks `zombies` gives `r` and
/// leaves `rest`: the exit code of the first entry for `child`, which is
/// taken out, or `None` with nothing taken when there is none.
pub open spec fn reaps(
    zombies: Seq<(u64, u64)>,
    child: u64,
    r: Option<u64>,
    rest: Seq<(u64, u64)>,
) -> bool {
    match r {
        Some(code) => exists|i: int|
            {
                &&& 0 <= i < zombies.len()
                &&& zombies[i] == (child, code)
                &&& forall|j: int| 0 <= j < i ==> (#[trigger] zombies[j]).0 != child
                &&& rest == zombies.remove(i)
            },
        None => {
            &&& forall|j: int| 0 <= j < zombies.len() ==> (#[trigger] zombies[j]).0 != child
            &&& rest == zombies
        },
    }
}

/// A task that finished (exited with `code`, or was killed, with `KILLED`)
/// while no other finished task carried its identity is what the next wait
/// for it finds: the wait returns that code and leaves the finished tasks as
/// they were before.
pub proof fn lemma_wait_after_finish(
    zombies: Seq<(u64, u64)>,
    target: u64,
    code: u64,
    r: Option<u64>,
    rest: Seq<(u64, u64)>,
)
    requires
        forall|j: int| 0 <= j < zombies.len() ==> (#[trigger] zombies[j]).0 != target,
        reaps(zombies.push((target, code)), target, r, rest),
    ensures
        r == Some(code),
        rest == zombies,
{
    let z = zombies.push((target, code));
    assert(z[zombies.len() as int].0 == target);
    match r {
        Some(c) => {
            let i = choose|i: int|
                {
                    &&& 0 <= i < z.len()
                    &&& z[i] == (target, c)
                    &&& forall|j: int| 0 <= j < i ==> (#[trigger] z[j]).0 != target
                    &&& rest == z.remove(i)
                };
            if i < zombies.len() {
                assert(z[i] == zombies[i]);
            }
            assert(i == zombies.len());
            assert(rest =~= zombies);
        },
        None => {},
    }
}

/// it, or `None` while it has not finished (the caller waits and retries).
pub fn wait_for(s: &mut Scheduler, child: u64) -> (r: Option<u64>)
    ensures
        reaps(old(s).zombies@, child, r, final(s).zombies@),
        final(s).current@ == old(s).current@,
        final(s).ready@ == old(s).ready@,
        final(s).ids == old(s).ids,
{
    let mut i: usize = 0;
    while i < s.zombies.len()
        invariant
            i <= s.zombies@.len(),
            s.zombies@ == old(s).zombies@,
            s.current@ == old(s).current@,
            s.ready@ == old(s).ready@,
            s.ids == old(s).ids,
            forall|j: int| 0 <= j < i ==> (#[trigger] s.zombies@[j]).0 != child,
        decreases s.zombies@.len() - i,
    {
        if s.zombies[i].0 == child {
            let (_, code) = s.zombies.remove(i);
            return Some(code);
        }
        i = i + 1;
    }
    None
}

/// Kills the ready task `target`: takes it out of the queue and records it as
/// finished with `KILLED`. Returns whether it was there; running tasks are
/// not touched.
pub fn kill(s: &mut Scheduler, target: u64) -> (r: bool)
    requires
        wf(*old(s)),
    ensures
        r == (exists|i: int| 0 <= i < old(s).ready@.len() && old(s).ready@[i].id == target),
        r ==> exists|i: int|
            {
                &&& 0 <= i < old(s).ready@.len()
                &&& old(s).ready@[i].id == target
                &&& final(s).ready@ == old(s).ready@.remove(i)
                &&& final(s).zombies@ == old(s).zombies@.push((target, KILLED))
            },
        !r ==> final(s).ready@ == old(s).ready@ && final(s).zombies@ == old(s).zombies@,
        final(s).current@ == old(s).current@,
        final(s).ids == old(s).ids,
        wf(*final(s)),
        live_ids(*final(s)) == (if r {
            live_ids(*old(s)).remove(target)
        } else {
            live_ids(*old(s))
        }),
{
    let mut i: usize = 0;
    while i < s.ready.len()
        invariant
            i <= s.ready@.len(),
            *s == *old(s),
            wf(*old(s)),
            forall|j: int| 0 <= j < i ==> (#[trigger] s.ready@[j]).id != target,
        decreases s.ready@.len() - i,
    {
        if s.ready[i].id == target {
            let ghost mid = *s;
            let dead = s.ready.remove(i);
            s.zombies.push((dead.id, KILLED));
            proof {
                assert forall|c: int, j: int|
                    #![trigger s.current@[c], s.ready@[j]]
                    0 <= c < MAX_CPUS && 0 <= j < s.ready@.len() && s.current@[c] is Some
                        implies s.current@[c]->0.id != s.ready@[j].id by {
                    if j < i {
                        assert(s.ready@[j] == mid.ready@[j]);
                    } else {
                        assert(s.ready@[j] == mid.ready@[j + 1]);
                    }
                }
                assert forall|a: int, b: int|
                    #![trigger s.ready@[a], s.ready@[b]]
                    0 <= a < b < s.ready@.len() implies s.ready@[a].id != s.ready@[b].id by {
                    if a < i {
                        assert(s.ready@[a] == mid.ready@[a]);
                    } else {
                        assert(s.ready@[a] == mid.ready@[a + 1]);
                    }
                    if b < i {
                        assert(s.ready@[b] == mid.ready@[b]);
                    } else {
                        assert(s.ready@[b] == mid.ready@[b + 1]);
                    }
                }
                assert forall|j: int| 0 <= j < s.ready@.len() implies #[trigger] s.ready@[j].id
                    < s.ids.next by {
                    if j < i {
                        assert(s.ready@[j] == mid.ready@[j]);
                    } else {
                        assert(s.ready@[j] == mid.ready@[j + 1]);
                    }
                }
                assert forall|x: u64| live_ids(*s).contains(x) <==> live_ids(mid).remove(
                    target,
                ).contains(x) by {
                    if live_ids(*s).contains(x) {
                        if exists|j: int| 0 <= j < s.ready@.len() && s.ready@[j].id == x {
                            let j = choose|j: int| 0 <= j < s.ready@.len() && s.ready@[j].id == x;
                            if j < i {
                                assert(s.ready@[j] == mid.ready@[j]);
                                assert(mid.ready@[j].id != mid.ready@[i as int].id);
                            } else {
                                assert(s.ready@[j] == mid.ready@[j + 1]);
                                assert(mid.ready@[i as int].id != mid.ready@[j + 1].id);
                            }
                        } else {
                            let c = choose|c: int|
                                0 <= c < s.current@.len() && s.current@[c] is Some
                                    && s.current@[c]->0.id == x;
                            assert(mid.current@[c]->0.id != mid.ready@[i as int].id);
                        }
                    }
                    if live_ids(mid).remove(target).contains(x) {
                        if exists|j: int| 0 <= j < mid.ready@.len() && mid.ready@[j].id == x {
                            let j = choose|j: int| 0 <= j < mid.ready@.len() && mid.ready@[j].id == x;
                            if j < i {
                                assert(s.ready@[j] == mid.ready@[j]);
                            } else if j > i {
                                assert(s.ready@[j - 1] == mid.ready@[j]);
                            }
                        }
                    }
                }
                assert(live_ids(*s) =~= live_ids(mid).remove(target));
            }
            return true;
        }
        i = i + 1;
    }
    false
}

/// The identity of the task running on the CPU.
pub fn current_task_id(s: &Scheduler, cpu_id: u32) -> (r: u64)
    requires
        wf(*s),
        s.current@[slot(cpu_id)] is Some,
    ensures
        r == s.current@[slot(cpu_id)]->0.id,
{
    match s.current_entry(cpu_id) {
        Some(t) => t.id,
        None => {
            assert(false);
            0
        },
    }
}

/// Every task with its state: the running ones by CPU slot, then the ready
/// queue in order.
pub fn list_tasks(s: &Scheduler) -> (r: Vec<(u64, TaskState)>)
    ensures
        r@ == running_list(s.current@, s.current@.len() as int) + Seq::new(
            s.ready@.len(),
            |i: int| (s.ready@[i].id, s.ready@[i].state),
        ),
{
    let mut out: Vec<(u64, TaskState)> = Vec::new();
    let mut c: usize = 0;
    while c < s.current.len()
        invariant
            c <= s.current@.len(),
            out@ == running_list(s.current@, c as int),
        decreases s.current@.len() - c,
    {
        match s.current[c] {
            Some(t) => out.push((t.id, t.state)),
            None => {},
        }
        c = c + 1;
    }
    let ghost running = out@;
    let mut i: usize = 0;
    while i < s.ready.len()
        invariant
            i <= s.ready@.len(),
            out@ == running + Seq::new(i as nat, |k: int| (s.ready@[k].id, s.ready@[k].state)),
        decreases s.ready@.len() - i,
    {
        out.push((s.ready[i].id, s.ready[i].state));
        i = i + 1;
        assert(out@ =~= running + Seq::new(i as nat, |k: int| (s.ready@[k].id, s.ready@[k].state)));
    }
    assert(out@ =~= running + Seq::new(
        s.ready@.len(),
        |k: int| (s.ready@[k].id, s.ready@[k].state),
    ));
    out
}

/// The running tasks of the first `n` slots, in slot order.
pub open spec fn running_list(current: Seq<Option<TaskEntry>>, n: int) -> Seq<(u64, TaskState)>
    decreases n,
{
    if n <= 0 {
        Seq::empty()
    } else {
        match current[n - 1] {
            Some(t) => running_list(current, n - 1).push((t.id, t.state)),
            None => running_list(current, n - 1),
        }
    }
}

/// The tick a task that sleeps `duration` ticks from `now` wakes at.
pub fn wake_time(now: u64, duration: u64) -> (r: u64)
    requires
        now + duration <= u64::MAX,
    ensures
        r == now + duration,
{
    now + duration
}

/// Marks the task running on the CPU as blocked until tick `wake_at`.
pub fn block_current(s: &mut Scheduler, cpu_id: u32, wake_at: u64)
    requires
        wf(*old(s)),
    ensures
        final(s).current@ == (match old(s).current@[slot(cpu_id)] {
            Some(t) => old(s).current@.update(
                slot(cpu_id),
                Some(TaskEntry { state: TaskState::Blocked(wake_at), ..t }),
            ),
            None => old(s).current@,
        }),
        final(s).ready@ == old(s).ready@,
        final(s).zombies@ == old(s).zombies@,
        final(s).ids == old(s).ids,
        wf(*final(s)),
{
    set_current_state(s, cpu_id, TaskState::Blocked(wake_at));
}

/// Marks the task running on the CPU as ready again.
pub fn unblock_current(s: &mut Scheduler, cpu_id: u32)
    requires
        wf(*old(s)),
    ensures
        final(s).current@ == (match old(s).current@[slot(cpu_id)] {
            Some(t) => old(s).current@.update(
                slot(cpu_id),
                Some(TaskEntry { state: TaskState::Ready, ..t }),
            ),
            None => old(s).current@,
        }),
        final(s).ready@ == old(s).ready@,
        final(s).zombies@ == old(s).zombies@,
        final(s).ids == old(s).ids,
        wf(*final(s)),
{
    set_current_state(s, cpu_id, TaskState::Ready);
}

fn set_current_state(s: &mut Scheduler, cpu_id: u32, state: TaskState)
    requires
        wf(*old(s)),
    ensures
        final(s).current@ == (match old(s).current@[slot(cpu_id)] {
            Some(t) => old(s).current@.update(slot(cpu_id), Some(TaskEntry { state, ..t })),
            None => old(s).current@,
        }),
        final(s).ready@ == old(s).ready@,
        final(s).zombies@ == old(s).zombies@,
        final(s).ids == old(s).ids,
        wf(*final(s)),
{
    match s.current_entry(cpu_id) {
        Some(t) => {
            s.set_current(cpu_id, Some(TaskEntry { state, ..t }));
            proof {
                let c0 = slot(cpu_id);
                assert forall|c: int| 0 <= c < MAX_CPUS implies (#[trigger] s.current@[c] is Some
                    == old(s).current@[c] is Some) && (s.current@[c] is Some ==> s.current@[c]->0.id
                    == old(s).current@[c]->0.id) by {
                    if c != c0 {
                        assert(s.current@[c] == old(s).current@[c]);
                    }
                }
            }
        },
        None => {},
    }
}

/// The address space of the task running on the CPU, if it has its own.
pub fn with_current_address_space(s: &Scheduler, cpu_id: u32) -> (r: Option<u64>)
    requires
        wf(*s),
    ensures
        r == (match s.current@[slot(cpu_id)] {
            Some(t) => t.address_space,
            None => None,
        }),
{
    match s.current_entry(cpu_id) {
        Some(t) => t.address_space,
        None => None,
    }
}

/// Takes the place where the running task, a forked child, resumes in user
/// mode; it is taken once.
pub fn take_current_fork_resume(s: &mut Scheduler, cpu_id: u32) -> (r: Option<(u64, u64)>)
    requires
        wf(*old(s)),
    ensures
        r == (match old(s).current@[slot(cpu_id)] {
            Some(t) => t.fork_resume,
            None => None,
        }),
        final(s).current@ == (match old(s).current@[slot(cpu_id)] {
            Some(t) => old(s).current@.update(
                slot(cpu_id),
                Some(TaskEntry { fork_resume: None, ..t }),
            ),
            None => old(s).current@,
        }),
        final(s).ready@ == old(s).ready@,
        final(s).zombies@ == old(s).zombies@,
        final(s).ids == old(s).ids,
        wf(*final(s)),
{
    match s.current_entry(cpu_id) {
        Some(t) => {
            s.set_current(cpu_id, Some(TaskEntry { fork_resume: None, ..t }));
            proof {
                let c0 = slot(cpu_id);
                assert forall|c: int| 0 <= c < MAX_CPUS implies (#[trigger] s.current@[c] is Some
                    == old(s).current@[c] is Some) && (s.current@[c] is Some ==> s.current@[c]->0.id
                    == old(s).current@[c]->0.id) by {
                    if c != c0 {
                        assert(s.current@[c] == old(s).current@[c]);
                    }
                }
            }
            t.fork_resume
        },
        None => None,
    }
}

/// The first 16-byte-aligned address at or below the end of a stack of `len`
/// bytes at `base`.
pub fn stack_top_of(base: u64, len: u64) -> (r: u64)
    requires
        base + len <= u64::MAX,
    ensures
        r % 16 == 0,
        base + len - 16 < r <= base + len,
{
    let end = base + len;
    let r = end & !0xfu64;
    assert(r % 16 == 0 && end - 16 < r && r <= end) by (bit_vector)
        requires
            r == end & !0xfu64,
    ;
    r
}

/// The words a new task's stack starts with, from its saved stack pointer
/// up: the flags word (interrupts on), six callee-saved registers (zero),
/// the return address into the task trampoline, and the entry point the
/// trampoline takes off the stack.
pub fn initial_frame(entry: u64, trampoline: u64) -> (r: [u64; 9])
    ensures
        r@ == seq![0x202u64, 0u64, 0u64, 0u64, 0u64, 0u64, 0u64, trampoline, entry],
{
    let r = [0x202u64, 0, 0, 0, 0, 0, 0, trampoline, entry];
    assert(r@ =~= seq![0x202u64, 0u64, 0u64, 0u64, 0u64, 0u64, 0u64, trampoline, entry]);
    r
}

/// A new task's saved stack pointer: the nine words of its initial frame
/// below the top of its stack.
pub fn initial_rsp(stack_top: u64) -> (r: u64)
    requires
        stack_top >= 72,
    ensures
        r == stack_top - 72,
{
    stack_top - 72
}

} // verus!
