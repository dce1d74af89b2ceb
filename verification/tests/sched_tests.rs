use oxide::pipe::{self, Pipe};
use oxide::scheduler::{
    block_current, current_task_id, exit_current, init, init_this_cpu, initial_frame, initial_rsp,
    kill, list_tasks, schedule, spawn, stack_top_of, take_current_fork_resume, unblock_current,
    wait_for, with_current_address_space, Scheduler, KILLED,
};
use oxide::task::{next_id, TaskIds, TaskState};
use oxide::timer::{pit_divisor_bytes, seconds, tick, ticks, TickCounter};

#[test]
fn ids_count_up_and_wrap() {
    let mut ids = TaskIds::new();
    assert_eq!(next_id(&mut ids), 1);
    assert_eq!(next_id(&mut ids), 2);
    let mut top = TaskIds { next: u64::MAX };
    assert_eq!(next_id(&mut top), u64::MAX);
    assert_eq!(top.next, 0);
}

#[test]
fn ticks_count() {
    let mut t = TickCounter::new();
    tick(&mut t);
    tick(&mut t);
    assert_eq!(ticks(&t), 2);
    let mut w = TickCounter { count: u64::MAX };
    tick(&mut w);
    assert_eq!(ticks(&w), 0);
    assert_eq!(seconds(250), 2);
    assert_eq!(pit_divisor_bytes(), (155, 46));
}

#[test]
fn pipe_is_first_in_first_out() {
    let mut p = Pipe::new();
    let mut buf = [0u8; 4];
    assert_eq!(pipe::read(&mut p, &mut buf), None);
    pipe::write(&mut p, b"ping");
    pipe::write(&mut p, b"!");
    assert_eq!(pipe::read(&mut p, &mut buf), Some(4));
    assert_eq!(&buf, b"ping");
    let mut big = [9u8; 8];
    assert_eq!(pipe::read(&mut p, &mut big), Some(1));
    assert_eq!(big, [b'!', 9, 9, 9, 9, 9, 9, 9]);
    assert_eq!(pipe::read(&mut p, &mut big), None);
}

#[test]
fn round_robin_with_sleepers() {
    let mut s = Scheduler::new();
    init(&mut s, 0);
    let a = spawn(&mut s, 0x10_0000, None, None);
    let b = spawn(&mut s, 0x20_0000, Some(0x5000), None);
    assert_eq!((a, b), (1, 2));
    let sw = schedule(&mut s, 0, 0).unwrap();
    assert_eq!((sw.from, sw.to.id), (0, a));
    assert_eq!(current_task_id(&s, 0), a);
    block_current(&mut s, 0, 10);
    let sw = schedule(&mut s, 0, 5).unwrap();
    assert_eq!((sw.from, sw.to.id), (a, b));
    assert_eq!(with_current_address_space(&s, 0), Some(0x5000));
    let sw = schedule(&mut s, 0, 6).unwrap();
    assert_eq!(sw.to.id, 0);
    let sw = schedule(&mut s, 0, 7).unwrap();
    assert_eq!(sw.to.id, b, "the sleeper is skipped until its tick");
    let sw = schedule(&mut s, 0, 10).unwrap();
    assert_eq!(sw.to.id, a, "woken at tick 10, and first in line");
    let listed = list_tasks(&s);
    assert_eq!(listed, vec![(a, TaskState::Ready), (0, TaskState::Ready), (b, TaskState::Ready)]);
    block_current(&mut s, 0, 99);
    assert_eq!(list_tasks(&s)[0], (a, TaskState::Blocked(99)));
    unblock_current(&mut s, 0);
    assert_eq!(list_tasks(&s)[0], (a, TaskState::Ready));
}

#[test]
fn nothing_ready_means_no_switch() {
    let mut s = Scheduler::new();
    init(&mut s, 0);
    assert!(schedule(&mut s, 0, 0).is_none());
    assert_eq!(current_task_id(&s, 0), 0);
}

#[test]
fn exit_wait_and_kill() {
    let mut s = Scheduler::new();
    init(&mut s, 0);
    let a = spawn(&mut s, 0x1000, None, None);
    let b = spawn(&mut s, 0x2000, None, None);
    schedule(&mut s, 0, 0).unwrap();
    assert_eq!(current_task_id(&s, 0), a);
    let next = exit_current(&mut s, 0, 7, 0).unwrap();
    assert_eq!(next.id, b);
    assert_eq!(wait_for(&mut s, a), Some(7));
    assert_eq!(wait_for(&mut s, a), None);
    assert!(kill(&mut s, 0));
    assert_eq!(wait_for(&mut s, 0), Some(KILLED));
    assert!(!kill(&mut s, b), "the running task is not in the queue");
    assert!(!kill(&mut s, 99));
}

#[test]
fn application_processors_join_with_fresh_ids() {
    let mut s = Scheduler::new();
    init(&mut s, 0);
    let ap = init_this_cpu(&mut s, 1);
    assert_eq!(ap, 1);
    assert_eq!(current_task_id(&s, 1), 1);
    assert_eq!(current_task_id(&s, 9), 1, "cpu ids map to slots modulo the slot count");
}

#[test]
fn fork_resume_is_taken_once() {
    let mut s = Scheduler::new();
    init(&mut s, 0);
    spawn(&mut s, 0x1000, Some(0x9000), Some((0x400000, 0x7fff0000)));
    schedule(&mut s, 0, 0).unwrap();
    assert_eq!(take_current_fork_resume(&mut s, 0), Some((0x400000, 0x7fff0000)));
    assert_eq!(take_current_fork_resume(&mut s, 0), None);
}

#[test]
fn new_task_stack() {
    assert_eq!(stack_top_of(0x1000, 0x10000), 0x11000);
    assert_eq!(stack_top_of(0x1001, 0x100), 0x1100);
    assert_eq!(initial_rsp(0x11000), 0x11000 - 72);
    let f = initial_frame(0xAAAA, 0xBBBB);
    assert_eq!(f, [0x202, 0, 0, 0, 0, 0, 0, 0xBBBB, 0xAAAA]);
}
