use oxide::keyboard::{handle_scancode, new_decoder, push_char, try_pop_char};
use oxide::devfs::{self, is_control, LineReader, LineSource};
use oxide::digits::{write_decimal, write_hex};
use oxide::loader::{can_load, run_forker, run_hello, run_init, run_pie_demo, HELLO_STACK_TOP, PIE_DEMO_LOAD_BASE};
use oxide::memory::AddressSpace;
use oxide::syscall::{exec_program, stdin_step, syscall_dispatch, user_range_is_valid, write_target, StdinStep, Stream, Syscall};
use oxide::usermode::{launch, user_region_contains, USER_CODE_ADDR};

#[test]
fn device_files() {
    assert_eq!(devfs::write("/dev/null", b"x"), Ok(()));
    assert_eq!(devfs::write("/dev/zero", b"x"), Err("no such device"));
    assert_eq!(devfs::read_line("/dev/keyboard"), Ok(LineSource::Keyboard));
    assert_eq!(devfs::read_line("/dev/null"), Ok(LineSource::Null));
    assert_eq!(devfs::read_line("/etc"), Err("no such device"));
    let mut r = LineReader::new();
    assert!(!r.feed('h'));
    assert!(!r.feed('\u{7}'));
    assert!(!r.feed('i'));
    assert!(r.feed('\n'));
    assert_eq!(r.line, vec!['h', 'i']);
    assert!(is_control('\u{9f}'));
    assert!(!is_control('a'));
}

#[test]
fn number_digits() {
    assert_eq!(write_decimal(0), b"0".to_vec());
    assert_eq!(write_decimal(1234), b"1234".to_vec());
    assert_eq!(write_decimal(u64::MAX), b"18446744073709551615".to_vec());
    assert_eq!(&write_hex(0xC0C0_C0C0_C0C0_C0C0), b"c0c0c0c0c0c0c0c0");
    assert_eq!(&write_hex(0x1f), b"000000000000001f");
}

#[test]
fn syscalls() {
    assert_eq!(syscall_dispatch(1, 1, 0x1000, 5), Syscall::Write { fd: 1, ptr: 0x1000, len: 5 });
    assert_eq!(syscall_dispatch(6, 0, 0, 0), Syscall::Mmap);
    assert_eq!(syscall_dispatch(42, 0, 0, 0), Syscall::Unknown);
    let mut space = AddressSpace::new(0);
    space.register_region(0x1000, 0x2000);
    let s = Some(space);
    assert!(user_range_is_valid(&s, 0x1000, 0x1000));
    assert!(!user_range_is_valid(&s, 0x1000, 0x1001));
    assert!(!user_range_is_valid(&s, u64::MAX, 2));
    assert!(!user_range_is_valid(&None, 0x1000, 1));
    assert!(user_region_contains(&s, 0x1800, 0x1900));
    assert_eq!(write_target(1), Some(Stream::Console));
    assert_eq!(write_target(4), Some(Stream::Pipe));
    assert_eq!(write_target(2), None);
    assert_eq!(stdin_step(Some('a'), 0), StdinStep::Store(b'a'));
    assert_eq!(stdin_step(Some('\n'), 3), StdinStep::StoreAndFinish(b'\n'));
    assert_eq!(stdin_step(Some('é'), 0), StdinStep::Skip);
    assert_eq!(stdin_step(None, 0), StdinStep::Yield);
    assert_eq!(stdin_step(None, 1), StdinStep::Finish);
    assert_eq!(exec_program(1).unwrap().0, "producer");
    assert!(exec_program(3).is_none());
}

#[test]
fn demo_process_plan() {
    let p = launch();
    assert_eq!(p.code_page, USER_CODE_ADDR);
    assert_eq!(p.stack_page, 0x6666_6665_f000);
    assert_eq!(p.stack_region, (0x6666_6665_f000, 0x6666_6666_0000));
    assert_eq!(p.entry, USER_CODE_ADDR);
    assert_eq!(&p.program[55..], b"Hello from ring 3!\n");
}

#[test]
fn built_in_programs_load() {
    let hello = b"not an elf".to_vec();
    let (bytes, plan) = run_init(&hello);
    assert_eq!(&bytes[0..4], b"\x7fELF");
    assert_eq!(plan.bias, 0);
    assert_eq!(plan.entry, 0x7777_7777_0000);
    assert_eq!(plan.segments.len(), 1);
    assert_eq!(plan.segments[0].first_page, 0x7777_7777_0000);
    assert_eq!(plan.segments[0].region.0, 0x7777_7777_0000);
    assert!(plan.dynamic.is_none());
    let (_, plan) = run_forker(&hello);
    assert_eq!(plan.entry, 0x4000_0000_0000);
    let (bytes, plan) = run_pie_demo(&hello);
    assert_eq!(bytes.len(), 330);
    assert_eq!(plan.bias, PIE_DEMO_LOAD_BASE);
    assert_eq!(plan.entry, PIE_DEMO_LOAD_BASE + 176);
    assert_eq!(plan.dynamic, Some(PIE_DEMO_LOAD_BASE + 220));
    assert_eq!(plan.user_stack, 0x3aaa_aaaa_0000);
    assert!(!can_load(&hello, HELLO_STACK_TOP, 0));
    let (init_bytes, _) = run_init(&hello);
    assert!(can_load(&init_bytes, HELLO_STACK_TOP, 0));
    let (bytes, plan) = run_hello(&init_bytes);
    assert_eq!(bytes, init_bytes);
    assert_eq!(plan.stack_region.1, HELLO_STACK_TOP);
}

#[test]
fn key_queue_is_first_in_first_out() {
    let mut q = std::collections::VecDeque::new();
    assert_eq!(try_pop_char(&mut q), None);
    push_char(&mut q, 'a');
    push_char(&mut q, 'b');
    assert_eq!(try_pop_char(&mut q), Some('a'));
    assert_eq!(try_pop_char(&mut q), Some('b'));
    assert_eq!(try_pop_char(&mut q), None);
}

#[test]
fn scancode_make_code_queues_its_character() {
    let mut d = new_decoder();
    let mut q = std::collections::VecDeque::new();
    assert_eq!(handle_scancode(&mut d, &mut q, 0x1E), Some('a'));
    assert_eq!(q.iter().copied().collect::<Vec<char>>(), vec!['a']);
    // Releasing the key types nothing and leaves the queue as it was.
    assert_eq!(handle_scancode(&mut d, &mut q, 0x9E), None);
    assert_eq!(q.len(), 1);
    // With left shift held the same key types the capital letter.
    assert_eq!(handle_scancode(&mut d, &mut q, 0x2A), None);
    assert_eq!(handle_scancode(&mut d, &mut q, 0x1E), Some('A'));
    assert_eq!(q.iter().copied().collect::<Vec<char>>(), vec!['a', 'A']);
}
