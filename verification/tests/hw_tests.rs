use oxide::acpi::{absorb_table, available, cpu_apic_ids, local_apic_phys, rsdt_address, rsdt_entries, shutdown_write, AcpiInfo};
use oxide::interrupts::{
    fault_was_write, init_idt, is_user_mode, load_idt_on_ap, page_fault_outcome,
    protection_fault_outcome,
    FaultOutcome, Handler, InterruptIndex,
};
use oxide::memory::{
    child_flags_after_fork, contiguous, flags_after_cow_copy, fork_pages, is_cow_fault, is_region_ok,
    parent_flags_after_fork,
    pml4_index, AddressSpace, BootInfoFrameAllocator, MemRegion,
};
use oxide::pci::{find_device, PciDevice};
use oxide::percpu::{cpu_id, init_this_cpu, set_syscall_stack_top, tss_ptr, user_rip_scratch, user_rsp_scratch};
use oxide::smp::{ap_targets, halt_other_cores, initial_apic_id, lapic_eoi, lapic_prepared, startup_ipis, Lapic};
use oxide::usb::{
    control_tds, enumeration_start, enumeration_step, interrupt_td, make_token, port_enable,
    port_reset_off, port_reset_on, report_chars, take_report, td_chain_status, usage_to_char,
    ChainStatus, Enumeration, KeyboardState, keyboard_ready, PID_IN, PID_SETUP,
    SETUP_SET_ADDRESS, SETUP_SET_BOOT_PROTOCOL, SETUP_SET_CONFIGURATION,
};
use oxide::virtio_blk::{capacity_from_config, capacity_sectors, new_driver, read_sector, write_sector};
use oxide::virtio_net::{mac_address, received, VirtioNet};
use oxide::virtqueue::{avail_slot, next_index, queue_layout, used_slot};
use oxide::QemuExitCode;

fn config_space(addr: u32) -> u32 {
    let device = (addr >> 11) & 0x1f;
    let function = (addr >> 8) & 0x7;
    let offset = addr & 0xfc;
    match (device, function, offset) {
        (0, 0, 0) => 0x1237_8086,
        (1, 2, 0) => 0x7020_8086,
        (1, 2, 0x04) => 0x0000_0100,
        (1, 2, 0x20) => 0x0000_c041,
        (1, 2, 0x10) => 0xfebf_0000,
        (3, 0, 0) => 0x1001_1af4,
        _ if offset == 0 => 0xffff_ffff,
        _ => 0,
    }
}

#[test]
fn pci_scan_finds_first_match() {
    let read = |a: u32| config_space(a);
    let dev = find_device(0x8086, 0x7020, &read).unwrap();
    assert_eq!((dev.bus, dev.device, dev.function), (0, 1, 2));
    assert!(find_device(0x1af4, 0x1000, &read).is_none());
    assert_eq!(find_device(0x1af4, 0x1001, &read).unwrap().device, 3);
    assert_eq!(dev.vendor_id(&read), 0x8086);
    assert_eq!(dev.device_id(&read), 0x7020);
    assert_eq!(dev.read_u16(&read, 0x02), 0x7020);
    assert_eq!(dev.io_bar(&read, 4), Some(0xc040));
    assert_eq!(dev.io_bar(&read, 0), None);
    assert_eq!(dev.enable_bus_mastering_and_io(&read), (0x8000_0a04, 0x0000_0105));
    assert_eq!(PciDevice { bus: 1, device: 2, function: 3 }.address(0x13), 0x8001_1310);
}

#[test]
fn acpi_tables() {
    let mut rsdp = b"RSD PTR ".to_vec();
    rsdp.extend_from_slice(&[0; 8]);
    rsdp.extend_from_slice(&0x7fe_0000u32.to_le_bytes());
    assert_eq!(rsdt_address(&rsdp), Some(0x7fe_0000));
    assert_eq!(rsdt_address(&[0u8; 20]), None);

    let mut rsdt = b"RSDT".to_vec();
    rsdt.extend_from_slice(&44u32.to_le_bytes());
    rsdt.resize(36, 0);
    rsdt.extend_from_slice(&0x1000u32.to_le_bytes());
    rsdt.extend_from_slice(&0x2000u32.to_le_bytes());
    assert_eq!(rsdt_entries(&rsdt), Some(vec![0x1000, 0x2000]));

    let mut info = AcpiInfo::new();
    let mut fadt = b"FACP".to_vec();
    fadt.resize(68, 0);
    fadt[64..68].copy_from_slice(&0x604u32.to_le_bytes());
    absorb_table(&mut info, &fadt);
    assert!(available(&info));
    assert_eq!(shutdown_write(&info), Some((0x604, 0x2000)));

    let mut madt = b"APIC".to_vec();
    madt.resize(36, 0);
    madt.extend_from_slice(&0xfee0_0000u32.to_le_bytes());
    madt.extend_from_slice(&[0; 4]);
    for (id, flags) in [(0u8, 1u32), (1, 1), (2, 0)] {
        madt.extend_from_slice(&[0, 8, id, id]);
        madt.extend_from_slice(&flags.to_le_bytes());
    }
    madt.extend_from_slice(&[1, 12, 0, 0, 0, 0, 0, 0, 0, 0, 0, 0]);
    let len = madt.len() as u32;
    madt[4..8].copy_from_slice(&len.to_le_bytes());
    madt.resize(68.max(madt.len()), 0);
    absorb_table(&mut info, &madt);
    assert_eq!(cpu_apic_ids(&info), vec![0, 1]);
    assert_eq!(local_apic_phys(&info), Some(0xfee0_0000));
    assert_eq!(local_apic_phys(&AcpiInfo::new()), None);
}

#[test]
fn interrupt_table() {
    assert_eq!(InterruptIndex::Timer.as_u8(), 32);
    assert_eq!(InterruptIndex::Keyboard.as_u8(), 33);
    let t = init_idt();
    assert_eq!(t.len(), 17);
    assert_eq!(t[0], (32, Handler::Timer));
    assert_eq!(t[1], (33, Handler::Keyboard));
    assert_eq!(t[2], (0x40, Handler::LapicTimer));
    assert!(t[3..].iter().all(|&(v, h)| (34..=47).contains(&v) && h == Handler::Spurious));
    assert!(is_user_mode(0x23));
    assert!(!is_user_mode(0x08));
}

#[test]
fn frame_allocator_skips_what_it_must() {
    let regions = vec![
        MemRegion { start: 0x0, end: 0x1000, usable: false },
        MemRegion { start: 0x7000, end: 0xA000, usable: true },
        MemRegion { start: 0x10000, end: 0x11000, usable: true },
    ];
    let mut a = BootInfoFrameAllocator::init(regions);
    assert_eq!(a.allocate_frame(), Some(0x7000));
    assert_eq!(a.allocate_frame(), Some(0x9000), "the start-up page is skipped");
    assert_eq!(a.allocate_frame(), Some(0x10000));
    assert_eq!(a.allocate_frame(), None);
    assert_eq!(a.allocate_frame(), None);
}

#[test]
fn address_space_regions_and_cow_flags() {
    let mut s = AddressSpace::new(0x5000);
    assert!(!s.contains(0x1000, 0x1001));
    s.register_region(0x1000, 0x3000);
    assert!(s.contains(0x1000, 0x3000));
    assert!(!s.contains(0x1000, 0x3001));
    assert_eq!(s.cr3_frame(), 0x5000);
    assert_eq!(pml4_index(0x0000_8000_0000_0000), 256);
    let flags = 0x7;
    let p = parent_flags_after_fork(flags);
    assert_eq!(p, 0x205);
    assert_eq!(child_flags_after_fork(flags), 0x205);
    assert_eq!(parent_flags_after_fork(0x5), 0x5);
    assert!(is_cow_fault(p));
    assert_eq!(flags_after_cow_copy(p), flags);
    assert!(contiguous(&[0x1000, 0x2000, 0x3000]));
    assert!(!contiguous(&[0x1000, 0x3000]));
}

#[test]
fn per_cpu_block() {
    let mut b = init_this_cpu(3, 0xdead);
    assert_eq!(cpu_id(&b), 3);
    assert_eq!(tss_ptr(&b), 0xdead);
    set_syscall_stack_top(&mut b, 0x9000);
    assert_eq!(b.syscall_stack_top, 0x9000);
    b.user_rip_scratch = 1;
    b.user_rsp_scratch = 2;
    assert_eq!((user_rip_scratch(&b), user_rsp_scratch(&b)), (1, 2));
}

#[test]
fn smp_start_up() {
    assert_eq!(initial_apic_id(0x0300_0800), 3);
    assert_eq!(ap_targets(Some(0xfee0_0000), &[0, 1, 2, 3], 0), vec![1, 2, 3]);
    assert!(ap_targets(None, &[0, 1], 0).is_empty());
    assert!(ap_targets(Some(1), &[0], 0).is_empty());
    let ipis = startup_ipis(2);
    assert_eq!(ipis[0], (0x0200_0000, 0x4500));
    assert_eq!(ipis[2], (0x0200_0000, 0x608));
    assert!(!lapic_prepared(&Lapic { virt: 0 }));
    assert_eq!(halt_other_cores(&Lapic { virt: 0 }), None);
    assert_eq!(halt_other_cores(&Lapic { virt: 0xfee0_0000 }), Some((0x300, 0xC_4400)));
    assert_eq!(lapic_eoi(), (0xB0, 0));
}

#[test]
fn usb_keyboard() {
    assert_eq!(make_token(PID_IN, 1, 1, true, 8), 0x69 | (1 << 8) | (1 << 15) | (1 << 19) | (7 << 21));
    assert_eq!(make_token(0x2D, 0, 0, false, 0) >> 21, 0x7FF);
    assert_eq!(usage_to_char(0x04, false), Some('a'));
    assert_eq!(usage_to_char(0x1D, true), Some('Z'));
    assert_eq!(usage_to_char(0x1E, true), Some('!'));
    assert_eq!(usage_to_char(0x27, false), Some('0'));
    assert_eq!(usage_to_char(0x28, false), Some('\n'));
    assert_eq!(usage_to_char(0x38, true), Some('?'));
    assert_eq!(usage_to_char(0x32, false), None);
    assert_eq!(td_chain_status(&[0, 0]), ChainStatus::Done);
    assert_eq!(td_chain_status(&[0, 0x80_0000]), ChainStatus::Pending);
    assert_eq!(td_chain_status(&[0x2_0000, 0x80_0000]), ChainStatus::Failed);
    let last = [0, 0, 0x04, 0, 0, 0, 0, 0];
    let now = [0x02, 0, 0x04, 0x05, 0, 0, 0, 0];
    assert_eq!(report_chars(&now, &last), vec!['B']);
    let mut st = KeyboardState { ready: true, toggle: false, last_report: last };
    assert!(keyboard_ready(&st));
    assert_eq!(take_report(&mut st, now), vec!['B']);
    assert!(st.toggle);
    assert_eq!(take_report(&mut st, now), Vec::<char>::new());
}

#[test]
fn virtio() {
    let l = queue_layout(256);
    assert_eq!((l.desc_bytes, l.avail_bytes, l.used_offset, l.used_bytes, l.pages), (4096, 516, 8192, 2052, 3));
    assert_eq!(avail_slot(258, 256), 8);
    assert_eq!(used_slot(1, 256), 12);
    assert_eq!(next_index(u16::MAX), 0);
    assert_eq!(capacity_from_config([0, 8, 0, 0, 0, 0, 0, 0]), 2048);
    let d = new_driver(2048, 0x10_0000);
    assert_eq!(capacity_sectors(&Some(new_driver(7, 0))), Some(7));
    assert_eq!(capacity_sectors(&None), None);
    let r = read_sector(&d, 5);
    assert_eq!(r.header, vec![0, 0, 0, 0, 0, 0, 0, 0, 5, 0, 0, 0, 0, 0, 0, 0]);
    assert_eq!(r.descriptors[1].flags, 3);
    let w = write_sector(&d, 5);
    assert_eq!(w.header[0], 1);
    assert_eq!(w.descriptors[1].flags, 1);
    assert_eq!(w.descriptors[2].addr, 0x10_0400);
    let net = VirtioNet { mac: [1, 2, 3, 4, 5, 6], rx_buffers: [10, 11, 12, 13, 14, 15, 16, 17], tx_buffer: 0 };
    assert_eq!(mac_address(&Some(net)), Some([1, 2, 3, 4, 5, 6]));
    let net = VirtioNet { mac: [0; 6], rx_buffers: [10, 11, 12, 13, 14, 15, 16, 17], tx_buffer: 0 };
    assert_eq!(received(&net, 9, 70, 1600), (11, 60));
    assert_eq!(received(&net, 0, 4, 1600), (10, 0));
    assert_eq!(received(&net, 0, 2000, 1600), (10, 1600));
}

#[test]
fn qemu_exit_codes() {
    assert_eq!(QemuExitCode::Success.code(), 0x10);
    assert_eq!(QemuExitCode::Failed.code(), 0x11);
}

#[test]
fn fork_shares_each_page_of_the_regions_once() {
    let regions = [(0x40_0000u64, 0x40_1001u64), (0x40_0800, 0x40_0900), (0x80_0000, 0x80_0001)];
    let pages: Vec<u64> = fork_pages(&regions).into_iter().collect();
    assert_eq!(pages, vec![0x40_0000, 0x40_1000, 0x80_0000]);
    assert!(fork_pages(&[]).is_empty());
    assert!(fork_pages(&[(0x5000, 0x4000)]).is_empty());
}

#[test]
fn control_transfer_descriptors() {
    let (setup, status) = control_tds(0, 0x1000, 0x1040);
    assert_eq!(setup.link, 0x1044);
    assert_eq!(setup.ctrl_status, 0x0880_0000 | 0x0400_0000);
    assert_eq!(setup.token, make_token(PID_SETUP, 0, 0, false, 8));
    assert_eq!(setup.token, 0x00E0_002D);
    assert_eq!(setup.buffer, 0x1000);
    assert_eq!(status.link, 1);
    assert_eq!(status.token, 0xFFE8_0069);
    assert_eq!(status.buffer, 0);
    let (setup1, _) = control_tds(1, 0x2000, 0x2040);
    assert_eq!(setup1.ctrl_status, 0x0880_0000);
    assert_eq!(setup1.token, 0x00E0_012D);
    let int = interrupt_td(1, true, 0x3000);
    assert_eq!(int.ctrl_status, 0x0C80_0000);
    assert_eq!(int.token, make_token(PID_IN, 1, 1, true, 8));
    assert_eq!(int.buffer, 0x3000);
    assert_eq!(int.link, 1);
}

#[test]
fn keyboard_enumeration_steps() {
    let (s, req) = enumeration_start(true);
    assert!(s == Enumeration::Addressing);
    let req = req.unwrap();
    assert_eq!((req.device, req.setup), (0, SETUP_SET_ADDRESS));
    let (s, req) = enumeration_step(s, true);
    assert!(s == Enumeration::Configuring);
    let req = req.unwrap();
    assert_eq!((req.device, req.setup), (1, SETUP_SET_CONFIGURATION));
    let (s, req) = enumeration_step(s, true);
    assert!(s == Enumeration::SettingProtocol);
    assert_eq!(req.unwrap().setup, SETUP_SET_BOOT_PROTOCOL);
    let (s, req) = enumeration_step(s, false);
    assert!(s == Enumeration::Ready && req.is_none());
    let (s, req) = enumeration_step(Enumeration::Configuring, false);
    assert!(s == Enumeration::Abandoned && req.is_none());
    let (s, req) = enumeration_start(false);
    assert!(s == Enumeration::Abandoned && req.is_none());
    assert_eq!(port_reset_on(0x0005), 0x0205);
    assert_eq!(port_reset_off(0x0205), 0x0005);
    assert_eq!(port_enable(0x0001), 0x0005);
}

#[test]
fn fault_outcomes() {
    assert!(fault_was_write(0x2));
    assert!(fault_was_write(0x7));
    assert!(!fault_was_write(0x5));
    assert!(page_fault_outcome(true, 0x2b) == FaultOutcome::Resume);
    assert!(page_fault_outcome(false, 0x2b) == FaultOutcome::KillProcess);
    assert!(page_fault_outcome(false, 0x08) == FaultOutcome::Panic);
    assert!(protection_fault_outcome(0x23) == FaultOutcome::KillProcess);
    assert!(protection_fault_outcome(0x08) == FaultOutcome::Panic);
}

#[test]
fn canonical_regions() {
    assert!(is_region_ok((0x40_0000, 0x40_1000)));
    assert!(is_region_ok((0xFFFF_8000_0000_0000, 0xFFFF_8000_0000_1000)));
    assert!(!is_region_ok((0x1000, 0)));
    assert!(!is_region_ok((0x8000_0000_0000, 0x8000_0000_1000)));
    assert!(!is_region_ok((0x7FFF_FFFF_F000, 0x8000_0000_1000)));
}

#[test]
fn application_processors_load_the_same_table() {
    let bsp = init_idt();
    let ap = load_idt_on_ap();
    assert_eq!(bsp.len(), ap.len());
    for (a, b) in bsp.iter().zip(ap.iter()) {
        assert_eq!(a.0, b.0);
        assert!(a.1 == b.1);
    }
    assert_eq!(bsp.len(), 17);
}
