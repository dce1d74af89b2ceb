//! The UHCI host controller and the boot-protocol keyboard behind it: the
//! transfer descriptors the kernel builds, how it reads their status, and
//! how keyboard reports become typed characters.
use vstd::prelude::*;

verus! {

pub const PIIX3_USB_VENDOR: u16 = 0x8086;

pub const PIIX3_USB_DEVICE: u16 = 0x7020;

pub const REG_USBCMD: u16 = 0x00;

pub const REG_FRNUM: u16 = 0x06;

pub const REG_FRBASEADD: u16 = 0x08;

pub const REG_PORTSC1: u16 = 0x10;

pub const REG_PORTSC2: u16 = 0x12;

pub const USBCMD_RUN: u16 = 0x1;

pub const USBCMD_HCRESET: u16 = 0x2;

pub const USBCMD_GRESET: u16 = 0x4;

pub const USBCMD_MAXP64: u16 = 0x80;

pub const PORTSC_CONNECT_STATUS: u16 = 0x1;

pub const PORTSC_PORT_ENABLE: u16 = 0x4;

pub const PORTSC_RESET: u16 = 0x200;

pub const TD_LINK_TERMINATE: u32 = 0x1;

pub const TD_LINK_DEPTH_FIRST: u32 = 0x4;

pub const TD_STATUS_ACTIVE: u32 = 0x80_0000;

pub const TD_STATUS_LOW_SPEED: u32 = 0x400_0000;

pub const TD_STATUS_CERR_ONE: u32 = 0x800_0000;

pub const TD_STATUS_ERROR_MASK: u32 = 0xE_0000;

pub const PID_IN: u32 = 0x69;

pub const PID_SETUP: u32 = 0x2D;

pub const QH_LINK_TERMINATE: u32 = 0x1;

pub const QH_LINK_IS_QH: u32 = 0x2;

/// SET_ADDRESS to 1.
pub const SETUP_SET_ADDRESS: [u8; 8] = [0x00, 0x05, 0x01, 0x00, 0x00, 0x00, 0x00, 0x00];

/// SET_CONFIGURATION to 1.
pub const SETUP_SET_CONFIGURATION: [u8; 8] = [0x00, 0x09, 0x01, 0x00, 0x00, 0x00, 0x00, 0x00];

/// SET_PROTOCOL to the boot protocol.
pub const SETUP_SET_BOOT_PROTOCOL: [u8; 8] = [0x21, 0x0B, 0x00, 0x00, 0x00, 0x00, 0x00, 0x00];

/// The token word of a transfer descriptor: the packet id, device address,
/// endpoint, data toggle and maximum length (length minus one; `0x7FF` for
/// no data).
pub open spec fn token_spec(pid: u32, device: u8, endpoint: u8, data1: bool, len: usize) -> u32 {
    let max_len: u32 = if len == 0 {
        0x7FF
    } else {
        (len - 1) as u32
    };
    pid | ((device as u32) << 8u32) | ((endpoint as u32) << 15u32) | ((if data1 {
        1u32
    } else {
        0u32
    }) << 19u32) | (max_len << 21u32)
}

/// The token word of a transfer descriptor.
pub fn make_token(pid: u32, device: u8, endpoint: u8, data1: bool, len: usize) -> (r: u32)
    requires
        len <= 0x800,
    ensures
        r == token_spec(pid, device, endpoint, data1, len),
{
    let max_len: u32 = if len == 0 {
        0x7FF
    } else {
        (len - 1) as u32
    };
    let toggle: u32 = if data1 {
        1
    } else {
        0
    };
    pid | ((device as u32) << 8u32) | ((endpoint as u32) << 15u32) | (toggle << 19u32) | (max_len
        << 21u32)
}

/// How a chain of transfer descriptors stands, from their status words in
/// chain order.
#[derive(Debug, Clone, Copy, PartialEq, Eq, Structural)]
pub enum ChainStatus {
    /// Every descriptor completed.
    Done,
    /// A descriptor reports an error.
    Failed,
    /// Still running.
    Pending,
}

/// The status of the chain from descriptor `i` on: the first descriptor
/// with an error bit fails it, the first still active keeps it pending.
pub open spec fn chain_status_from(statuses: Seq<u32>, i: int) -> ChainStatus
    decreases statuses.len() - i,
{
    if i >= statuses.len() || i < 0 {
        ChainStatus::Done
    } else if statuses[i] & TD_STATUS_ERROR_MASK != 0 {
        ChainStatus::Failed
    } else if statuses[i] & TD_STATUS_ACTIVE != 0 {
        ChainStatus::Pending
    } else {
        chain_status_from(statuses, i + 1)
    }
}

/// One look at a descriptor chain's status words.
pub fn td_chain_status(statuses: &[u32]) -> (r: ChainStatus)
    ensures
        r == chain_status_from(statuses@, 0),
{
    let mut i: usize = 0;
    while i < statuses.len()
        invariant
            i <= statuses@.len(),
            chain_status_from(statuses@, 0) == chain_status_from(statuses@, i as int),
        decreases statuses@.len() - i,
    {
        let status = statuses[i];
        if status & TD_STATUS_ERROR_MASK != 0 {
            return ChainStatus::Failed;
        }
        if status & TD_STATUS_ACTIVE != 0 {
            return ChainStatus::Pending;
        }
        i = i + 1;
    }
    ChainStatus::Done
}

/// The character a boot-keyboard usage code types, with or without shift.
pub open spec fn usage_char(usage: u8, shift: bool) -> Option<char> {
    let pick = |plain: char, shifted: char|
        Some(
            if shift {
                shifted
            } else {
                plain
            },
        );
    if 0x04 <= usage <= 0x1D {
        Some(
            ((if shift {
                'A' as int
            } else {
                'a' as int
            }) + (usage - 0x04)) as char,
        )
    } else if 0x1E <= usage <= 0x27 {
        Some(
            if shift {
                DIGITS_SHIFTED@[usage - 0x1E]
            } else {
                DIGITS@[usage - 0x1E]
            },
        )
    } else if usage == 0x28 {
        Some('\n')
    } else if usage == 0x2A {
        Some('\u{8}')
    } else if usage == 0x2B {
        Some('\t')
    } else if usage == 0x2C {
        Some(' ')
    } else if usage == 0x2D {
        pick('-', '_')
    } else if usage == 0x2E {
        pick('=', '+')
    } else if usage == 0x2F {
        pick('[', '{')
    } else if usage == 0x30 {
        pick(']', '}')
    } else if usage == 0x31 {
        pick('\\', '|')
    } else if usage == 0x33 {
        pick(';', ':')
    } else if usage == 0x34 {
        pick('\'', '"')
    } else if usage == 0x35 {
        pick('`', '~')
    } else if usage == 0x36 {
        pick(',', '<')
    } else if usage == 0x37 {
        pick('.', '>')
    } else if usage == 0x38 {
        pick('/', '?')
    } else {
        None
    }
}

/// The digit row, unshifted.
pub const DIGITS: [char; 10] = ['1', '2', '3', '4', '5', '6', '7', '8', '9', '0'];

/// The digit row, shifted.
pub const DIGITS_SHIFTED: [char; 10] = ['!', '@', '#', '$', '%', '^', '&', '*', '(', ')'];

fn pick(shift: bool, plain: char, shifted: char) -> (r: Option<char>)
    ensures
        r == Some(
            if shift {
                shifted
            } else {
                plain
            },
        ),
{
    Some(
        if shift {
            shifted
        } else {
            plain
        },
    )
}

/// The character a boot-keyboard usage code types, with or without shift.
pub fn usage_to_char(usage: u8, shift: bool) -> (r: Option<char>)
    ensures
        r == usage_char(usage, shift),
{
    if 0x04 <= usage && usage <= 0x1D {
        let base: u8 = if shift {
            0x41
        } else {
            0x61
        };
        let letter = base + (usage - 0x04);
        Some(letter as char)
    } else if 0x1E <= usage && usage <= 0x27 {
        let i = (usage - 0x1E) as usize;
        Some(
            if shift {
                DIGITS_SHIFTED[i]
            } else {
                DIGITS[i]
            },
        )
    } else if usage == 0x28 {
        Some('\n')
    } else if usage == 0x2A {
        Some('\u{8}')
    } else if usage == 0x2B {
        Some('\t')
    } else if usage == 0x2C {
        Some(' ')
    } else if usage == 0x2D {
        pick(shift, '-', '_')
    } else if usage == 0x2E {
        pick(shift, '=', '+')
    } else if usage == 0x2F {
        pick(shift, '[', '{')
    } else if usage == 0x30 {
        pick(shift, ']', '}')
    } else if usage == 0x31 {
        pick(shift, '\\', '|')
    } else if usage == 0x33 {
        pick(shift, ';', ':')
    } else if usage == 0x34 {
        pick(shift, '\'', '"')
    } else if usage == 0x35 {
        pick(shift, '`', '~')
    } else if usage == 0x36 {
        pick(shift, ',', '<')
    } else if usage == 0x37 {
        pick(shift, '.', '>')
    } else if usage == 0x38 {
        pick(shift, '/', '?')
    } else {
        None
    }
}

/// Either shift key is down in a report's modifier byte.
pub open spec fn shift_held(modifiers: u8) -> bool {
    modifiers & 0x22 != 0
}

/// The characters a new keyboard report types, in key-slot order: each key
/// in bytes 2..8 that is down now and was not down in the last report, and
/// that types something.
pub open spec fn new_chars(report: Seq<u8>, last: Seq<u8>) -> Seq<char> {
    new_chars_from(report, last, 2)
}

/// `new_chars` from key slot `k` on.
pub open spec fn new_chars_from(report: Seq<u8>, last: Seq<u8>, k: int) -> Seq<char>
    decreases 8 - k,
{
    if k >= 8 || k < 2 {
        Seq::empty()
    } else {
        let usage = report[k];
        let rest = new_chars_from(report, last, k + 1);
        if usage == 0 || last.subrange(2, 8).contains(usage) {
            rest
        } else {
            match usage_char(usage, shift_held(report[0])) {
                Some(c) => seq![c] + rest,
                None => rest,
            }
        }
    }
}

fn held_before(last: &[u8; 8], usage: u8) -> (r: bool)
    ensures
        r == last@.subrange(2, 8).contains(usage),
{
    let mut k: usize = 2;
    while k < 8
        invariant
            2 <= k <= 8,
            forall|j: int| 2 <= j < k ==> last@[j] != usage,
        decreases 8 - k,
    {
        if last[k] == usage {
            assert(last@.subrange(2, 8)[k - 2] == usage);
            return true;
        }
        k = k + 1;
    }
    assert forall|j: int| 0 <= j < 6 implies last@.subrange(2, 8)[j] != usage by {
        assert(last@.subrange(2, 8)[j] == last@[j + 2]);
    }
    false
}

/// The characters a keyboard report types that the last report did not.
pub fn report_chars(report: &[u8; 8], last: &[u8; 8]) -> (r: Vec<char>)
    ensures
        r@ == new_chars(report@, last@),
{
    let shift = report[0] & 0x22 != 0;
    let mut out: Vec<char> = Vec::new();
    let mut k: usize = 8;
    while k > 2
        invariant
            2 <= k <= 8,
            shift == shift_held(report@[0]),
            out@ == new_chars_from(report@, last@, k as int),
        decreases k,
    {
        k = k - 1;
        let usage = report[k];
        if usage != 0 && !held_before(last, usage) {
            match usage_to_char(usage, shift) {
                Some(c) => {
                    let mut next: Vec<char> = Vec::new();
                    next.push(c);
                    let mut j: usize = 0;
                    let ghost tail = out@;
                    while j < out.len()
                        invariant
                            j <= out@.len(),
                            out@ == tail,
                            next@ == seq![c] + tail.take(j as int),
                        decreases out@.len() - j,
                    {
                        next.push(out[j]);
                        j = j + 1;
                        assert(next@ =~= seq![c] + tail.take(j as int));
                    }
                    assert(tail.take(tail.len() as int) =~= tail);
                    out = next;
                },
                None => {},
            }
        }
    }
    out
}

/// What the keyboard poll decides after the interrupt transfer's descriptor
/// has been looked at.
#[derive(Debug, Clone, Copy, PartialEq, Eq, Structural)]
pub enum PollStep {
    /// The transfer is still running: look again later.
    Wait,
    /// The transfer failed: flip the toggle and re-arm.
    Rearm,
    /// A report arrived: handle it, flip the toggle and re-arm.
    Report,
}

/// The keyboard poll's decision from the descriptor's status word.
pub fn poll_step(ctrl_status: u32) -> (r: PollStep)
    ensures
        r == (if ctrl_status & TD_STATUS_ACTIVE != 0 {
            PollStep::Wait
        } else if ctrl_status & TD_STATUS_ERROR_MASK != 0 {
            PollStep::Rearm
        } else {
            PollStep::Report
        }),
{
    if ctrl_status & TD_STATUS_ACTIVE != 0 {
        PollStep::Wait
    } else if ctrl_status & TD_STATUS_ERROR_MASK != 0 {
        PollStep::Rearm
    } else {
        PollStep::Report
    }
}

/// The keyboard driver's state between polls.
pub struct KeyboardState {
    /// The keyboard answered its set-up requests and is being polled.
    pub ready: bool,
    /// The data toggle of the next interrupt transfer.
    pub toggle: bool,
    /// The last report handled.
    pub last_report: [u8; 8],
}

/// Whether a keyboard was brought up and is being polled.
pub fn keyboard_ready(state: &KeyboardState) -> (r: bool)
    ensures
        r == state.ready,
{
    state.ready
}

/// Takes in a completed report: the characters it types (none when it
/// equals the last one) and the state for the next poll, whose toggle is
/// flipped.
pub fn take_report(state: &mut KeyboardState, report: [u8; 8]) -> (r: Vec<char>)
    ensures
        r@ == (if report@ == old(state).last_report@ {
            Seq::empty()
        } else {
            new_chars(report@, old(state).last_report@)
        }),
        final(state).last_report == report,
        final(state).toggle == !old(state).toggle,
        final(state).ready == old(state).ready,
{
    let mut same = true;
    let mut k: usize = 0;
    while k < 8
        invariant
            k <= 8,
            same == (forall|j: int| 0 <= j < k ==> report@[j] == state.last_report@[j]),
        decreases 8 - k,
    {
        if report[k] != state.last_report[k] {
            same = false;
        }
        k = k + 1;
    }
    let chars = if same {
        assert(report@ =~= state.last_report@);
        Vec::new()
    } else {
        report_chars(&report, &state.last_report)
    };
    state.last_report = report;
    state.toggle = !state.toggle;
    chars
}

/// The token of the keyboard's interrupt-IN transfer: endpoint 1 of
/// `device`, eight bytes, with the current data toggle.
pub fn interrupt_token(device: u8, toggle: bool) -> (r: u32)
    ensures
        r == token_spec(PID_IN, device, 1, toggle, 8),
{
    make_token(PID_IN, device, 1, toggle, 8)
}

/// How many of the two root ports have a device, and the register of the
/// first one that does (where the keyboard is looked for).
pub fn connected_ports(portsc1: u16, portsc2: u16) -> (r: (usize, Option<u16>))
    ensures
        r.0 == (if portsc1 & PORTSC_CONNECT_STATUS != 0 { 1int } else { 0int }) + (if portsc2
            & PORTSC_CONNECT_STATUS != 0 { 1int } else { 0int }),
        r.1 == (if portsc1 & PORTSC_CONNECT_STATUS != 0 {
            Some(REG_PORTSC1)
        } else if portsc2 & PORTSC_CONNECT_STATUS != 0 {
            Some(REG_PORTSC2)
        } else {
            None::<u16>
        }),
{
    let mut connected: usize = 0;
    let mut kb: Option<u16> = None;
    if portsc1 & PORTSC_CONNECT_STATUS != 0 {
        connected = connected + 1;
        kb = Some(REG_PORTSC1);
    }
    if portsc2 & PORTSC_CONNECT_STATUS != 0 {
        connected = connected + 1;
        if kb.is_none() {
            kb = Some(REG_PORTSC2);
        }
    }
    (connected, kb)
}

/// Whether a port's status says a device is connected.
pub fn port_connected(status: u16) -> (r: bool)
    ensures
        r == (status & PORTSC_CONNECT_STATUS != 0),
{
    status & PORTSC_CONNECT_STATUS != 0
}

/// A transfer descriptor as the controller reads it.
#[derive(Debug, Clone, Copy, PartialEq, Eq, Structural)]
pub struct Td {
    pub link: u32,
    pub ctrl_status: u32,
    pub token: u32,
    pub buffer: u32,
}

/// The status word a new descriptor starts with: active, one retry, low
/// speed when asked.
pub open spec fn fresh_status(low_speed: bool) -> u32 {
    TD_STATUS_ACTIVE | TD_STATUS_CERR_ONE | (if low_speed {
        TD_STATUS_LOW_SPEED
    } else {
        0u32
    })
}

/// The two descriptors of a control transfer without a data stage, to
/// `device`: SETUP with the eight bytes at `setup_buf_phys`, linked depth
/// first to the status stage (an empty IN with toggle 1) at `status_td_phys`.
/// The device still at address 0 is the freshly reset keyboard, addressed
/// at low speed.
pub fn control_tds(device: u8, setup_buf_phys: u32, status_td_phys: u32) -> (r: (Td, Td))
    ensures
        r.0 == (Td {
            link: status_td_phys | TD_LINK_DEPTH_FIRST,
            ctrl_status: fresh_status(device == 0),
            token: token_spec(PID_SETUP, device, 0, false, 8),
            buffer: setup_buf_phys,
        }),
        r.1 == (Td {
            link: TD_LINK_TERMINATE,
            ctrl_status: fresh_status(device == 0),
            token: token_spec(PID_IN, device, 0, true, 0),
            buffer: 0,
        }),
{
    let low_speed = if device == 0 {
        TD_STATUS_LOW_SPEED
    } else {
        0
    };
    let status_td = Td {
        link: TD_LINK_TERMINATE,
        ctrl_status: TD_STATUS_ACTIVE | TD_STATUS_CERR_ONE | low_speed,
        token: make_token(PID_IN, device, 0, true, 0),
        buffer: 0,
    };
    let setup_td = Td {
        link: status_td_phys | TD_LINK_DEPTH_FIRST,
        ctrl_status: TD_STATUS_ACTIVE | TD_STATUS_CERR_ONE | low_speed,
        token: make_token(PID_SETUP, device, 0, false, 8),
        buffer: setup_buf_phys,
    };
    (setup_td, status_td)
}

/// The descriptor of the keyboard's interrupt transfer: eight bytes into
/// the report buffer at `buf_phys`, at low speed, with the current toggle.
pub fn interrupt_td(device: u8, toggle: bool, buf_phys: u32) -> (r: Td)
    ensures
        r == (Td {
            link: TD_LINK_TERMINATE,
            ctrl_status: fresh_status(true),
            token: token_spec(PID_IN, device, 1, toggle, 8),
            buffer: buf_phys,
        }),
{
    Td {
        link: TD_LINK_TERMINATE,
        ctrl_status: TD_STATUS_ACTIVE | TD_STATUS_CERR_ONE | TD_STATUS_LOW_SPEED,
        token: interrupt_token(device, toggle),
        buffer: buf_phys,
    }
}

/// Where the enumeration of a freshly reset keyboard stands.
#[derive(Debug, Clone, Copy, PartialEq, Eq, Structural)]
pub enum Enumeration {
    /// SET_ADDRESS 1 was sent to address 0.
    Addressing,
    /// SET_CONFIGURATION 1 was sent to address 1.
    Configuring,
    /// SET_PROTOCOL (boot) was sent to address 1.
    SettingProtocol,
    /// The keyboard answers at address 1: arm its interrupt transfer.
    Ready,
    /// The keyboard did not answer; it is left alone.
    Abandoned,
}

/// A control transfer without data: the device address and the setup packet.
#[derive(Debug, Clone, Copy)]
pub struct ControlRequest {
    pub device: u8,
    pub setup: [u8; 8],
}

/// The first request of the enumeration once the port is reset and
/// enabled, or nothing when no device stayed connected.
pub fn enumeration_start(connected: bool) -> (r: (Enumeration, Option<ControlRequest>))
    ensures
        r == (if connected {
            (Enumeration::Addressing, Some(ControlRequest { device: 0, setup: SETUP_SET_ADDRESS }))
        } else {
            (Enumeration::Abandoned, None::<ControlRequest>)
        }),
{
    if connected {
        (Enumeration::Addressing, Some(ControlRequest { device: 0, setup: SETUP_SET_ADDRESS }))
    } else {
        (Enumeration::Abandoned, None)
    }
}

/// The next step of the enumeration after a request completed (`ok`) or
/// failed: setting the address and the configuration must succeed; the
/// keyboard is used whether or not it takes the boot protocol. The device
/// keeps address 1 from the address step on.
pub open spec fn enumeration_next(state: Enumeration, ok: bool) -> (Enumeration, Option<
    ControlRequest,
>) {
    match state {
        Enumeration::Addressing => if ok {
            (
                Enumeration::Configuring,
                Some(ControlRequest { device: 1, setup: SETUP_SET_CONFIGURATION }),
            )
        } else {
            (Enumeration::Abandoned, None)
        },
        Enumeration::Configuring => if ok {
            (
                Enumeration::SettingProtocol,
                Some(ControlRequest { device: 1, setup: SETUP_SET_BOOT_PROTOCOL }),
            )
        } else {
            (Enumeration::Abandoned, None)
        },
        Enumeration::SettingProtocol => (Enumeration::Ready, None),
        Enumeration::Ready => (Enumeration::Ready, None),
        Enumeration::Abandoned => (Enumeration::Abandoned, None),
    }
}

/// The next step of the enumeration (see `enumeration_next`).
pub fn enumeration_step(state: Enumeration, ok: bool) -> (r: (Enumeration, Option<ControlRequest>))
    ensures
        r == enumeration_next(state, ok),
{
    match state {
        Enumeration::Addressing => if ok {
            (
                Enumeration::Configuring,
                Some(ControlRequest { device: 1, setup: SETUP_SET_CONFIGURATION }),
            )
        } else {
            (Enumeration::Abandoned, None)
        },
        Enumeration::Configuring => if ok {
            (
                Enumeration::SettingProtocol,
                Some(ControlRequest { device: 1, setup: SETUP_SET_BOOT_PROTOCOL }),
            )
        } else {
            (Enumeration::Abandoned, None)
        },
        Enumeration::SettingProtocol => (Enumeration::Ready, None),
        Enumeration::Ready => (Enumeration::Ready, None),
        Enumeration::Abandoned => (Enumeration::Abandoned, None),
    }
}

/// The enumeration ends after at most three requests, with the keyboard
/// ready exactly when the address and the configuration were set; once
/// ended it stays where it is and asks for nothing more.
pub proof fn lemma_enumeration_outcome(ok1: bool, ok2: bool, ok3: bool)
    ensures
        ({
            let s1 = enumeration_next(Enumeration::Addressing, ok1).0;
            let s2 = enumeration_next(s1, ok2).0;
            let s3 = enumeration_next(s2, ok3).0;
            &&& (s3 == Enumeration::Ready) <==> (ok1 && ok2)
            &&& (s3 == Enumeration::Ready || s3 == Enumeration::Abandoned)
            &&& forall|ok: bool| #[trigger] enumeration_next(s3, ok) == (s3, None::<ControlRequest>)
        }),
{
}

/// The port-status values the reset sequence writes, each from the status
/// just read: reset on, reset off, then enabled.
pub fn port_reset_on(status: u16) -> (r: u16)
    ensures
        r == status | PORTSC_RESET,
{
    status | PORTSC_RESET
}

/// See `port_reset_on`.
pub fn port_reset_off(status: u16) -> (r: u16)
    ensures
        r == status & !PORTSC_RESET,
{
    status & !PORTSC_RESET
}

/// See `port_reset_on`.
pub fn port_enable(status: u16) -> (r: u16)
    ensures
        r == status | PORTSC_PORT_ENABLE,
{
    status | PORTSC_PORT_ENABLE
}

} // verus!
