//! The host-side launcher: which firmware it boots the kernel image with,
//! and the exit code it reports from QEMU's.
use vstd::prelude::*;

verus! {

/// The firmware the kernel is booted with.
#[derive(Debug, Clone, Copy, PartialEq, Eq, Structural)]
pub enum BootMode {
    Bios,
    Uefi,
}

/// What the launcher does with its first argument.
#[derive(Debug, Clone, Copy, PartialEq, Eq, Structural)]
pub enum Launch {
    /// Boot with this firmware.
    Boot(BootMode),
    /// Print the usage and exit with 0.
    Help,
    /// Print the usage to the error stream and exit with 1.
    Usage,
}

/// What `str::to_lowercase` makes of `s`.
pub uninterp spec fn lowercase(s: Seq<char>) -> Seq<char>;

/// `str::to_lowercase`: the result is named `lowercase` of the argument.
#[verifier::external_body]
fn to_lowercase(s: &str) -> (r: String)
    ensures
        r@ == lowercase(s@),
{
    s.to_lowercase()
}

/// What the launcher does for each lower-cased first argument (none: BIOS).
pub open spec fn launch_for(arg: Option<Seq<char>>) -> Launch {
    match arg {
        None => Launch::Boot(BootMode::Bios),
        Some(a) => if a == "uefi"@ {
            Launch::Boot(BootMode::Uefi)
        } else if a == "bios"@ {
            Launch::Boot(BootMode::Bios)
        } else if a == "-h"@ || a == "--help"@ {
            Launch::Help
        } else {
            Launch::Usage
        },
    }
}

/// Decides from the lower-cased first argument.
pub fn launch_of(arg: Option<&str>) -> (r: Launch)
    ensures
        r == launch_for(
            match arg {
                Some(a) => Some(a@),
                None => None,
            },
        ),
{
    match arg {
        None => Launch::Boot(BootMode::Bios),
        Some(a) => {
            let uefi = "uefi";
            let bios = "bios";
            let short = "-h";
            let long = "--help";
            if str_eq(a, uefi) {
                Launch::Boot(BootMode::Uefi)
            } else if str_eq(a, bios) {
                Launch::Boot(BootMode::Bios)
            } else if str_eq(a, short) || str_eq(a, long) {
                Launch::Help
            } else {
                Launch::Usage
            }
        },
    }
}

fn str_eq(a: &str, b: &str) -> (r: bool)
    ensures
        r == (a@ == b@),
{
    let x = a.as_bytes();
    let y = b.as_bytes();
    let r = crate::bytes::bytes_equal(x, y);
    proof {
        vstd::utf8::encode_utf8_decode_utf8(a@);
        vstd::utf8::encode_utf8_decode_utf8(b@);
    }
    r
}

/// What the launcher does with its first argument, matched without regard
/// to case.
pub fn boot_mode(arg: Option<&str>) -> (r: Launch)
    ensures
        r == launch_for(
            match arg {
                Some(a) => Some(lowercase(a@)),
                None => None,
            },
        ),
{
    match arg {
        None => Launch::Boot(BootMode::Bios),
        Some(a) => {
            let lower = to_lowercase(a);
            launch_of(Some(lower.as_str()))
        },
    }
}

/// The launcher's exit code from QEMU's: the debug-exit device's success
/// code becomes 0 and its failure code 1; other codes pass through; a QEMU
/// killed by a signal (no code) counts as 1.
pub fn runner_exit_code(status: Option<i32>) -> (r: i32)
    ensures
        r == (match status {
            None => 1,
            Some(0x10) => 0,
            Some(0x11) => 1,
            Some(c) => c,
        }),
{
    let code = match status {
        Some(c) => c,
        None => 1,
    };
    if code == 0x10 {
        0
    } else if code == 0x11 {
        1
    } else {
        code
    }
}

} // verus!
