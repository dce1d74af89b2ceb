//! The device files: `/dev/null` and `/dev/keyboard`.
use vstd::prelude::*;
use vstd::string::StringSliceAdditionalSpecFns;
use crate::bytes::bytes_equal;

verus! {

/// `"/dev/null"` in ASCII.
pub const DEV_NULL: [u8; 9] = [47, 100, 101, 118, 47, 110, 117, 108, 108];

/// `"/dev/keyboard"` in ASCII.
pub const DEV_KEYBOARD: [u8; 13] = [47, 100, 101, 118, 47, 107, 101, 121, 98, 111, 97, 114, 100];

/// Why a device operation failed: the path names no device.
pub fn no_such_device() -> (r: &'static str)
    ensures
        r@ == "no such device"@,
{
    "no such device"
}

/// Writes to a device file: `/dev/null` takes anything, every other path is
/// refused.
pub fn write(path: &str, data: &[u8]) -> (r: Result<(), &'static str>)
    ensures
        r is Ok <==> path.spec_bytes() == DEV_NULL@,
        r matches Err(e) ==> e@ == "no such device"@,
{
    if bytes_equal(path.as_bytes(), DEV_NULL.as_slice()) {
        Ok(())
    } else {
        Err(no_such_device())
    }
}

/// Which device a line is read from.
#[derive(Debug, Clone, Copy, PartialEq, Eq, Structural)]
pub enum LineSource {
    /// Characters typed on the keyboard, up to the end of the line.
    Keyboard,
    /// Nothing: the line is empty.
    Null,
}

/// The device `read_line` reads from for `path`, or the error for a path that
/// names no device.
pub fn read_line(path: &str) -> (r: Result<LineSource, &'static str>)
    ensures
        path.spec_bytes() == DEV_KEYBOARD@ ==> r == Ok::<LineSource, &'static str>(
            LineSource::Keyboard,
        ),
        path.spec_bytes() == DEV_NULL@ ==> r == Ok::<LineSource, &'static str>(LineSource::Null),
        path.spec_bytes() != DEV_KEYBOARD@ && path.spec_bytes() != DEV_NULL@ ==> (r matches Err(
            e,
        ) && e@ == "no such device"@),
{
    let p = path.as_bytes();
    if bytes_equal(p, DEV_KEYBOARD.as_slice()) {
        Ok(LineSource::Keyboard)
    } else if bytes_equal(p, DEV_NULL.as_slice()) {
        Ok(LineSource::Null)
    } else {
        Err(no_such_device())
    }
}

/// A line being read from the keyboard.
pub struct LineReader {
    pub line: Vec<char>,
}

/// A Unicode control character (general category Cc).
pub open spec fn is_control_spec(c: char) -> bool {
    (c as u32) < 0x20 || (0x7f <= (c as u32) && (c as u32) < 0xa0)
}

/// Whether `c` is a control character (general category Cc).
pub fn is_control(c: char) -> (r: bool)
    ensures
        r == is_control_spec(c),
{
    let v = c as u32;
    v < 0x20 || (0x7f <= v && v < 0xa0)
}

impl LineReader {
    /// Nothing typed yet.
    pub fn new() -> (r: Self)
        ensures
            r.line@ == Seq::<char>::empty(),
    {
        LineReader { line: Vec::new() }
    }

    /// Takes one typed character. A newline ends the line (returns `true`);
    /// other control characters are dropped; the rest are kept.
    pub fn feed(&mut self, c: char) -> (done: bool)
        ensures
            done == (c == '\n'),
            final(self).line@ == (if done || is_control_spec(c) {
                old(self).line@
            } else {
                old(self).line@.push(c)
            }),
    {
        if c == '\n' {
            return true;
        }
        if !is_control(c) {
            self.line.push(c);
        }
        false
    }
}

} // verus!
