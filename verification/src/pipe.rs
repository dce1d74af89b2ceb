//! The kernel pipe: a byte queue between a writing and a reading process.
use vstd::prelude::*;
use std::collections::VecDeque;

verus! {

/// The bytes written and not yet read, oldest first.
pub struct Pipe {
    buffer: VecDeque<u8>,
}

impl View for Pipe {
    type V = Seq<u8>;

    closed spec fn view(&self) -> Seq<u8> {
        self.buffer@
    }
}

impl Pipe {
    /// An empty pipe.
    pub fn new() -> (r: Self)
        ensures
            r@ == Seq::<u8>::empty(),
    {
        Pipe { buffer: VecDeque::new() }
    }
}

/// Appends `bytes` to the pipe.
pub fn write(pipe: &mut Pipe, bytes: &[u8])
    ensures
        final(pipe)@ == old(pipe)@ + bytes@,
{
    let mut i: usize = 0;
    while i < bytes.len()
        invariant
            i <= bytes@.len(),
            pipe@ == old(pipe)@ + bytes@.take(i as int),
        decreases bytes@.len() - i,
    {
        pipe.buffer.push_back(bytes[i]);
        proof {
            assert(bytes@.take(i + 1) =~= bytes@.take(i as int).push(bytes@[i as int]));
        }
        i = i + 1;
    }
    assert(bytes@.take(bytes@.len() as int) =~= bytes@);
}

/// Moves the oldest bytes of the pipe into `buf`, as many as fit. An empty
/// pipe gives `None` and nothing changes: the reader waits and tries again.
pub fn read(pipe: &mut Pipe, buf: &mut [u8]) -> (r: Option<usize>)
    ensures
        old(pipe)@.len() == 0 ==> r is None && final(pipe)@ == old(pipe)@ && final(buf)@
            == old(buf)@,
        old(pipe)@.len() > 0 ==> ({
            let n = if old(buf)@.len() < old(pipe)@.len() {
                old(buf)@.len() as int
            } else {
                old(pipe)@.len() as int
            };
            &&& r == Some(n as usize)
            &&& final(buf)@ == old(pipe)@.take(n) + old(buf)@.skip(n)
            &&& final(pipe)@ == old(pipe)@.skip(n)
        }),
{
    let len = pipe.buffer.len();
    if len == 0 {
        return None;
    }
    let n = if buf.len() < len {
        buf.len()
    } else {
        len
    };
    let mut i: usize = 0;
    while i < n
        invariant
            n <= buf@.len(),
            n <= old(pipe)@.len(),
            buf@.len() == old(buf)@.len(),
            i <= n,
            pipe@ == old(pipe)@.skip(i as int),
            buf@ == old(pipe)@.take(i as int) + old(buf)@.skip(i as int),
        decreases n - i,
    {
        let b = match pipe.buffer.pop_front() {
            Some(b) => b,
            None => {
                assert(false);
                0u8
            },
        };
        buf[i] = b;
        proof {
            assert(buf@ =~= old(pipe)@.take(i + 1) + old(buf)@.skip(i + 1));
            assert(pipe@ =~= old(pipe)@.skip(i + 1));
        }
        i = i + 1;
    }
    Some(n)
}

} // verus!
