//! The key queue: characters typed on the PS/2 or the USB keyboard, waiting
//! to be read, oldest first, and the PS/2 scancode decoder (the `pc_keyboard`
//! crate's) that turns scancode bytes into characters.
use vstd::prelude::*;
use std::collections::VecDeque;
use pc_keyboard::{layouts, DecodedKey, HandleControl, KeyEvent, PS2Keyboard, ScancodeSet1};

verus! {

#[verifier::external_type_specification]
#[verifier::external_body]
pub struct ExKeyEvent(KeyEvent);

/// The PS/2 decoder the kernel uses: `pc_keyboard`'s `PS2Keyboard` with
/// scancode set 1, the US 104-key layout, and the control keys left as they
/// are. It is held in a private field that the verifier does not look into
/// (the decoder's state, earlier bytes and modifiers held, is its own) and is
/// reached only through the calls below.
#[verifier::external_body]
pub struct ScancodeDecoder {
    kb: PS2Keyboard<layouts::Us104Key, ScancodeSet1>,
}

/// `PS2Keyboard::new(ScancodeSet1::new(), layouts::Us104Key,
/// HandleControl::Ignore)`: a decoder with no bytes fed yet and no modifier
/// held. Nothing is stated of its state, which the verifier cannot see.
#[verifier::external_body]
pub fn new_decoder() -> (r: ScancodeDecoder) {
    ScancodeDecoder {
        kb: PS2Keyboard::new(ScancodeSet1::new(), layouts::Us104Key, HandleControl::Ignore),
    }
}

/// `PS2Keyboard::add_byte`: feeds one scancode byte; the key event it
/// completes, if any, a decoding error read as none. Which event comes out
/// depends on the bytes fed before; nothing is stated of it.
#[verifier::external_body]
fn scan_byte(d: &mut ScancodeDecoder, byte: u8) -> (r: Option<KeyEvent>) {
    match d.kb.add_byte(byte) {
        Ok(ev) => ev,
        Err(_) => None,
    }
}

/// `PS2Keyboard::process_keyevent`: the character a key event types, if it
/// decodes to one (`DecodedKey::Unicode`); a key with no character gives
/// none. It depends on the modifier keys held; nothing is stated of it.
#[verifier::external_body]
fn key_char(d: &mut ScancodeDecoder, ev: KeyEvent) -> (r: Option<char>) {
    match d.kb.process_keyevent(ev) {
        Some(DecodedKey::Unicode(c)) => Some(c),
        Some(DecodedKey::RawKey(_)) => None,
        None => None,
    }
}

/// Takes in a scancode byte from the PS/2 keyboard: the character it
/// completes, if any, is returned and joins the back of the queue; with none
/// the queue stays as it was.
pub fn handle_scancode(d: &mut ScancodeDecoder, queue: &mut VecDeque<char>, byte: u8) -> (r:
    Option<char>)
    ensures
        r is None ==> final(queue)@ == old(queue)@,
        r matches Some(c) ==> final(queue)@ == old(queue)@.push(c),
{
    let c = match scan_byte(d, byte) {
        Some(ev) => key_char(d, ev),
        None => None,
    };
    if let Some(ch) = c {
        push_char(queue, ch);
    }
    c
}

/// Queues a typed character.
pub fn push_char(queue: &mut VecDeque<char>, c: char)
    ensures
        final(queue)@ == old(queue)@.push(c),
{
    queue.push_back(c);
}

/// The oldest character waiting, taken off the queue; `None` when none waits.
pub fn try_pop_char(queue: &mut VecDeque<char>) -> (r: Option<char>)
    ensures
        old(queue)@.len() == 0 ==> r is None && final(queue)@ == old(queue)@,
        old(queue)@.len() > 0 ==> r == Some(old(queue)@[0]) && final(queue)@
            == old(queue)@.drop_first(),
{
    queue.pop_front()
}

} // verus!
