//! Decoding of keyboard scancodes, by the pc-keyboard crate.
use pc_keyboard::layouts::Us104Key;
use pc_keyboard::{DecodedKey, HandleControl, KeyCode, Keyboard, ScancodeSet1};
use vstd::prelude::*;

verus! {

/// pc-keyboard's name of a key, carried unopened to the printer.
#[verifier::external_type_specification]
#[verifier::external_body]
pub struct ExKeyCode(KeyCode);

/// What a fully decoded key press yields.
#[derive(Clone, Copy, Debug, PartialEq, Eq)]
pub enum DecodedOutput {
    /// A character of the US keyboard layout.
    Char(char),
    /// A key that stands for no character.
    RawKey(KeyCode),
}

/// The state of the scancode decoder: multi-byte sequences under way and the
/// modifier keys held down. It is held in pc-keyboard's own decoder, which
/// only the functions below touch.
#[verifier::external_body]
pub struct KeyboardDecoder {
    keyboard: Keyboard<Us104Key, ScancodeSet1>,
}

/// The scancode bytes fed to a decoder since it was made.
pub uninterp spec fn fed_bytes(d: KeyboardDecoder) -> Seq<u8>;

/// What pc-keyboard's decoder (scancode set 1, US 104-key layout, control
/// keys left alone) yields for the last byte of `history`, each byte having
/// been fed in turn since the decoder was made: the key that byte completes,
/// or nothing.
pub uninterp spec fn decoded_after(history: Seq<u8>) -> Option<DecodedOutput>;

/// Relies on pc_keyboard::Keyboard::new: a decoder for scancode set 1 and the
/// US 104-key layout, fed nothing yet.
#[verifier::external_body]
fn new_keyboard() -> (r: KeyboardDecoder)
    ensures
        fed_bytes(r) == Seq::<u8>::empty(),
{
    KeyboardDecoder { keyboard: Keyboard::new(Us104Key, ScancodeSet1, HandleControl::Ignore) }
}

/// Relies on pc_keyboard::Keyboard::add_byte and
/// pc_keyboard::Keyboard::process_keyevent: feeds one scancode byte and, when
/// it completes a key event, turns the event into a character or a raw key
/// under the modifiers held. Both depend only on the bytes fed before.
#[verifier::external_body]
fn feed_byte(decoder: &mut KeyboardDecoder, byte: u8) -> (r: Option<DecodedOutput>)
    ensures
        fed_bytes(*final(decoder)) == fed_bytes(*old(decoder)).push(byte),
        r == decoded_after(fed_bytes(*old(decoder)).push(byte)),
{
    match decoder.keyboard.add_byte(byte) {
        Ok(Some(event)) => match decoder.keyboard.process_keyevent(event) {
            Some(DecodedKey::Unicode(c)) => Some(DecodedOutput::Char(c)),
            Some(DecodedKey::RawKey(k)) => Some(DecodedOutput::RawKey(k)),
            None => None,
        },
        Ok(None) => None,
        Err(_) => None,
    }
}

impl KeyboardDecoder {
    /// The scancode bytes fed so far.
    pub open spec fn history(&self) -> Seq<u8> {
        fed_bytes(*self)
    }

    pub fn new() -> (r: KeyboardDecoder)
        ensures
            r.history() == Seq::<u8>::empty(),
    {
        new_keyboard()
    }

    /// Feeds one scancode byte to the decoder and returns the key it completes,
    /// if it completes one. A byte that only starts a sequence, a release, a
    /// modifier key or a byte that belongs to no known key yields nothing.
    pub fn decode(&mut self, scancode: u8) -> (r: Option<DecodedOutput>)
        ensures
            final(self).history() == old(self).history().push(scancode),
            r == decoded_after(old(self).history().push(scancode)),
    {
        feed_byte(self, scancode)
    }
}

} // verus!
