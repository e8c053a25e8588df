//! The keyboard: bytes from its data port become keys.
//!
//! Decoding is done by the `pc_keyboard` crate, which keeps track of prefix
//! bytes and of the modifier keys that are down.

use vstd::prelude::*;
use pc_keyboard::layouts::Us104Key;
use pc_keyboard::{KeyCode, KeyEvent, Keyboard, ScancodeSet1};

verus! {

/// The decoder of the `pc_keyboard` crate for a US keyboard with 104 keys
/// that sends scancode set 1. What it holds is told by `held`.
#[verifier::external_body]
pub struct KeyboardDecoder {
    inner: Keyboard<Us104Key, ScancodeSet1>,
}

/// `pc_keyboard::KeyEvent`: a key and whether it went down or up.
#[verifier::external_type_specification]
#[verifier::external_body]
pub struct ExKeyEvent(KeyEvent);

/// `pc_keyboard::KeyCode`: the name of a key.
#[verifier::external_type_specification]
#[verifier::external_body]
pub struct ExKeyCode(KeyCode);

/// `pc_keyboard::Error`: why the decoder refused a byte.
#[verifier::external_type_specification]
#[verifier::external_body]
pub struct ExKeyboardError(pc_keyboard::Error);

/// A key that has been decoded: a key that stands for no character, or the
/// character that a key stands for.
#[derive(Clone, Copy, PartialEq, Eq, Debug)]
pub enum DecodedKey {
    RawKey(KeyCode),
    Unicode(char),
}

/// What a decoder can hold between two bytes.
#[derive(Clone, Copy, PartialEq, Eq, Structural, Debug)]
pub enum Held {
    /// The prefix byte 0xE0, which makes the next byte an extended scancode.
    ExtendedPrefix,
    /// The left shift key is down.
    ShiftLeft,
    /// The right shift key is down.
    ShiftRight,
    /// The left control key is down.
    ControlLeft,
    /// The right control key is down.
    ControlRight,
    /// The number pad stands for digits.
    NumLock,
    /// Letters come in upper case.
    CapsLock,
    /// The right alt key is down.
    AltGr,
}

/// The byte that makes the next byte an extended scancode.
pub const EXTENDED_KEY_CODE: u8 = 0xE0;

/// What a decoder holds: whether it has taken in the prefix of an extended
/// scancode, and which modifier keys are down or locked.
pub uninterp spec fn held(decoder: KeyboardDecoder) -> Set<Held>;

/// What `Keyboard::add_byte` answers to a byte, given whether the decoder
/// holds the prefix of an extended scancode: the key event that the byte
/// completes, nothing for a prefix, or the reason the byte is refused.
pub uninterp spec fn scancode_event(extended: bool, byte: u8) -> Result<
    Option<KeyEvent>,
    pc_keyboard::Error,
>;

/// What `Keyboard::process_keyevent` makes of a key event, given what the
/// decoder holds: what the decoder holds afterwards, and the key that the
/// event gives, if it gives one.
pub uninterp spec fn processed(held: Set<Held>, ev: KeyEvent) -> (Set<Held>, Option<DecodedKey>);

/// What a decoder holds once it has taken in a byte: the prefix of an
/// extended scancode if the byte is that prefix and none was held, no
/// prefix otherwise; the modifier keys as before.
pub open spec fn after_byte(held: Set<Held>, byte: u8) -> Set<Held> {
    if !held.contains(Held::ExtendedPrefix) && byte == 0xE0 {
        held.insert(Held::ExtendedPrefix)
    } else {
        held.remove(Held::ExtendedPrefix)
    }
}

/// What becomes of the decoder's answer to a byte: a key event is processed,
/// anything else leaves the decoder as it is and gives no key.
pub open spec fn answered(
    held: Set<Held>,
    answer: Result<Option<KeyEvent>, pc_keyboard::Error>,
) -> (Set<Held>, Option<DecodedKey>) {
    match answer {
        Ok(Some(ev)) => processed(held, ev),
        _ => (held, None),
    }
}

/// What a byte from the keyboard does to a decoder and the key that it
/// gives: the byte goes to the decoder, and what the decoder answers is
/// processed by the decoder as it then is.
pub open spec fn decoded(held: Set<Held>, scancode: u8) -> (Set<Held>, Option<DecodedKey>) {
    answered(
        after_byte(held, scancode),
        scancode_event(held.contains(Held::ExtendedPrefix), scancode),
    )
}

/// `Keyboard::new`: a decoder that holds no prefix and on which no modifier
/// is on but the number lock; the control keys are left to pass as keys.
#[verifier::external_body]
fn keyboard_new() -> (keyboard: KeyboardDecoder)
    ensures
        held(keyboard) == set![Held::NumLock],
{
    KeyboardDecoder {
        inner: Keyboard::new(Us104Key, ScancodeSet1, pc_keyboard::HandleControl::Ignore),
    }
}

impl KeyboardDecoder {
    /// A decoder that has seen no byte yet: it holds no prefix, and the
    /// number lock is the one modifier that is on.
    pub fn new() -> (keyboard: KeyboardDecoder)
        ensures
            held(keyboard) == set![Held::NumLock],
    {
        keyboard_new()
    }
}

/// `Keyboard::add_byte`: the answer depends on the byte and on whether the
/// prefix of an extended scancode is held; to the prefix, where none is
/// held, the answer is that no key event is complete. The prefix is held
/// afterwards exactly if the byte is the prefix and none was held; the
/// modifiers are left alone.
#[verifier::external_body]
fn add_byte(keyboard: &mut KeyboardDecoder, byte: u8) -> (r: Result<
    Option<KeyEvent>,
    pc_keyboard::Error,
>)
    ensures
        r == scancode_event(held(*old(keyboard)).contains(Held::ExtendedPrefix), byte),
        !held(*old(keyboard)).contains(Held::ExtendedPrefix) && byte == 0xE0 ==> (r matches Ok(
            None,
        )),
        held(*final(keyboard)) == after_byte(held(*old(keyboard)), byte),
{
    keyboard.inner.add_byte(byte)
}

/// `Keyboard::process_keyevent`: what the decoder holds afterwards and the
/// key that comes back depend on the event and on what the decoder held. The
/// prefix of an extended scancode is left alone.
#[verifier::external_body]
fn process_keyevent(keyboard: &mut KeyboardDecoder, ev: KeyEvent) -> (r: Option<DecodedKey>)
    ensures
        (held(*final(keyboard)), r) == processed(held(*old(keyboard)), ev),
        held(*final(keyboard)).contains(Held::ExtendedPrefix) == held(*old(keyboard)).contains(
            Held::ExtendedPrefix,
        ),
{
    match keyboard.inner.process_keyevent(ev) {
        Some(pc_keyboard::DecodedKey::RawKey(code)) => Some(DecodedKey::RawKey(code)),
        Some(pc_keyboard::DecodedKey::Unicode(character)) => Some(DecodedKey::Unicode(character)),
        None => None,
    }
}

/// The key that the decoder's answer to a byte gives: where the answer is a
/// key event, the decoder processes it and says which key it gives, if any;
/// where the byte was a prefix or was refused, there is no key and the
/// decoder is left as it is.
pub fn key_of_answer(
    keyboard: &mut KeyboardDecoder,
    answer: Result<Option<KeyEvent>, pc_keyboard::Error>,
) -> (r: Option<DecodedKey>)
    ensures
        (held(*final(keyboard)), r) == answered(held(*old(keyboard)), answer),
        held(*final(keyboard)).contains(Held::ExtendedPrefix) == held(*old(keyboard)).contains(
            Held::ExtendedPrefix,
        ),
{
    match answer {
        Ok(Some(ev)) => process_keyevent(keyboard, ev),
        _ => None,
    }
}

/// The key to show for a byte from the keyboard: the byte goes to the
/// decoder, and the key is the one that the decoder's answer gives. A prefix
/// byte and a byte that the decoder refuses give none.
pub fn handle_keycode(keyboard: &mut KeyboardDecoder, scancode: u8) -> (r: Option<DecodedKey>)
    ensures
        (held(*final(keyboard)), r) == decoded(held(*old(keyboard)), scancode),
        !held(*old(keyboard)).contains(Held::ExtendedPrefix) && scancode == 0xE0 ==> r is None
            && held(*final(keyboard)) == held(*old(keyboard)).insert(Held::ExtendedPrefix),
        held(*final(keyboard)).contains(Held::ExtendedPrefix) <==> !held(*old(keyboard)).contains(
            Held::ExtendedPrefix,
        ) && scancode == 0xE0,
{
    let answer = add_byte(keyboard, scancode);
    key_of_answer(keyboard, answer)
}

} // verus!
