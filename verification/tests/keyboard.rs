use nesos::keyboard::{handle_keycode, key_of_answer, DecodedKey, KeyboardDecoder};
use pc_keyboard::{Error, KeyCode, KeyEvent, KeyState};

#[test]
fn letters_follow_the_shift_key() {
    let mut keyboard = KeyboardDecoder::new();
    assert_eq!(handle_keycode(&mut keyboard, 0x1e), Some(DecodedKey::Unicode('a')));
    // The release of the key gives nothing.
    assert_eq!(handle_keycode(&mut keyboard, 0x9e), None);
    // Shift goes down, and the letter comes in upper case.
    assert_eq!(handle_keycode(&mut keyboard, 0x2a), None);
    assert_eq!(handle_keycode(&mut keyboard, 0x1e), Some(DecodedKey::Unicode('A')));
    assert_eq!(handle_keycode(&mut keyboard, 0xaa), None);
    assert_eq!(handle_keycode(&mut keyboard, 0x1e), Some(DecodedKey::Unicode('a')));
}

#[test]
fn extended_keys_take_two_bytes() {
    let mut keyboard = KeyboardDecoder::new();
    assert_eq!(handle_keycode(&mut keyboard, 0xe0), None);
    assert_eq!(handle_keycode(&mut keyboard, 0x48), Some(DecodedKey::RawKey(KeyCode::ArrowUp)));
    // Without the prefix the same byte is the 8 of the number pad.
    assert_ne!(handle_keycode(&mut keyboard, 0x48), Some(DecodedKey::RawKey(KeyCode::ArrowUp)));
}

#[test]
fn unknown_bytes_give_no_key() {
    let mut keyboard = KeyboardDecoder::new();
    assert_eq!(handle_keycode(&mut keyboard, 0x7f), None);
    assert_eq!(handle_keycode(&mut keyboard, 0x02), Some(DecodedKey::Unicode('1')));
}

#[test]
fn answers_without_a_key_event_give_no_key() {
    let mut keyboard = KeyboardDecoder::new();
    assert_eq!(key_of_answer(&mut keyboard, Err(Error::UnknownKeyCode)), None);
    assert_eq!(key_of_answer(&mut keyboard, Ok(None)), None);
    // The decoder is as it was: a letter comes in lower case.
    assert_eq!(handle_keycode(&mut keyboard, 0x1e), Some(DecodedKey::Unicode('a')));
}

#[test]
fn key_events_are_processed_by_the_decoder() {
    let mut keyboard = KeyboardDecoder::new();
    let down = |code| Ok(Some(KeyEvent::new(code, KeyState::Down)));
    let up = |code| Ok(Some(KeyEvent::new(code, KeyState::Up)));
    assert_eq!(key_of_answer(&mut keyboard, down(KeyCode::A)), Some(DecodedKey::Unicode('a')));
    assert_eq!(key_of_answer(&mut keyboard, up(KeyCode::A)), None);
    assert_eq!(key_of_answer(&mut keyboard, down(KeyCode::ShiftRight)), None);
    assert_eq!(key_of_answer(&mut keyboard, down(KeyCode::A)), Some(DecodedKey::Unicode('A')));
    assert_eq!(key_of_answer(&mut keyboard, up(KeyCode::ShiftRight)), None);
    assert_eq!(key_of_answer(&mut keyboard, down(KeyCode::CapsLock)), None);
    assert_eq!(key_of_answer(&mut keyboard, down(KeyCode::A)), Some(DecodedKey::Unicode('A')));
    assert_eq!(
        key_of_answer(&mut keyboard, down(KeyCode::F1)),
        Some(DecodedKey::RawKey(KeyCode::F1))
    );
}

#[test]
fn a_new_decoder_has_the_number_lock_on() {
    // With the number lock on, the 8 of the number pad is a digit.
    let mut keyboard = KeyboardDecoder::new();
    assert_eq!(handle_keycode(&mut keyboard, 0x48), Some(DecodedKey::Unicode('8')));
    // The prefix is held for one byte only.
    assert_eq!(handle_keycode(&mut keyboard, 0xe0), None);
    assert_eq!(handle_keycode(&mut keyboard, 0x48), Some(DecodedKey::RawKey(KeyCode::ArrowUp)));
    assert_eq!(handle_keycode(&mut keyboard, 0x48), Some(DecodedKey::Unicode('8')));
}
