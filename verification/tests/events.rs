use mlpnet::events::{Event, char_of_keycode, key_down_event};

#[test]
fn printable_keys_decode_to_themselves() {
    assert_eq!(char_of_keycode('a' as u32, false), Some('a'));
    assert_eq!(char_of_keycode(' ' as u32, false), Some(' '));
    assert_eq!(char_of_keycode('~' as u32, false), Some('~'));
    assert_eq!(char_of_keycode(31, false), None);
    assert_eq!(char_of_keycode(127, false), None);
}

#[test]
fn return_key_decodes_to_newline() {
    assert_eq!(char_of_keycode(13, false), Some('\n'));
    assert_eq!(char_of_keycode(13, true), Some('\n'));
}

#[test]
fn shift_remaps_minus_and_comma() {
    assert_eq!(char_of_keycode('-' as u32, true), Some('_'));
    assert_eq!(char_of_keycode(',' as u32, true), Some(';'));
    assert_eq!(char_of_keycode('-' as u32, false), Some('-'));
    assert_eq!(char_of_keycode(',' as u32, false), Some(','));
}

#[test]
fn key_down_event_carries_modifiers() {
    let e = key_down_event('x' as u32, true, false, true, false);
    match e {
        Event::KeyDown { repeat, char, keymod, .. } => {
            assert!(repeat);
            assert_eq!(char, Some('x'));
            assert!(!keymod.shift);
            assert!(keymod.ctrl);
            assert!(!keymod.caps);
        },
        Event::Quit => panic!("expected a key event"),
    }
}
