use hobby_kernel::xspaceos::keyboard::{decode, Key, KeyboardState};

fn feed(s: &mut KeyboardState, codes: &[u8]) -> Vec<Key> {
    codes.iter().filter_map(|&c| s.step(c)).collect()
}

#[test]
fn decode_letters_and_digits() {
    assert_eq!(decode(0x1e, false, false), b'a');
    assert_eq!(decode(0x1e, true, false), b'A');
    assert_eq!(decode(0x02, false, false), b'1');
    assert_eq!(decode(0x39, false, false), b' ');
    assert_eq!(decode(0x0e, false, false), 0);
    assert_eq!(decode(0x3a, false, false), 0);
    assert_eq!(decode(0xff, false, false), 0);
}

#[test]
fn decode_shifted_symbols() {
    let expected = [
        (0x02, b'!'), (0x03, b'@'), (0x04, b'#'), (0x05, b'$'), (0x06, b'%'), (0x07, b'^'), (0x08, b'&'),
        (0x09, b'*'), (0x0a, b'('), (0x0b, b')'), (0x0c, b'_'), (0x0d, b'+'), (0x1a, b'{'), (0x1b, b'}'),
        (0x27, b':'), (0x28, b'"'), (0x29, b'~'), (0x2b, b'|'), (0x33, b'<'), (0x34, b'>'), (0x35, b'?'),
        (0x39, b' '),
    ];
    for (code, ch) in expected {
        assert_eq!(decode(code, true, false), ch, "scancode {:#x}", code);
    }
}

#[test]
fn caps_lock_affects_letters_only() {
    assert_eq!(decode(0x10, false, true), b'Q');
    assert_eq!(decode(0x10, true, true), b'q');
    assert_eq!(decode(0x02, false, true), b'1');
    assert_eq!(decode(0x02, true, true), b'!');
    assert_eq!(decode(0x35, false, true), b'/');
}

#[test]
fn press_and_release_reports_one_char() {
    let mut s = KeyboardState::new();
    assert_eq!(feed(&mut s, &[0x23, 0xa3, 0x17, 0x97]), vec![Key::Char(b'h'), Key::Char(b'i')]);
}

#[test]
fn releases_report_nothing() {
    let mut s = KeyboardState::new();
    for code in 0x80u8..=0xff {
        if code == 0xe0 {
            continue;
        }
        assert_eq!(s.step(code), None, "code {:#x}", code);
    }
}

#[test]
fn shift_is_tracked() {
    let mut s = KeyboardState::new();
    let keys = feed(&mut s, &[0x2a, 0x1e, 0x9e, 0xaa, 0x1e, 0x36, 0x02, 0xb6, 0x02]);
    assert_eq!(keys, vec![Key::Char(b'A'), Key::Char(b'a'), Key::Char(b'!'), Key::Char(b'1')]);
}

#[test]
fn caps_lock_toggles() {
    let mut s = KeyboardState::new();
    assert!(!s.caps_lock_on());
    assert_eq!(feed(&mut s, &[0x3a, 0xba]), vec![]);
    assert!(s.caps_lock_on());
    assert_eq!(feed(&mut s, &[0x1e, 0x2a, 0x1e, 0xaa]), vec![Key::Char(b'A'), Key::Char(b'a')]);
    assert_eq!(feed(&mut s, &[0x3a, 0xba]), vec![]);
    assert!(!s.caps_lock_on());
    assert_eq!(feed(&mut s, &[0x1e]), vec![Key::Char(b'a')]);
}

#[test]
fn special_keys() {
    let mut s = KeyboardState::new();
    assert_eq!(feed(&mut s, &[0x1c, 0x0e, 0x01]), vec![Key::Enter, Key::Backspace, Key::Escape]);
    assert_eq!(feed(&mut s, &[0x0f, 0x38, 0x3b]), vec![]);
}

#[test]
fn extended_keys() {
    let mut s = KeyboardState::new();
    let keys = feed(
        &mut s,
        &[0xe0, 0x48, 0xe0, 0x50, 0xe0, 0x4b, 0xe0, 0x4d, 0xe0, 0x53, 0xe0, 0x47, 0xe0, 0x4f, 0xe0, 0x49, 0xe0, 0x51],
    );
    assert_eq!(
        keys,
        vec![
            Key::Up, Key::Down, Key::Left, Key::Right, Key::Delete, Key::Home, Key::End, Key::PageUp, Key::PageDown
        ]
    );
    // Release of an extended key reports nothing and clears the prefix.
    assert_eq!(feed(&mut s, &[0xe0, 0xc8, 0x1e]), vec![Key::Char(b'a')]);
}

#[test]
fn ctrl_shortcuts() {
    let mut s = KeyboardState::new();
    assert_eq!(feed(&mut s, &[0x1d, 0x1f, 0x2d, 0x13, 0x1e, 0x9d]), vec![Key::CtrlS, Key::CtrlX, Key::CtrlR]);
    assert_eq!(feed(&mut s, &[0x1f]), vec![Key::Char(b's')]);
    // Right Ctrl, and Shift+Ctrl combinations.
    assert_eq!(feed(&mut s, &[0xe0, 0x1d, 0x2a, 0x1f, 0xaa, 0xe0, 0x9d, 0x1f]), vec![Key::CtrlS, Key::Char(b's')]);
    // Caps Lock does not break the shortcut.
    assert_eq!(feed(&mut s, &[0x3a, 0x1d, 0x2d, 0x9d]), vec![Key::CtrlX]);
}

#[test]
fn new_state_is_clear() {
    let s = KeyboardState::new();
    assert!(!s.shift_held && !s.ctrl_held && !s.caps_lock && !s.extended);
}
