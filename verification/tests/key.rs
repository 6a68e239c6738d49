use lace::key::{decode_key, Key, KeyCode, KeyEvent, KeyPress};

fn decode(code: KeyCode, control: bool) -> KeyPress {
    decode_key(KeyEvent { code, control, released: false })
}

#[test]
fn plain_keys() {
    assert_eq!(decode(KeyCode::Enter, false), KeyPress::Edit(Key::Enter));
    assert_eq!(decode(KeyCode::Backspace, false), KeyPress::Edit(Key::Backspace));
    assert_eq!(decode(KeyCode::Delete, false), KeyPress::Edit(Key::Delete));
    assert_eq!(decode(KeyCode::Left, false), KeyPress::Edit(Key::Left));
    assert_eq!(decode(KeyCode::Right, false), KeyPress::Edit(Key::Right));
    assert_eq!(decode(KeyCode::Up, false), KeyPress::Edit(Key::Up));
    assert_eq!(decode(KeyCode::Down, false), KeyPress::Edit(Key::Down));
    assert_eq!(decode(KeyCode::Char('c'), false), KeyPress::Edit(Key::Char('c')));
    assert_eq!(decode(KeyCode::Char('€'), false), KeyPress::Edit(Key::Char('€')));
    assert_eq!(decode(KeyCode::Other, false), KeyPress::Ignored);
}

#[test]
fn keys_with_control() {
    assert_eq!(decode(KeyCode::Left, true), KeyPress::Edit(Key::CtrlLeft));
    assert_eq!(decode(KeyCode::Right, true), KeyPress::Edit(Key::CtrlRight));
    assert_eq!(decode(KeyCode::Up, true), KeyPress::Edit(Key::Up));
    assert_eq!(decode(KeyCode::Down, true), KeyPress::Edit(Key::Down));
    assert_eq!(decode(KeyCode::Enter, true), KeyPress::Edit(Key::Enter));
    assert_eq!(decode(KeyCode::Backspace, true), KeyPress::Edit(Key::Backspace));
    assert_eq!(decode(KeyCode::Delete, true), KeyPress::Edit(Key::Delete));
    assert_eq!(decode(KeyCode::Char('c'), true), KeyPress::Interrupt);
    assert_eq!(decode(KeyCode::Char('d'), true), KeyPress::Interrupt);
    assert_eq!(decode(KeyCode::Char('a'), true), KeyPress::Ignored);
    assert_eq!(decode(KeyCode::Other, true), KeyPress::Ignored);
}

#[test]
fn released_keys_are_ignored() {
    for code in [KeyCode::Enter, KeyCode::Char('c'), KeyCode::Left, KeyCode::Other] {
        for control in [false, true] {
            let event = KeyEvent { code, control, released: true };
            assert_eq!(decode_key(event), KeyPress::Ignored);
        }
    }
}
