use rust_terminal_notepad::{decode_key, Command, Key, KeyPress};

fn press(key: Key, shift: bool, control: bool, other_modifier: bool) -> KeyPress {
    KeyPress { key, shift, control, other_modifier, released: false }
}

#[test]
fn characters_are_typed_plain_and_with_shift() {
    assert_eq!(
        decode_key(press(Key::Char('a'), false, false, false)),
        Some(Command::InsertChar('a'))
    );
    assert_eq!(
        decode_key(press(Key::Char('A'), true, false, false)),
        Some(Command::InsertChar('A'))
    );
    assert_eq!(
        decode_key(press(Key::Char('c'), false, false, false)),
        Some(Command::InsertChar('c'))
    );
    assert_eq!(decode_key(press(Key::Char('a'), false, false, true)), None);
    assert_eq!(decode_key(press(Key::Char('a'), true, true, false)), None);
    assert_eq!(decode_key(press(Key::Char('a'), false, true, false)), None);
}

#[test]
fn control_c_saves() {
    assert_eq!(decode_key(press(Key::Char('c'), false, true, false)), Some(Command::Save));
    assert_eq!(decode_key(press(Key::Char('c'), true, true, false)), None);
    assert_eq!(decode_key(press(Key::Char('c'), false, true, true)), None);
    assert_eq!(decode_key(press(Key::Char('C'), false, true, false)), None);
}

#[test]
fn editing_keys_work_with_any_modifier() {
    for shift in [false, true] {
        for control in [false, true] {
            for other in [false, true] {
                assert_eq!(
                    decode_key(press(Key::Backspace, shift, control, other)),
                    Some(Command::Backspace)
                );
                assert_eq!(
                    decode_key(press(Key::Enter, shift, control, other)),
                    Some(Command::InsertNewline)
                );
                assert_eq!(
                    decode_key(press(Key::Escape, shift, control, other)),
                    Some(Command::Discard)
                );
                assert_eq!(
                    decode_key(press(Key::Left, shift, control, other)),
                    Some(Command::MoveLeft)
                );
                assert_eq!(
                    decode_key(press(Key::Right, shift, control, other)),
                    Some(Command::MoveRight)
                );
                assert_eq!(decode_key(press(Key::Other, shift, control, other)), None);
            }
        }
    }
}

#[test]
fn up_and_down_work_without_modifiers_only() {
    assert_eq!(decode_key(press(Key::Up, false, false, false)), Some(Command::MoveUp));
    assert_eq!(decode_key(press(Key::Down, false, false, false)), Some(Command::MoveDown));
    assert_eq!(decode_key(press(Key::Up, true, false, false)), None);
    assert_eq!(decode_key(press(Key::Down, false, true, false)), None);
    assert_eq!(decode_key(press(Key::Up, false, false, true)), None);
}

#[test]
fn released_keys_are_ignored() {
    for key in [Key::Char('a'), Key::Backspace, Key::Enter, Key::Escape, Key::Left, Key::Up] {
        let event =
            KeyPress { key, shift: false, control: false, other_modifier: false, released: true };
        assert_eq!(decode_key(event), None);
    }
}
