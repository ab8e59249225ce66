use rust_terminal_notepad::{
    decode_key, initialize_text_buffer, Command, EditSession, Key, KeyPress, Outcome,
};

fn plain(key: Key) -> KeyPress {
    KeyPress { key, shift: false, control: false, other_modifier: false, released: false }
}

fn shift(key: Key) -> KeyPress {
    KeyPress { key, shift: true, control: false, other_modifier: false, released: false }
}

fn control(key: Key) -> KeyPress {
    KeyPress { key, shift: false, control: true, other_modifier: false, released: false }
}

/// Feeds the key events to the session until one of them ends it, and
/// returns what was to be written, if anything.
fn play(session: &mut EditSession, events: &[KeyPress]) -> Option<String> {
    for event in events {
        if let Some(command) = decode_key(*event) {
            assert!(session.can_apply(command));
            match session.apply(command) {
                Outcome::Continue => {}
                Outcome::Save => return Some(session.text().to_string()),
                Outcome::Discard => return None,
            }
        }
    }
    None
}

fn apply_all(session: &mut EditSession, commands: &[Command]) {
    for command in commands {
        assert!(session.can_apply(*command));
        assert_eq!(session.apply(*command), Outcome::Continue);
    }
}

fn typed(text: &str) -> EditSession {
    let mut session = EditSession::new();
    for c in text.chars() {
        let command = if c == '\n' { Command::InsertNewline } else { Command::InsertChar(c) };
        assert!(session.can_apply(command));
        session.apply(command);
    }
    session
}

#[test]
fn test_basic_text_input() {
    let test_content = "Hello, World!";
    let events = vec![
        plain(Key::Char('H')),
        plain(Key::Char('e')),
        plain(Key::Char('l')),
        plain(Key::Char('l')),
        plain(Key::Char('o')),
        plain(Key::Char(',')),
        plain(Key::Char(' ')),
        shift(Key::Char('W')),
        plain(Key::Char('o')),
        plain(Key::Char('r')),
        plain(Key::Char('l')),
        plain(Key::Char('d')),
        shift(Key::Char('!')),
        control(Key::Char('c')),
    ];
    let mut session = EditSession::new();
    let saved_content = play(&mut session, &events);
    assert_eq!(saved_content.as_deref(), Some(test_content));
    assert_eq!(session.cursor(), (13, 0));
}

#[test]
fn test_backspace() {
    let expected_content = "Hello";
    let events = vec![
        plain(Key::Char('H')),
        plain(Key::Char('e')),
        plain(Key::Char('l')),
        plain(Key::Char('l')),
        plain(Key::Char('o')),
        shift(Key::Char('!')),
        plain(Key::Backspace),
        control(Key::Char('c')),
    ];
    let mut session = EditSession::new();
    let saved_content = play(&mut session, &events);
    assert_eq!(saved_content.as_deref(), Some(expected_content));
    assert_eq!(session.cursor(), (5, 0));
}

#[test]
fn test_multiline_input() {
    let expected_content = "Line 1\nLine 2";
    let events = vec![
        shift(Key::Char('L')),
        plain(Key::Char('i')),
        plain(Key::Char('n')),
        plain(Key::Char('e')),
        plain(Key::Char(' ')),
        plain(Key::Char('1')),
        plain(Key::Enter),
        shift(Key::Char('L')),
        plain(Key::Char('i')),
        plain(Key::Char('n')),
        plain(Key::Char('e')),
        plain(Key::Char(' ')),
        plain(Key::Char('2')),
        control(Key::Char('c')),
    ];
    let mut session = EditSession::new();
    let saved_content = play(&mut session, &events);
    assert_eq!(saved_content.as_deref(), Some(expected_content));
    assert_eq!(session.cursor(), (6, 1));
}

#[test]
fn test_read_file() {
    let expected_content = "Here is some text!\nNew Line 1";
    let some_input_text = "Here is some text!";

    let mut session = initialize_text_buffer(some_input_text.to_string());
    assert_eq!(session.cursor(), (some_input_text.len() as u16, 0));
    assert_eq!(session.cursor(), (18, 0));

    let events = vec![
        plain(Key::Enter),
        shift(Key::Char('N')),
        shift(Key::Char('e')),
        shift(Key::Char('w')),
        shift(Key::Char(' ')),
        shift(Key::Char('L')),
        plain(Key::Char('i')),
        plain(Key::Char('n')),
        plain(Key::Char('e')),
        plain(Key::Char(' ')),
        plain(Key::Char('1')),
        control(Key::Char('c')),
    ];
    let saved_content = play(&mut session, &events);
    assert_eq!(saved_content.as_deref(), Some(expected_content));
}

#[test]
fn escape_discards() {
    let mut session = EditSession::new();
    let events = vec![plain(Key::Char('a')), plain(Key::Escape), plain(Key::Char('b'))];
    assert_eq!(play(&mut session, &events), None);
    assert_eq!(session.text(), "a");
    assert_eq!(session.apply(Command::Discard), Outcome::Discard);
    assert_eq!(session.apply(Command::Save), Outcome::Save);
    assert_eq!(session.text(), "a");
}

#[test]
fn new_session_is_empty() {
    let session = EditSession::new();
    assert_eq!(session.text(), "");
    assert_eq!(session.cursor(), (0, 0));
}

#[test]
fn initial_cursor_is_at_the_end() {
    assert_eq!(initialize_text_buffer(String::new()).cursor(), (0, 0));
    assert_eq!(initialize_text_buffer("abc".to_string()).cursor(), (3, 0));
    assert_eq!(initialize_text_buffer("abc\n".to_string()).cursor(), (0, 1));
    assert_eq!(initialize_text_buffer("abc\nde".to_string()).cursor(), (2, 1));
    assert_eq!(initialize_text_buffer("\n\n".to_string()).cursor(), (0, 2));
    // The column counts characters.
    assert_eq!(initialize_text_buffer("a\nbé€".to_string()).cursor(), (3, 1));
    let session = initialize_text_buffer("abc\nde".to_string());
    assert_eq!(session.text(), "abc\nde");
}

#[test]
fn insert_in_the_middle() {
    let mut session = typed("ac");
    apply_all(&mut session, &[Command::MoveLeft, Command::InsertChar('b')]);
    assert_eq!(session.text(), "abc");
    assert_eq!(session.cursor(), (2, 0));

    let mut session = typed("one\nto\nthree");
    apply_all(&mut session, &[Command::MoveUp, Command::InsertChar('w')]);
    assert_eq!(session.text(), "one\ntow\nthree");
    assert_eq!(session.cursor(), (3, 1));
    apply_all(&mut session, &[Command::MoveLeft, Command::MoveLeft, Command::InsertChar('-')]);
    assert_eq!(session.text(), "one\nt-ow\nthree");
    assert_eq!(session.cursor(), (2, 1));
}

#[test]
fn newline_in_the_middle() {
    let mut session = typed("abcd");
    apply_all(&mut session, &[Command::MoveLeft, Command::MoveLeft, Command::InsertNewline]);
    assert_eq!(session.text(), "ab\ncd");
    assert_eq!(session.cursor(), (0, 1));
    apply_all(&mut session, &[Command::InsertChar('x')]);
    assert_eq!(session.text(), "ab\nxcd");
    assert_eq!(session.cursor(), (1, 1));
}

#[test]
fn backspace_in_the_middle() {
    let mut session = typed("abc");
    apply_all(&mut session, &[Command::MoveLeft, Command::Backspace]);
    assert_eq!(session.text(), "ac");
    assert_eq!(session.cursor(), (1, 0));
}

#[test]
fn backspace_at_the_beginning_does_nothing() {
    let mut session = EditSession::new();
    apply_all(&mut session, &[Command::Backspace]);
    assert_eq!(session.text(), "");
    assert_eq!(session.cursor(), (0, 0));

    let mut session = typed("ab");
    apply_all(&mut session, &[Command::MoveLeft, Command::MoveLeft, Command::Backspace]);
    assert_eq!(session.text(), "ab");
    assert_eq!(session.cursor(), (0, 0));
}

#[test]
fn backspace_joins_lines() {
    let mut session = typed("ab\ncd");
    apply_all(&mut session, &[Command::MoveLeft, Command::MoveLeft]);
    assert_eq!(session.cursor(), (0, 1));
    apply_all(&mut session, &[Command::Backspace]);
    assert_eq!(session.text(), "abcd");
    // The cursor goes to the end of the row above as it is after the change.
    assert_eq!(session.cursor(), (4, 0));
}

#[test]
fn backspace_takes_a_whole_character() {
    let mut session = typed("é");
    assert_eq!(session.text().len(), 2);
    assert_eq!(session.cursor(), (1, 0));
    apply_all(&mut session, &[Command::Backspace]);
    assert_eq!(session.text(), "");
    assert_eq!(session.cursor(), (0, 0));

    let mut session = typed("a€");
    apply_all(&mut session, &[Command::Backspace]);
    assert_eq!(session.text(), "a");
    assert_eq!(session.cursor(), (1, 0));
}

#[test]
fn typing_behind_a_wide_character() {
    let mut session = typed("é");
    apply_all(&mut session, &[Command::InsertChar('x')]);
    assert_eq!(session.text(), "éx");
    assert_eq!(session.cursor(), (2, 0));
}

#[test]
fn move_left_wraps_to_the_row_above() {
    let mut session = typed("abc\nd");
    apply_all(&mut session, &[Command::MoveLeft]);
    assert_eq!(session.cursor(), (0, 1));
    apply_all(&mut session, &[Command::MoveLeft]);
    assert_eq!(session.cursor(), (3, 0));
    apply_all(&mut session, &[Command::MoveLeft, Command::MoveLeft, Command::MoveLeft]);
    assert_eq!(session.cursor(), (0, 0));
    apply_all(&mut session, &[Command::MoveLeft]);
    assert_eq!(session.cursor(), (0, 0));
    assert_eq!(session.text(), "abc\nd");
}

#[test]
fn move_right_wraps_to_the_row_below() {
    let mut session = typed("ab\ncd");
    apply_all(&mut session, &[Command::MoveUp]);
    assert_eq!(session.cursor(), (2, 0));
    apply_all(&mut session, &[Command::MoveRight]);
    assert_eq!(session.cursor(), (0, 1));
    apply_all(&mut session, &[Command::MoveRight, Command::MoveRight]);
    assert_eq!(session.cursor(), (2, 1));
    // At the end of the text the cursor stays.
    apply_all(&mut session, &[Command::MoveRight]);
    assert_eq!(session.cursor(), (2, 1));
}

#[test]
fn move_up_and_down_keep_the_column_where_the_row_has_it() {
    let mut session = typed("abcdef\ngh\nijkl");
    assert_eq!(session.cursor(), (4, 2));
    apply_all(&mut session, &[Command::MoveUp]);
    assert_eq!(session.cursor(), (2, 1));
    apply_all(&mut session, &[Command::MoveUp]);
    assert_eq!(session.cursor(), (2, 0));
    apply_all(&mut session, &[Command::MoveUp]);
    assert_eq!(session.cursor(), (2, 0));
    apply_all(&mut session, &[Command::MoveRight, Command::MoveRight, Command::MoveRight]);
    assert_eq!(session.cursor(), (5, 0));
    apply_all(&mut session, &[Command::MoveDown]);
    assert_eq!(session.cursor(), (2, 1));
    apply_all(&mut session, &[Command::MoveDown]);
    assert_eq!(session.cursor(), (2, 2));
    apply_all(&mut session, &[Command::MoveDown]);
    assert_eq!(session.cursor(), (2, 2));
    assert_eq!(session.text(), "abcdef\ngh\nijkl");
}

#[test]
fn moves_in_an_empty_text_stay_put() {
    let mut session = EditSession::new();
    apply_all(
        &mut session,
        &[Command::MoveLeft, Command::MoveRight, Command::MoveUp, Command::MoveDown],
    );
    assert_eq!(session.cursor(), (0, 0));
    assert_eq!(session.text(), "");
}

#[test]
fn a_typed_line_feed_breaks_the_line_and_keeps_the_row() {
    let mut session = typed("ab");
    apply_all(&mut session, &[Command::InsertChar('\n')]);
    assert_eq!(session.text(), "ab\n");
    assert_eq!(session.cursor(), (3, 0));
}

/// Whether the cursor points into the text.
fn cursor_in_text(session: &EditSession) -> bool {
    let (column, row) = session.cursor();
    let lines: Vec<&str> = session.text().split('\n').collect();
    (row as usize) < lines.len() && (column as usize) <= lines[row as usize].chars().count()
}

#[test]
fn commands_keep_the_cursor_in_the_text() {
    let commands = [
        Command::InsertChar('a'),
        Command::InsertNewline,
        Command::Backspace,
        Command::MoveLeft,
        Command::MoveRight,
        Command::MoveUp,
        Command::MoveDown,
        Command::InsertChar('é'),
    ];
    // Every sequence of four commands, on a text of three lines.
    for code in 0..(8 * 8 * 8 * 8) {
        let mut session = initialize_text_buffer("ab\n\nc€d".to_string());
        let mut rest = code;
        for _ in 0..4 {
            let command = commands[rest % 8];
            rest /= 8;
            assert!(session.can_apply(command));
            session.apply(command);
            assert!(cursor_in_text(&session));
        }
    }
}

#[test]
fn the_cursor_cannot_leave_its_range() {
    let long_line = "a".repeat(65535);
    let mut session = initialize_text_buffer(long_line.clone());
    assert_eq!(session.cursor(), (65535, 0));
    assert!(!session.can_apply(Command::InsertChar('a')));
    assert!(session.can_apply(Command::InsertNewline));
    assert!(session.can_apply(Command::Backspace));
    apply_all(&mut session, &[Command::InsertNewline, Command::InsertChar('b')]);
    assert_eq!(session.cursor(), (1, 1));
    // Joining the two rows would put the cursor behind 65536 characters.
    apply_all(&mut session, &[Command::MoveLeft]);
    assert!(!session.can_apply(Command::Backspace));
    assert!(session.can_apply(Command::MoveLeft));
    assert_eq!(session.text().len(), 65537);

    let many_lines = "\n".repeat(65535);
    let mut session = initialize_text_buffer(many_lines);
    assert_eq!(session.cursor(), (0, 65535));
    assert!(!session.can_apply(Command::InsertNewline));
    assert!(session.can_apply(Command::InsertChar('a')));
    apply_all(&mut session, &[Command::InsertChar('\n')]);
    assert_eq!(session.cursor(), (1, 65535));
    assert!(!session.can_apply(Command::MoveDown));
    assert!(!session.can_apply(Command::MoveRight));
    assert!(session.can_apply(Command::MoveUp));
}
