use rust_terminal_notepad::address::{count_newlines, line_chars};
use rust_terminal_notepad::buffer::{char_bounds, insert_at, remove_before};
use rust_terminal_notepad::encoding::byte_length;
use rust_terminal_notepad::can_initialize;

#[test]
fn byte_length_counts_bytes() {
    assert_eq!(byte_length(""), 0);
    assert_eq!(byte_length("abc"), 3);
    assert_eq!(byte_length("é"), 2);
    assert_eq!(byte_length("€"), 3);
    assert_eq!(byte_length("𝄞"), 4);
    assert_eq!(byte_length("aé€𝄞\n"), 11);
}

#[test]
fn count_newlines_counts_line_feeds_only() {
    assert_eq!(count_newlines(""), 0);
    assert_eq!(count_newlines("abc"), 0);
    assert_eq!(count_newlines("\n"), 1);
    assert_eq!(count_newlines("a\r\nb\n\nc"), 3);
}

#[test]
fn line_chars_agrees_with_splitting() {
    for text in ["", "a", "ab\n\ncd\n", "é€\n𝄞b\n", "\n\n\n", "x\ny"] {
        let lines: Vec<&str> = text.split('\n').collect();
        for (row, line) in lines.iter().enumerate() {
            assert_eq!(line_chars(text, row), line.chars().count());
        }
        assert_eq!(line_chars(text, lines.len()), 0);
    }
}

#[test]
fn char_bounds_are_boundaries_around_the_offset() {
    // a: 0, é: 1..3, €: 3..6, b: 6
    let text = "aé€b";
    assert_eq!(char_bounds(text, 0), (0, 0));
    assert_eq!(char_bounds(text, 1), (0, 1));
    assert_eq!(char_bounds(text, 2), (1, 3));
    assert_eq!(char_bounds(text, 3), (1, 3));
    assert_eq!(char_bounds(text, 4), (3, 6));
    assert_eq!(char_bounds(text, 5), (3, 6));
    assert_eq!(char_bounds(text, 6), (3, 6));
    assert_eq!(char_bounds(text, 7), (6, 7));
    assert_eq!(char_bounds(text, 8), (6, 7));
    assert_eq!(char_bounds(text, usize::MAX), (6, 7));
    assert_eq!(char_bounds("", 0), (0, 0));
    assert_eq!(char_bounds("", 5), (0, 0));
}

#[test]
fn insert_at_puts_the_character_at_the_offset() {
    let mut buffer = String::from("abc");
    insert_at(&mut buffer, 0, 'x');
    assert_eq!(buffer, "xabc");
    insert_at(&mut buffer, 2, 'y');
    assert_eq!(buffer, "xaybc");
    insert_at(&mut buffer, 5, 'z');
    assert_eq!(buffer, "xaybcz");
    insert_at(&mut buffer, 100, '€');
    assert_eq!(buffer, "xaybcz€");
    let mut empty = String::new();
    insert_at(&mut empty, 3, 'é');
    assert_eq!(empty, "é");
}

#[test]
fn insert_at_goes_behind_a_character_that_holds_the_offset() {
    let mut buffer = String::from("a€b");
    insert_at(&mut buffer, 2, 'x');
    assert_eq!(buffer, "a€xb");
    let mut buffer = String::from("a€b");
    insert_at(&mut buffer, 3, 'x');
    assert_eq!(buffer, "a€xb");
    let mut buffer = String::from("a€b");
    insert_at(&mut buffer, 4, 'x');
    assert_eq!(buffer, "a€xb");
    let mut buffer = String::from("a€b");
    insert_at(&mut buffer, 1, 'x');
    assert_eq!(buffer, "ax€b");
}

#[test]
fn remove_before_takes_the_character_in_front_of_the_offset() {
    let mut buffer = String::from("abc");
    assert_eq!(remove_before(&mut buffer, 0), None);
    assert_eq!(buffer, "abc");
    assert_eq!(remove_before(&mut buffer, 2), Some('b'));
    assert_eq!(buffer, "ac");
    assert_eq!(remove_before(&mut buffer, 9), Some('c'));
    assert_eq!(buffer, "a");
    assert_eq!(remove_before(&mut buffer, 1), Some('a'));
    assert_eq!(buffer, "");
    assert_eq!(remove_before(&mut buffer, 1), None);
    assert_eq!(buffer, "");
}

#[test]
fn remove_before_takes_whole_characters() {
    // a: 0, €: 1..4, b: 4
    for offset in 2..=4 {
        let mut buffer = String::from("a€b");
        assert_eq!(remove_before(&mut buffer, offset), Some('€'));
        assert_eq!(buffer, "ab");
    }
    let mut buffer = String::from("a€b");
    assert_eq!(remove_before(&mut buffer, 1), Some('a'));
    assert_eq!(buffer, "€b");
    let mut buffer = String::from("a€b");
    assert_eq!(remove_before(&mut buffer, 5), Some('b'));
    assert_eq!(buffer, "a€");
}

#[test]
fn a_session_can_begin_where_the_end_has_coordinates() {
    assert!(can_initialize(""));
    assert!(can_initialize("some text\nand more"));
    assert!(can_initialize(&"a".repeat(65535)));
    assert!(!can_initialize(&"a".repeat(65536)));
    assert!(can_initialize(&format!("{}\nb", "a".repeat(70000))));
    assert!(can_initialize(&"\n".repeat(65535)));
    assert!(!can_initialize(&"\n".repeat(65536)));
}
