use alia::util::cursor::Cursor;
use alia::util::platform::Platform;
use alia::util::text::{append_decimal, char_is_whitespace, str_eq, to_chars};

#[test]
fn whitespace_is_what_the_standard_library_calls_whitespace() {
    for code in 0..=0x10FFFFu32 {
        if let Some(c) = char::from_u32(code) {
            assert_eq!(char_is_whitespace(c), c.is_whitespace(), "U+{code:04X}");
        }
    }
}

#[test]
fn characters_of_a_string() {
    assert_eq!(to_chars(""), Vec::<char>::new());
    assert_eq!(to_chars("aé✓\n"), vec!['a', 'é', '✓', '\n']);
}

#[test]
fn strings_are_compared_by_their_characters() {
    assert!(str_eq("", ""));
    assert!(str_eq("add", "add"));
    assert!(str_eq("é✓", "é✓"));
    assert!(!str_eq("add", "ad"));
    assert!(!str_eq("add", "adD"));
    assert!(!str_eq("", "a"));
    assert!(!str_eq("é", "e"));
}

#[test]
fn numbers_are_written_in_base_ten() {
    for (n, text) in [
        (0usize, "0"),
        (7, "7"),
        (9, "9"),
        (10, "10"),
        (11, "11"),
        (100, "100"),
        (909, "909"),
        (1234567890, "1234567890"),
    ] {
        let mut out = String::from("n=");
        append_decimal(&mut out, n);
        assert_eq!(out, format!("n={text}"));
    }
    let mut out = String::new();
    append_decimal(&mut out, usize::MAX);
    assert_eq!(out, usize::MAX.to_string());
}

#[test]
fn cursor_reads_from_the_front() {
    let text = to_chars("  ab c \n");
    let mut cursor = Cursor::new(&text);
    assert_eq!(cursor.len(), 8);
    assert!(!cursor.is_empty());
    assert_eq!(cursor.peek(), Some(' '));
    cursor.trim_start();
    assert_eq!(cursor.len(), 6);
    cursor.trim_start();
    assert_eq!(cursor.len(), 6);
    cursor.trim_end();
    assert_eq!(cursor.len(), 4);
    assert_eq!(cursor.peek(), Some('a'));
    assert_eq!(cursor.get(0), Some('a'));
    assert_eq!(cursor.get(3), Some('c'));
    assert_eq!(cursor.get(4), None);
    assert_eq!(cursor.pop_char(), Some('a'));
    assert_eq!(cursor.pop_char(), Some('b'));
    assert_eq!(cursor.len(), 2);
    cursor.advance(1);
    assert_eq!(cursor.peek(), Some('c'));
    cursor.advance(5);
    assert!(cursor.is_empty());
    assert_eq!(cursor.pop_char(), None);
    assert_eq!(cursor.peek(), None);
    assert_eq!(cursor.len(), 0);
}

#[test]
fn cursor_skips_to_the_end() {
    let text = to_chars("abc");
    let mut cursor = Cursor::new(&text);
    cursor.skip_to_end();
    assert!(cursor.is_empty());
    let empty: Vec<char> = Vec::new();
    let mut cursor = Cursor::new(&empty);
    cursor.trim_start();
    cursor.trim_end();
    assert!(cursor.is_empty());
    let blank = to_chars(" \t ");
    let mut cursor = Cursor::new(&blank);
    cursor.trim_end();
    assert!(cursor.is_empty());
}

#[test]
fn platform_profiles() {
    assert_eq!(Platform::Posix.end_of_line_sequence(), "\n");
    assert_eq!(Platform::Windows.end_of_line_sequence(), "\r\n");
    assert_eq!(Platform::Posix.name_of_terminal_program(), "sh");
    assert_eq!(Platform::Windows.name_of_terminal_program(), "cmd");
    assert_eq!(Platform::Posix.run_as_command(), "-c");
    assert_eq!(Platform::Windows.run_as_command(), "/C");
}
