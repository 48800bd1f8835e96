use yew_ansi::cursor::CharCursor;

#[test]
fn new_cursor_stands_at_the_start() {
    let cursor = CharCursor::new("abc");
    assert_eq!(cursor.position(), 0);
    assert_eq!(cursor.remainder(), "abc");
    assert_eq!(cursor.peek(), Some('a'));
    assert!(cursor.peek_char('a'));
    assert!(!cursor.peek_char('b'));
}

#[test]
fn read_moves_by_whole_characters() {
    let mut cursor = CharCursor::new("a\u{e9}\u{20ac}\u{1f600}z");
    assert_eq!(cursor.read(), Some('a'));
    assert_eq!(cursor.position(), 1);
    assert_eq!(cursor.read(), Some('\u{e9}'));
    assert_eq!(cursor.position(), 3);
    assert_eq!(cursor.read(), Some('\u{20ac}'));
    assert_eq!(cursor.position(), 6);
    assert_eq!(cursor.read(), Some('\u{1f600}'));
    assert_eq!(cursor.position(), 10);
    assert_eq!(cursor.remainder(), "z");
    assert_eq!(cursor.read(), Some('z'));
    assert_eq!(cursor.read(), None);
    assert_eq!(cursor.position(), 11);
    assert_eq!(cursor.remainder(), "");
}

#[test]
fn read_on_empty_text() {
    let mut cursor = CharCursor::new("");
    assert_eq!(cursor.peek(), None);
    assert!(!cursor.peek_char('a'));
    assert_eq!(cursor.read(), None);
    assert_eq!(cursor.position(), 0);
}

#[test]
fn read_char_moves_only_on_a_match() {
    let mut cursor = CharCursor::new("xy");
    assert_eq!(cursor.read_char('y'), None);
    assert_eq!(cursor.position(), 0);
    assert_eq!(cursor.read_char('x'), Some('x'));
    assert_eq!(cursor.position(), 1);
    assert_eq!(cursor.read_char('y'), Some('y'));
    assert_eq!(cursor.read_char('y'), None);
    assert_eq!(cursor.position(), 2);
}

#[test]
fn read_if_asks_the_test() {
    let mut cursor = CharCursor::new("7a");
    assert_eq!(cursor.read_if(|c| c.is_ascii_digit()), Some('7'));
    assert_eq!(cursor.read_if(|c| c.is_ascii_digit()), None);
    assert_eq!(cursor.remainder(), "a");
}

#[test]
fn read_while_stops_at_the_first_failure() {
    let mut cursor = CharCursor::new("\u{e9}\u{e9}a\u{e9}");
    cursor.read_while(|c| c == '\u{e9}');
    assert_eq!(cursor.position(), 4);
    assert_eq!(cursor.remainder(), "a\u{e9}");
    cursor.read_while(|c| c == '\u{e9}');
    assert_eq!(cursor.position(), 4);
    cursor.read_while(|_| true);
    assert_eq!(cursor.position(), 7);
    assert_eq!(cursor.remainder(), "");
}

#[test]
fn get_gives_the_part_between_boundaries() {
    let mut cursor = CharCursor::new("a\u{e9}b");
    assert_eq!(cursor.get(0, 4), Some("a\u{e9}b"));
    assert_eq!(cursor.get(1, 3), Some("\u{e9}"));
    assert_eq!(cursor.get(3, 3), Some(""));
    assert_eq!(cursor.get(4, 4), Some(""));
    assert_eq!(cursor.get(1, 2), None);
    assert_eq!(cursor.get(2, 3), None);
    assert_eq!(cursor.get(3, 1), None);
    assert_eq!(cursor.get(0, 5), None);
    // the cursor's position does not bound the range
    cursor.read();
    cursor.read();
    assert_eq!(cursor.get(0, 1), Some("a"));
}
