use lox::cursor::Cursor;

#[test]
fn new_byte_cursor_has_consumed_nothing() {
    let cursor = Cursor::new("abc");
    assert!(!cursor.is_eof());
    assert_eq!(cursor.consumed(), 0);
    assert_eq!(cursor.peek(), Some('a'));
}

#[test]
fn byte_cursor_over_empty_text_is_at_eof() {
    let mut cursor = Cursor::new("");
    assert!(cursor.is_eof());
    assert_eq!(cursor.peek(), None);
    assert_eq!(cursor.next(), None);
    assert_eq!(cursor.next_if(|_| true), None);
    cursor.eat_while(|_| true);
    assert_eq!(cursor.consumed(), 0);
}

#[test]
fn consumed_counts_bytes_not_characters() {
    let mut cursor = Cursor::new("a\u{00e9}\u{4e16}\u{1f600}");
    assert_eq!(cursor.next(), Some('a'));
    assert_eq!(cursor.consumed(), 1);
    assert_eq!(cursor.next(), Some('\u{00e9}'));
    assert_eq!(cursor.consumed(), 3);
    assert_eq!(cursor.next(), Some('\u{4e16}'));
    assert_eq!(cursor.consumed(), 6);
    assert_eq!(cursor.next(), Some('\u{1f600}'));
    assert_eq!(cursor.consumed(), 10);
    assert_eq!(cursor.next(), None);
    assert_eq!(cursor.consumed(), 10);
    assert!(cursor.is_eof());
}

#[test]
fn reset_starts_the_count_anew() {
    let mut cursor = Cursor::new("let x");
    cursor.eat_while(char::is_alphabetic);
    assert_eq!(cursor.consumed(), 3);
    cursor.reset();
    assert_eq!(cursor.consumed(), 0);
    assert_eq!(cursor.peek(), Some(' '));
    cursor.next();
    cursor.next();
    assert_eq!(cursor.consumed(), 2);
    cursor.reset();
    cursor.reset();
    assert_eq!(cursor.consumed(), 0);
    assert!(cursor.is_eof());
}

#[test]
fn byte_cursor_peek_does_not_consume() {
    let cursor = Cursor::new("xy");
    assert_eq!(cursor.peek(), Some('x'));
    assert_eq!(cursor.peek(), Some('x'));
    assert_eq!(cursor.consumed(), 0);
}

#[test]
fn next_if_consumes_only_what_the_predicate_accepts() {
    let mut cursor = Cursor::new("=!");
    assert_eq!(cursor.next_if(|c| c == '!'), None);
    assert_eq!(cursor.consumed(), 0);
    assert_eq!(cursor.next_if(|c| c == '='), Some('='));
    assert_eq!(cursor.consumed(), 1);
    assert_eq!(cursor.next_if(|c| c == '='), None);
    assert_eq!(cursor.next_if(|c| c == '!'), Some('!'));
    assert_eq!(cursor.next_if(|c| c == '!'), None);
    assert!(cursor.is_eof());
}

#[test]
fn eat_while_stops_before_the_first_refused_character() {
    let mut cursor = Cursor::new("// note\nnext");
    cursor.eat_while(|c| c != '\n');
    assert_eq!(cursor.consumed(), 7);
    assert_eq!(cursor.peek(), Some('\n'));
    cursor.eat_while(|c| c != '\n');
    assert_eq!(cursor.consumed(), 7);
}

#[test]
fn eat_while_may_reach_the_end() {
    let mut cursor = Cursor::new("12345");
    cursor.eat_while(char::is_numeric);
    assert!(cursor.is_eof());
    assert_eq!(cursor.consumed(), 5);
}

#[test]
fn eat_while_that_accepts_nothing_changes_nothing() {
    let mut cursor = Cursor::new("abc");
    cursor.eat_while(|_| false);
    assert_eq!(cursor.consumed(), 0);
    assert_eq!(cursor.peek(), Some('a'));
}
