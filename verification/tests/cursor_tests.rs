use slopcc::cursor::Cursor;

#[test]
fn peek_advance_and_eat() {
    let mut cursor = Cursor::new(b"ab");
    assert_eq!(cursor.peek(), Some(b'a'));
    assert_eq!(cursor.peek_next(), Some(b'b'));
    assert_eq!(cursor.advance(), Some(b'a'));
    assert!(cursor.eat(b'b'));
    assert_eq!(cursor.advance(), None);
}

#[test]
fn eat_while_consumes_matching_prefix() {
    let mut cursor = Cursor::new(b"123abc");
    cursor.eat_while(|b| b.is_ascii_digit());
    assert_eq!(cursor.pos(), 3);
    assert_eq!(cursor.peek(), Some(b'a'));
}

#[test]
fn eof_behavior() {
    let mut cursor = Cursor::new(b"");
    assert!(cursor.is_eof());
    assert_eq!(cursor.peek(), None);
    assert_eq!(cursor.peek_next(), None);
    assert_eq!(cursor.advance(), None);
    assert!(!cursor.eat(b'x'));
}

#[test]
fn eat_leaves_other_bytes() {
    let mut cursor = Cursor::new(b"ab");
    assert!(!cursor.eat(b'b'));
    assert_eq!(cursor.pos(), 0);
    assert!(cursor.eat(b'a'));
    assert_eq!(cursor.pos(), 1);
    assert_eq!(cursor.peek_next(), None);
    assert!(!cursor.is_eof());
}

#[test]
fn eat_while_stops_at_end_of_input() {
    let mut cursor = Cursor::new(b"777");
    cursor.eat_while(|b| b == b'7');
    assert_eq!(cursor.pos(), 3);
    assert!(cursor.is_eof());
    cursor.eat_while(|_| true);
    assert_eq!(cursor.pos(), 3);
}

#[test]
fn eat_while_may_consume_nothing() {
    let mut cursor = Cursor::new(b"abc");
    cursor.eat_while(|b| b.is_ascii_digit());
    assert_eq!(cursor.pos(), 0);
    assert_eq!(cursor.peek(), Some(b'a'));
}
