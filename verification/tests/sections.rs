use parser::section::{ByteSection, Section};

#[test]
fn basic_section_test() {
    let input = "hello world";
    let mut s = Section::new(input);
    assert_eq!(s.after(), input);
    assert_eq!(s.peek(), Some('h'));
    assert_eq!(s.next(), Some('h'));
    assert_eq!(s.offset(), 1);
    assert_eq!(s.before(), "h");
    for _ in 0..4 {
        s.next();
    }
    assert_eq!(s.peek(), Some(' '));
    for _ in 0..10 {
        s.next();
    }
    assert_eq!(s.peek(), None);
    assert_eq!(s.offset(), input.len());
    assert_eq!(s.before(), input);
    assert_eq!(s.as_ref(), input);
    assert_eq!(s.after(), "");
}

#[test]
fn section_with_offset() {
    let mut s = Section::new_with_offset("hello", 3);
    assert_eq!(s.offset(), 3);
    assert_eq!(s.next(), Some('l'));
    assert_eq!(s.next(), Some('o'));
    assert_eq!(s.next(), None);
}

#[test]
fn section_check_next_and_skip() {
    let mut s = Section::new("abc");
    assert!(s.check_next('a'));
    assert!(!s.check_next('a'));
    assert_eq!(s.skip(5), 2);
    assert_eq!(s.offset(), 3);
}

#[test]
fn byte_section_basics() {
    let input = b"abcdef";
    let mut s = ByteSection::new(input);
    assert!(!s.is_empty());
    assert_eq!(s.peek(), Some(b'a'));
    assert_eq!(s.next(), Some(b'a'));
    assert!(s.check_next(b'b'));
    assert!(!s.check_next(b'x'));
    let taken = s.take(2);
    assert_eq!(taken, b"cd");
    assert_eq!(s.n, 4);
    let taken = s.take(10);
    assert_eq!(taken, b"ef");
    assert!(s.is_empty());
    assert_eq!(s.next(), None);
}

#[test]
fn byte_section_check_next_pattern() {
    let mut s = ByteSection::new(b"a1");
    assert!(s.check_next_pattern(|c: u8| c.is_ascii_alphabetic()));
    assert!(!s.check_next_pattern(|c: u8| c.is_ascii_alphabetic()));
    assert!(s.check_next_pattern(|c: u8| c.is_ascii_digit()));
    assert!(!s.check_next_pattern(|c: u8| c.is_ascii_digit()));
    assert!(s.is_empty());

    let mut s = Section::new("x7");
    assert!(s.check_next_pattern(|c: char| c.is_alphabetic()));
    assert!(!s.check_next_pattern(|c: char| c.is_alphabetic()));
    assert!(s.check_next_pattern(|c: char| c.is_numeric()));
    assert_eq!(s.peek(), None);
}

#[test]
fn byte_section_skip_until() {
    let mut s = ByteSection::new(b"aaab");
    let stop = s.skip_until(|c: u8| c == b'b');
    assert_eq!(stop, 3);
    assert_eq!(s.peek(), Some(b'b'));
    let stop = s.skip_until(|c: u8| c == b'z');
    assert_eq!(stop, 4);
    assert!(s.is_empty());
}
