use parser::utf8::{
    definitely_next_codepoint, next_code_point, next_code_point_reverse, push_char_utf8,
    unwrap_or_0, utf8_acc_cont_byte, utf8_char_width, utf8_first_byte, utf8_is_cont_byte,
};

#[test]
fn char_widths() {
    assert_eq!(utf8_char_width(0x41), 1);
    assert_eq!(utf8_char_width(0x7F), 1);
    assert_eq!(utf8_char_width(0x80), 0);
    assert_eq!(utf8_char_width(0xC1), 0);
    assert_eq!(utf8_char_width(0xC2), 2);
    assert_eq!(utf8_char_width(0xDF), 2);
    assert_eq!(utf8_char_width(0xE0), 3);
    assert_eq!(utf8_char_width(0xEF), 3);
    assert_eq!(utf8_char_width(0xF0), 4);
    assert_eq!(utf8_char_width(0xF4), 4);
    assert_eq!(utf8_char_width(0xF5), 0);
    assert_eq!(utf8_char_width(0xFF), 0);
}

#[test]
fn decode_codepoints() {
    assert_eq!(next_code_point(b"A"), Some(0x41));
    assert_eq!(next_code_point("é".as_bytes()), Some(0xE9));
    assert_eq!(next_code_point("€".as_bytes()), Some(0x20AC));
    assert_eq!(next_code_point("😀".as_bytes()), Some(0x1F600));
    let euro = "€".as_bytes();
    assert_eq!(definitely_next_codepoint(euro[0], &euro[1..]), 0x20AC);
}

#[test]
fn decode_codepoints_reverse() {
    assert_eq!(next_code_point_reverse(b"xyA"), Some(0x41));
    assert_eq!(next_code_point_reverse("xé".as_bytes()), Some(0xE9));
    assert_eq!(next_code_point_reverse("a€".as_bytes()), Some(0x20AC));
    assert_eq!(next_code_point_reverse("😀".as_bytes()), Some(0x1F600));
}

#[test]
fn byte_helpers() {
    assert!(utf8_is_cont_byte(0x80));
    assert!(utf8_is_cont_byte(0xBF));
    assert!(!utf8_is_cont_byte(0x41));
    assert!(!utf8_is_cont_byte(0xC2));
    assert_eq!(utf8_first_byte(0xC3, 2), 0x03);
    assert_eq!(utf8_acc_cont_byte(0x03, 0xA9), 0xE9);
    assert_eq!(unwrap_or_0(Some(9)), 9);
    assert_eq!(unwrap_or_0(None), 0);
}

#[test]
fn encode_chars() {
    for c in ['A', 'é', '€', '😀', '\n'] {
        let mut out = Vec::new();
        push_char_utf8(&mut out, c);
        let mut expected = String::new();
        expected.push(c);
        assert_eq!(out, expected.as_bytes().to_vec());
    }
}
