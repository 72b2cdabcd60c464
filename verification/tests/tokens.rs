use parser::section::ByteSection;
use parser::tokenizer::{
    compress_next_token, invalid_input_err, next_token, section_number, section_string,
    CompressMode, Token, TokenContext, TokenizeError,
};
use parser::JsonType;
use std::borrow::Cow;

fn borrowed(bytes: &[u8]) -> Cow<'_, [u8]> {
    Cow::Borrowed(bytes)
}

#[test]
fn section_number_matches_full() {
    for (input, remaining) in &[
        ("1", ""),
        ("1a", "a"),
        ("1\n", "\n"),
        ("1.0", ""),
        ("1.1231231231", ""),
        ("1e0", ""),
        ("1e10", ""),
        ("1e-10", ""),
        ("1E0", ""),
        ("1E10", ""),
        ("1E-10", ""),
    ] {
        let mut s = ByteSection::new(input.as_bytes());
        assert_eq!(section_number(&mut s), Ok(()), "SECTION: {:?}", s);
        assert_eq!(s.n, input.len() - remaining.len());
        assert_eq!(&input.as_bytes()[s.n..], remaining.as_bytes());
    }
}

#[test]
fn section_number_invalid_input() {
    for (input, err) in vec![
        ("1ea", invalid_input_err(Some(b'a'))),
        ("1Ea", invalid_input_err(Some(b'a'))),
        ("0.", invalid_input_err(None)),
        ("0.-", invalid_input_err(Some(b'-'))),
    ] {
        let mut s = ByteSection::new(input.as_bytes());
        assert_eq!(section_number(&mut s), Err(err), "{:?}", s);
    }
}

#[test]
fn section_string_matches_full() {
    let input = r#"
            "foo"
            "bar"
            "baz"
            "¥12,110"
            "hello world"
            "test \n\t\r\b\f\\\""
            "test \t"
            "test \"321"
            "test \u0000"
            "test \u1221"
            "test \ua221"
            "test \uA22A"
            "test \uABCD"
            "test \uEF01"
            "#;
    for x in input.split('\n').map(|x| x.trim()).filter(|x| !x.is_empty()) {
        let mut s = ByteSection::new(x.as_bytes());
        println!("{:?}", s);
        assert!(section_string(&mut s).is_ok());
        assert_eq!(s.n, x.len());
    }
}

#[test]
fn section_string_invalid() {
    let input = r#"
            "test \ua22 "
            "test \ua22"
            "test \uZ22A"
            "test \uZ22A
            "#;
    for x in input.split('\n').map(|x| x.trim()).filter(|x| !x.is_empty()) {
        let mut s = ByteSection::new(x.as_bytes());
        println!("{:?}", s);
        assert!(section_string(&mut s).is_err());
    }
}

#[test]
fn next_token_spaces() {
    let input = " ".repeat(320);
    let mut s = ByteSection::new(input.as_bytes());
    assert_eq!(next_token(&mut s), Ok(Token::Spaces(255)));
    assert_eq!(next_token(&mut s), Ok(Token::Spaces(65)));
    assert!(s.is_empty());

    let input = "   \n\t   ";
    let mut s = ByteSection::new(input.as_bytes());
    assert_eq!(
        compress_next_token(&mut s, CompressMode::AllWhitespace),
        Ok(Token::Spaces(input.len() as u8))
    );
    assert!(s.is_empty());
}

#[test]
fn next_token_valid() {
    let input = "\n                1 1.0 1.1231231231 1e0 1e10\n                null null\n                \"test \\n\\t\\r\\b\\f\\\\\\\"\" \"test \\t\" \"test \\\"321\" \"test \\u0000\"\n                { \"a\": 123 } [1,2,\"a\",{\"a\":321}]\n            321";

    let mut expected = vec![
        Token::Whitespace('\n'),
        Token::Spaces(16),
        Token::Number(borrowed(b"1")),
        Token::Spaces(1),
        Token::Number(borrowed(b"1.0")),
        Token::Spaces(1),
        Token::Number(borrowed(b"1.1231231231")),
        Token::Spaces(1),
        Token::Number(borrowed(b"1e0")),
        Token::Spaces(1),
        Token::Number(borrowed(b"1e10")),
        Token::Whitespace('\n'),
        Token::Spaces(16),
        Token::Null,
        Token::Spaces(1),
        Token::Null,
        Token::Whitespace('\n'),
        Token::Spaces(16),
        Token::String(borrowed(b"\"test \\n\\t\\r\\b\\f\\\\\\\"\"")),
        Token::Spaces(1),
        Token::String(borrowed(b"\"test \\t\"")),
        Token::Spaces(1),
        Token::String(borrowed(b"\"test \\\"321\"")),
        Token::Spaces(1),
        Token::String(borrowed(b"\"test \\u0000\"")),
        Token::Whitespace('\n'),
        Token::Spaces(16),
        Token::ObjectOpen,
        Token::Spaces(1),
        Token::String(borrowed(b"\"a\"")),
        Token::Colon,
        Token::Spaces(1),
        Token::Number(borrowed(b"123")),
        Token::Spaces(1),
        Token::ObjectClose,
        Token::Spaces(1),
        Token::ArrayOpen,
        Token::Number(borrowed(b"1")),
        Token::Comma,
        Token::Number(borrowed(b"2")),
        Token::Comma,
        Token::String(borrowed(b"\"a\"")),
        Token::Comma,
        Token::ObjectOpen,
        Token::String(borrowed(b"\"a\"")),
        Token::Colon,
        Token::Number(borrowed(b"321")),
        Token::ObjectClose,
        Token::ArrayClose,
        Token::Whitespace('\n'),
        Token::Spaces(12),
        Token::Number(borrowed(b"321")),
    ];

    expected.reverse();

    let mut s = ByteSection::new(input.as_bytes());
    while !s.is_empty() {
        let token = next_token(&mut s).unwrap();
        assert_eq!(expected.pop().unwrap(), token);
        println!("{:?},", token);
        if let Token::Number(num) = token {
            std::str::from_utf8(&num).unwrap().parse::<f64>().unwrap();
        }
    }
    assert!(expected.is_empty());
}

#[test]
fn example_token_iterator() {
    let input = "[1,2,3, \"321\"]";
    let mut s = ByteSection::new(input.as_bytes());
    let mut collected = Vec::new();
    while !s.is_empty() {
        collected.push(next_token(&mut s).unwrap());
    }
    assert_eq!(
        vec![
            Token::ArrayOpen,
            Token::Number(borrowed(b"1")),
            Token::Comma,
            Token::Number(borrowed(b"2")),
            Token::Comma,
            Token::Number(borrowed(b"3")),
            Token::Comma,
            Token::Spaces(1),
            Token::String(borrowed(b"\"321\"")),
            Token::ArrayClose
        ],
        collected
    );
}

#[test]
fn token_helpers() {
    let number = Token::Number(borrowed(b"12.5"));
    let string = Token::String(borrowed(b"\"hi\""));
    assert_eq!(number.value_type(), Some(JsonType::Number));
    assert_eq!(string.value_type(), Some(JsonType::String));
    assert_eq!(Token::ArrayOpen.value_type(), Some(JsonType::Array));
    assert_eq!(Token::ObjectClose.value_type(), Some(JsonType::Object));
    assert_eq!(Token::True.value_type(), Some(JsonType::Bool));
    assert_eq!(Token::Null.value_type(), Some(JsonType::Null));
    assert_eq!(Token::Comma.value_type(), None);
    assert!(Token::ArrayOpen.is_open());
    assert!(Token::ObjectClose.is_close());
    assert!(Token::Spaces(3).is_whitespace());
    assert!(Token::Whitespace('\t').is_whitespace());
    assert!(number.is_value_start());
    assert!(number.is_complete_value());
    assert!(!Token::ArrayOpen.is_complete_value());
    assert_eq!(Token::True.as_bool(), Some(true));
    assert_eq!(Token::False.as_bool(), Some(false));
    assert_eq!(number.as_bool(), None);
    assert_eq!(number.as_number(), Some(&b"12.5"[..]));
    assert_eq!(string.as_string(), Some("\"hi\""));
    assert_eq!(number.as_string(), None);
    assert_eq!(number.char_count(), 4);
    assert_eq!(Token::Null.char_count(), 4);
    assert_eq!(Token::False.char_count(), 5);
    assert_eq!(Token::Spaces(9).char_count(), 9);
    assert_eq!(Token::Colon.char_count(), 1);
}

#[test]
fn only_numbers_are_potential_false_positives() {
    assert!(Token::Number(borrowed(b"12")).potential_false_positive());
    assert!(!Token::String(borrowed(b"\"12\"")).potential_false_positive());
    assert!(!Token::True.potential_false_positive());
    assert!(!Token::False.potential_false_positive());
    assert!(!Token::Null.potential_false_positive());
    assert!(!Token::ArrayOpen.potential_false_positive());
    assert!(!Token::Spaces(1).potential_false_positive());
}

#[test]
fn print_and_into_owned_agree() {
    let source = b"\"abc\\n\"";
    let token = Token::String(borrowed(source));
    let mut direct = Vec::new();
    token.print(&mut direct);
    let owned = token.into_owned();
    let mut after = Vec::new();
    owned.print(&mut after);
    assert_eq!(direct, after);
    assert_eq!(direct, source.to_vec());
}

#[test]
fn print_spaces_and_keywords() {
    let mut out = Vec::new();
    Token::Spaces(3).print(&mut out);
    Token::Null.print(&mut out);
    Token::True.print(&mut out);
    Token::False.print(&mut out);
    Token::Whitespace('\n').print(&mut out);
    Token::ObjectOpen.print(&mut out);
    Token::ObjectClose.print(&mut out);
    Token::ArrayOpen.print(&mut out);
    Token::ArrayClose.print(&mut out);
    Token::Comma.print(&mut out);
    Token::Colon.print(&mut out);
    assert_eq!(out, b"   nulltruefalse\n{}[],:".to_vec());
}

#[test]
fn tokenize_error_metadata() {
    // a truncated keyword is recoverable: it records both where the token
    // began and where to resume
    let mut s = ByteSection::new(b"  tru");
    assert_eq!(next_token(&mut s), Ok(Token::Spaces(2)));
    let err = next_token(&mut s).unwrap_err();
    assert!(err.is_eof());
    assert_eq!(err.token_start(), Some(2));
    assert_eq!(err.recovery_point(), Some(2));
    assert_eq!(err.context(), Some(TokenContext::True));

    // a plain wrong byte is fatal
    let mut s = ByteSection::new(b"@");
    let err = next_token(&mut s).unwrap_err();
    assert_eq!(err, TokenizeError::UnexpectedByte(b'@'));
    assert!(!err.is_eof());
    assert_eq!(err.recovery_point(), None);

    // builder-style enrichment
    let err = TokenizeError::UnexpectedEndOfInput
        .with_context(TokenContext::Number)
        .with_recovery_point(7)
        .with_token_start(5);
    assert_eq!(err.context(), Some(TokenContext::Number));
    assert_eq!(err.recovery_point(), Some(7));
    assert_eq!(err.token_start(), Some(5));
    let fatal = TokenizeError::UnexpectedByte(b'x').with_recovery_point(3);
    assert_eq!(fatal, TokenizeError::UnexpectedByte(b'x'));
}

#[test]
fn string_errors() {
    let mut s = ByteSection::new(b"\"a\\x\"");
    let err = next_token(&mut s).unwrap_err();
    assert_eq!(err, TokenizeError::InvalidStringEscape(b'x'));

    let mut s = ByteSection::new(b"\"a\x01\"");
    let err = next_token(&mut s).unwrap_err();
    assert_eq!(err, TokenizeError::InvalidStringCodepoint(1));

    let mut s = ByteSection::new(b"\"a\\uZZZZ\"");
    let err = next_token(&mut s).unwrap_err();
    assert_eq!(err, TokenizeError::InvalidStringUnicodeEscape(b"ZZZZ".to_vec()));

    // an unclosed string is recoverable at the cut point
    let mut s = ByteSection::new(b"\"abc");
    let err = next_token(&mut s).unwrap_err();
    assert!(err.is_eof());
    assert_eq!(err.token_start(), Some(0));
    assert_eq!(err.recovery_point(), Some(4));
    assert_eq!(err.context(), Some(TokenContext::String));
}

#[test]
fn string_errors_consume_nothing_past_the_fault() {
    // bad escape: the cursor stops just past the backslash and the bad
    // byte; the bytes after them are untouched
    let mut s = ByteSection::new(b"\"ab\\xYZ\"");
    assert_eq!(
        next_token(&mut s),
        Err(TokenizeError::InvalidStringEscape(b'x'))
    );
    assert_eq!(s.n, 5);

    // control byte: one past the offending byte
    let mut s = ByteSection::new(b"\"a\x01bc\"");
    assert_eq!(
        next_token(&mut s),
        Err(TokenizeError::InvalidStringCodepoint(1))
    );
    assert_eq!(s.n, 3);

    // bad unicode escape: just past the four digits
    let mut s = ByteSection::new(b"\"\\uZZZZrest\"");
    assert_eq!(
        next_token(&mut s),
        Err(TokenizeError::InvalidStringUnicodeEscape(b"ZZZZ".to_vec()))
    );
    assert_eq!(s.n, 7);
}

#[test]
fn whitespace_uncompressed_mode() {
    let mut s = ByteSection::new(b" \t\n1");
    assert_eq!(
        compress_next_token(&mut s, CompressMode::Off),
        Ok(Token::Whitespace(' '))
    );
    assert_eq!(
        compress_next_token(&mut s, CompressMode::Off),
        Ok(Token::Whitespace('\t'))
    );
    assert_eq!(
        compress_next_token(&mut s, CompressMode::Off),
        Ok(Token::Whitespace('\n'))
    );
    assert_eq!(
        compress_next_token(&mut s, CompressMode::Off),
        Ok(Token::Number(borrowed(b"1")))
    );
}
