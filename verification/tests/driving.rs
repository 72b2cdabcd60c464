use parser::driver::{
    print_tokens, reformat_document, run_chunked, tokenize_slice, ChunkedDriver, DriverError,
};
use parser::tokenizer::{CompressMode, Token, TokenizeError};
use parser::validator::{ValidationContext, ValidationError};
use std::borrow::Cow;

#[test]
fn print_tokenize_round_trip_uncompressed() {
    // with compression off, print(tokenize(input)) == input, byte for byte
    let input = b"{\"a\":\t[1, 2.5e-3,\ntrue, null, \"x\\ny\"]}  ";
    let tokens = tokenize_slice(input, CompressMode::Off).unwrap();
    let mut printed = Vec::new();
    print_tokens(&tokens, &mut printed);
    assert_eq!(printed, input.to_vec());
}

#[test]
fn tokenize_print_round_trip() {
    // tokenizing what a token sequence prints yields the sequence back
    let input = b"[1,2, \"a\"]";
    let tokens = tokenize_slice(input, CompressMode::SpacesOnly).unwrap();
    let mut printed = Vec::new();
    print_tokens(&tokens, &mut printed);
    let again = tokenize_slice(&printed, CompressMode::SpacesOnly).unwrap();
    assert_eq!(tokens, again);
}

#[test]
fn chunked_matches_one_shot_when_it_fits() {
    // a buffer at least as large as the document yields exactly the
    // one-shot token sequence
    let input = b"[1, {\"a\": null}, true]";
    let one_shot = tokenize_slice(input, CompressMode::SpacesOnly).unwrap();
    let out = run_chunked(input, 1024, CompressMode::SpacesOnly).unwrap();
    let owned: Vec<Token<'static>> = one_shot.into_iter().map(|t| t.into_owned()).collect();
    assert_eq!(out.tokens, owned);
    assert_eq!(out.completions, vec![input.len()]);
}

#[test]
fn chunked_small_buffer_same_tokens() {
    // any buffer size large enough for the longest keyword gives the same
    // sequence of non-string tokens
    let input = b"[1, {\"a\": null}, true]";
    let big = run_chunked(input, 1024, CompressMode::SpacesOnly).unwrap();
    for buffer_size in 5..12 {
        let small = run_chunked(input, buffer_size, CompressMode::SpacesOnly).unwrap();
        assert_eq!(small.completions, vec![input.len()]);
        assert_eq!(small.printed, big.printed);
        assert_eq!(small.tokens.len(), big.tokens.len());
    }
}

#[test]
fn number_at_buffer_boundary_is_reclassified() {
    // "123" fills the window exactly, but the number continues: after the
    // refill the driver re-tokenizes and emits the whole number once
    let out = run_chunked(b"12345", 3, CompressMode::SpacesOnly).unwrap();
    assert_eq!(out.tokens, vec![Token::Number(Cow::Borrowed(b"12345"))]);
    assert_eq!(out.printed, b"12345".to_vec());
    assert_eq!(out.completions, vec![5]);
}

#[test]
fn number_split_across_buffers() {
    let out = run_chunked(b"[12345678]", 4, CompressMode::SpacesOnly).unwrap();
    assert_eq!(out.printed, b"[12345678]".to_vec());
    assert_eq!(out.completions, vec![10]);
}

#[test]
fn string_across_refill_completes() {
    // a string longer than the window is emitted through the continuation
    // path; the printed bytes reproduce it exactly
    let out = run_chunked(b"\"hello\"", 4, CompressMode::SpacesOnly).unwrap();
    assert_eq!(out.printed, b"\"hello\"".to_vec());
    assert_eq!(out.completions, vec![7]);
    // the validator saw the string as one (synthetic) token
    assert_eq!(out.tokens, vec![Token::String(Cow::Owned(Vec::new()))]);
}

#[test]
fn long_string_many_refills() {
    let input = b"{\"key\": \"a longer string value that spans many windows\"}";
    let out = run_chunked(input, 6, CompressMode::SpacesOnly).unwrap();
    assert_eq!(out.completions, vec![input.len()]);
    // whitespace is compressed to spaces, and this input only has spaces,
    // so the printed bytes reproduce the input
    assert_eq!(out.printed, input.to_vec());
}

#[test]
fn chunked_uncompressed_reproduces_input() {
    // with compression off the driver's printed bytes reproduce the
    // input exactly, whatever the window size
    let input = b"{\"a\":\t[1,\n 22, \"a long string over many windows\"]}";
    for buffer_size in [3, 5, 7, 64, 1024] {
        let out = run_chunked(input, buffer_size, CompressMode::Off).unwrap();
        assert_eq!(out.printed, input.to_vec());
        assert_eq!(out.completions, vec![input.len()]);
    }
}

#[test]
fn stream_of_documents_has_boundaries() {
    // two back-to-back documents complete at offsets 7 and 14
    let out = run_chunked(b"{\"x\":1}{\"x\":2}", 5, CompressMode::SpacesOnly).unwrap();
    assert_eq!(out.completions, vec![7, 14]);
    let out = run_chunked(b"{\"x\":1}{\"x\":2}", 1024, CompressMode::SpacesOnly).unwrap();
    assert_eq!(out.completions, vec![7, 14]);
}

#[test]
fn chunked_reports_truncated_document() {
    let err = run_chunked(b"[1, 2", 4, CompressMode::SpacesOnly).unwrap_err();
    assert_eq!(
        err,
        DriverError::Validation(ValidationError::UnexpectedEndOfInput)
    );
    let err = run_chunked(b"tru", 8, CompressMode::SpacesOnly).unwrap_err();
    assert_eq!(
        err,
        DriverError::Tokenize(TokenizeError::UnexpectedEndOfInput)
    );
}

#[test]
fn reformat_single_document() {
    let out = reformat_document(b" {\"a\": 1}  ", CompressMode::SpacesOnly).unwrap();
    assert_eq!(out, b"{\"a\":1}".to_vec());
}

#[test]
fn reformat_compresses_mixed_whitespace() {
    // with all whitespace compressible, runs become spaces in the output
    let out = reformat_document(b"[1,\t\n 2]", CompressMode::AllWhitespace).unwrap();
    assert_eq!(out, b"[1,2]".to_vec());
    let out = reformat_document(b"\t{\"a\" :\n1}", CompressMode::AllWhitespace).unwrap();
    assert_eq!(out, b"{\"a\":1}".to_vec());
}

#[test]
fn reformat_rejects_trailing_comma() {
    // {"a":1,} fails at the closing brace: a key was expected
    let err = reformat_document(b"{\"a\":1,}", CompressMode::SpacesOnly).unwrap_err();
    assert_eq!(
        err,
        DriverError::Validation(ValidationError::Invalid(Some(
            ValidationContext::ObjectEntryComma
        )))
    );
}

#[test]
fn reformat_rejects_extra_and_empty_input() {
    let err = reformat_document(b"{} x", CompressMode::SpacesOnly).unwrap_err();
    assert_eq!(err, DriverError::ExtraInput);
    let err = reformat_document(b"   \n ", CompressMode::SpacesOnly).unwrap_err();
    assert_eq!(err, DriverError::EmptyInput);
    let err = reformat_document(b"@", CompressMode::SpacesOnly).unwrap_err();
    assert_eq!(
        err,
        DriverError::Tokenize(TokenizeError::UnexpectedByte(b'@'))
    );
}

#[test]
fn reformat_reports_truncated_document() {
    let err = reformat_document(b"[1, 2", CompressMode::SpacesOnly).unwrap_err();
    assert_eq!(
        err,
        DriverError::Validation(ValidationError::UnexpectedEndOfInput)
    );
}

#[test]
fn driver_window_machinery() {
    let mut d = ChunkedDriver::init(b"abcdefgh", 4);
    assert_eq!(d.section_size, 4);
    assert_eq!(&d.buffer[..4], &b"abcd"[..]);
    // keep the last two bytes, read two more after them
    let read = d.renew(2);
    assert_eq!(read, 2);
    assert_eq!(d.section_size, 4);
    assert_eq!(&d.buffer[..4], &b"cdef"[..]);
    // a full replacement
    let read = d.renew(4);
    assert_eq!(read, 2);
    assert_eq!(d.section_size, 2);
    assert_eq!(&d.buffer[..2], &b"gh"[..]);
    let read = d.renew(2);
    assert_eq!(read, 0);
    assert_eq!(d.section_size, 0);
}
