use parser::section::ByteSection;
use parser::tokenizer::{next_token, Token};
use parser::validator::ValidationContext::{ArrayComma, ArrayEnd, ArrayStart, ArrayValue, ObjectEntryColon, ObjectEntryComma, ObjectEntryKey, ObjectEntryValue};
use parser::validator::{ValidationContext, ValidationError, ValidationState, Validator};
use std::borrow::Cow;

fn feed(validator: &mut Validator, input: &[u8]) -> Result<ValidationState, ValidationError> {
    let mut s = ByteSection::new(input);
    let mut last = Ok(ValidationState::Incomplete);
    while !s.is_empty() {
        let token = next_token(&mut s).unwrap();
        if token.is_whitespace() {
            continue;
        }
        last = validator.process_token(&token);
        if last.is_err() {
            return last;
        }
    }
    last
}

#[test]
fn validator_accepts_document() {
    let mut v = Validator::new();
    let last = feed(&mut v, b"[1, {\"a\": null}, true]").unwrap();
    assert_eq!(last, ValidationState::Complete);
    assert_eq!(v.finish(), Ok(ValidationState::Complete));
    assert_eq!(v.current_context(), None);
    assert_eq!(v.container_depth(), 0);
}

#[test]
fn validator_scalar_is_complete() {
    let mut v = Validator::new();
    let state = v.process_token(&Token::Number(Cow::Borrowed(b"42"))).unwrap();
    assert_eq!(state, ValidationState::Complete);
    assert_eq!(v.finish(), Ok(ValidationState::Complete));
}

#[test]
fn validator_whitespace_is_ignored() {
    let mut v = Validator::new();
    assert_eq!(
        v.process_token(&Token::Spaces(4)),
        Ok(ValidationState::Ignored)
    );
    assert_eq!(
        v.process_token(&Token::Whitespace('\n')),
        Ok(ValidationState::Ignored)
    );
    assert_eq!(v.current_context(), None);
}

#[test]
fn validator_tracks_context_and_depth() {
    let mut v = Validator::new();
    v.process_token(&Token::ObjectOpen).unwrap();
    assert_eq!(v.current_context(), Some(ValidationContext::ObjectStart));
    assert_eq!(v.container_depth(), 1);
    assert!(v.current_context().unwrap().in_object());
    v.process_token(&Token::String(Cow::Borrowed(b"\"k\""))).unwrap();
    assert_eq!(v.current_context(), Some(ValidationContext::ObjectEntryKey));
    v.process_token(&Token::Colon).unwrap();
    assert_eq!(v.current_context(), Some(ValidationContext::ObjectEntryColon));
    v.process_token(&Token::ArrayOpen).unwrap();
    assert_eq!(v.current_context(), Some(ValidationContext::ArrayStart));
    assert_eq!(v.container_depth(), 2);
    assert!(v.current_context().unwrap().in_array());
    v.process_token(&Token::Number(Cow::Borrowed(b"1"))).unwrap();
    assert_eq!(v.current_context(), Some(ValidationContext::ArrayValue));
    assert!(v.current_context().unwrap().in_value());
    let state = v.process_token(&Token::ArrayClose).unwrap();
    assert_eq!(state, ValidationState::Incomplete);
    assert_eq!(v.current_context(), Some(ValidationContext::ObjectEntryValue));
    assert_eq!(v.container_depth(), 1);
    let state = v.process_token(&Token::ObjectClose).unwrap();
    assert_eq!(state, ValidationState::Complete);
    assert_eq!(v.current_context(), None);

    // finishing mid-document is an error, and reset clears the state
    let mut v = Validator::new();
    v.process_token(&Token::ArrayOpen).unwrap();
    assert_eq!(v.finish(), Err(ValidationError::UnexpectedEndOfInput));
    v.reset();
    assert_eq!(v.finish(), Ok(ValidationState::Complete));
}

#[test]
fn validator_rejects_invalid_tokens() {
    // a close token at the top level needs a context
    let mut v = Validator::new();
    assert_eq!(
        v.process_token(&Token::ArrayClose),
        Err(ValidationError::Invalid(None))
    );

    // a comma straight after an opening bracket
    let mut v = Validator::new();
    v.process_token(&Token::ArrayOpen).unwrap();
    assert_eq!(
        v.process_token(&Token::Comma),
        Err(ValidationError::Invalid(Some(ValidationContext::ArrayStart)))
    );

    // an object key must be a string
    let mut v = Validator::new();
    v.process_token(&Token::ObjectOpen).unwrap();
    assert_eq!(
        v.process_token(&Token::Number(Cow::Borrowed(b"1"))),
        Err(ValidationError::Invalid(Some(ValidationContext::ObjectStart)))
    );
}

#[test]
fn validation_context_tables() {
    assert!(ArrayStart.is_valid_sequent(ArrayValue));
    assert!(ArrayStart.is_valid_sequent(ArrayEnd));
    assert!(!ArrayStart.is_valid_sequent(ArrayComma));
    assert!(ObjectEntryKey.is_valid_sequent(ObjectEntryColon));
    assert!(!ObjectEntryKey.is_valid_sequent(ObjectEntryValue));
    assert_eq!(ArrayStart.valid_sequents(), vec![ArrayValue, ArrayEnd]);
    assert_eq!(ObjectEntryComma.valid_sequents(), vec![ObjectEntryKey]);
    assert_eq!(ArrayEnd.valid_sequents(), vec![]);
    assert!(ObjectEntryValue.in_value());
    assert!(ObjectEntryValue.before_value());
    assert!(!ObjectEntryColon.in_value());
    assert!(!ArrayValue.in_object());
}
