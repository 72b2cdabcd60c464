//! The incremental JSON tokenizer.
//!
//! `compress_next_token` consumes exactly one token from a byte cursor.  On
//! an unexpected end of the window it reports, through
//! `TokenizeError::UnexpectedEndOfInputWithContext`, where the token began
//! (`token_start`) and from which offset the caller should re-tokenize after
//! refilling the window (`recovery_point`); an error is recoverable exactly
//! when both are present.
//!
//! The whole lexical grammar is written down as spec functions over the
//! source bytes (`spec_next_token` and its helpers); every exec function
//! here is proved to return precisely what those functions say.

use crate::section::ByteSection;
use crate::utf8;
use crate::JsonType;
use std::borrow::Cow;
use vstd::prelude::*;

verus! {

// ---------------------------------------------------------------------------
// Byte classes
// ---------------------------------------------------------------------------
/// Compressible whitespace: space, tab, newline.
pub open spec fn spec_is_whitespace(c: u8) -> bool {
    c == 0x20 || c == 0x09 || c == 0x0A
}

pub open spec fn spec_is_digit(c: u8) -> bool {
    0x30 <= c <= 0x39
}

pub open spec fn spec_is_hexdigit(c: u8) -> bool {
    spec_is_digit(c) || (0x41 <= c <= 0x46) || (0x61 <= c <= 0x66)
}

/// The bytes that may follow a backslash on their own: `" \ / b f n r t`.
pub open spec fn spec_is_single_escape(c: u8) -> bool {
    c == 0x22 || c == 0x2F || c == 0x5C || c == 0x62 || c == 0x66 || c == 0x6E || c == 0x72 || c
        == 0x74
}

/// A byte inside a string body that needs special handling: a closing
/// quote, a backslash, a control byte, or the start of a multi-byte
/// character.
pub open spec fn spec_is_string_special(c: u8) -> bool {
    c == 0x22 || c == 0x5C || c < 0x20 || c >= 0x80
}

pub fn is_whitespace(c: u8) -> (r: bool)
    ensures
        r == spec_is_whitespace(c),
{
    c == 0x20u8 || c == 0x09 || c == 0x0A
}

pub fn is_digit(c: u8) -> (r: bool)
    ensures
        r == spec_is_digit(c),
{
    let r = (c ^ 0x30) < 10;
    proof {
        assert((c ^ 0x30) < 10 <==> (0x30 <= c <= 0x39)) by (bit_vector);
    }
    r
}

pub fn is_hexdigit(c: u8) -> (r: bool)
    ensures
        r == spec_is_hexdigit(c),
{
    (0x30u8 <= c && c <= 0x39u8) || (0x41u8 <= c && c <= 0x46u8) || (0x61u8 <= c && c <= 0x66u8)
}

fn is_single_escape(c: u8) -> (r: bool)
    ensures
        r == spec_is_single_escape(c),
{
    c == 0x22 || c == 0x2F || c == 0x5C || c == 0x62u8 || c == 0x66u8 || c == 0x6Eu8 || c == 0x72u8 || c
        == 0x74u8
}

fn is_string_special(c: u8) -> (r: bool)
    ensures
        r == spec_is_string_special(c),
{
    c == 0x22 || c == 0x5C || c < 0x20 || c >= 0x80
}

// ---------------------------------------------------------------------------
// Errors
// ---------------------------------------------------------------------------
/// Which multi-byte token was being lexed when an error occurred.
#[derive(Debug, Copy, Clone, PartialEq, Eq, Structural)]
pub enum TokenContext {
    String,
    Number,
    True,
    False,
    Null,
}

#[derive(Clone, Debug, PartialEq)]
pub enum TokenizeError {
    /// Fatal: a byte that no token can start or continue with.
    UnexpectedByte(u8),
    /// Fatal, recording which token was in progress.
    UnexpectedByteWithContext { byte: u8, context: TokenContext },
    /// The window ended mid-token, with nothing known about recovery.
    UnexpectedEndOfInput,
    /// The window ended mid-token.  `token_start` is where the token began
    /// and `recovery_point` the offset from which to re-tokenize after a
    /// refill; the error is recoverable exactly when both are present.
    UnexpectedEndOfInputWithContext {
        context: Option<TokenContext>,
        expected_byte: Option<u8>,
        recovery_point: Option<usize>,
        token_start: Option<usize>,
    },
    /// `\u` followed by anything but four hex digits.
    InvalidStringUnicodeEscape(Vec<u8>),
    /// A backslash followed by a byte that is not a valid escape.
    InvalidStringEscape(u8),
    /// An unescaped control byte, or a byte that cannot begin a codepoint.
    InvalidStringCodepoint(u32),
}

/// Mathematical model of a `TokenizeError`.
pub enum TokenizeErrorModel {
    UnexpectedByte(u8),
    UnexpectedByteWithContext { byte: u8, context: TokenContext },
    UnexpectedEndOfInput,
    UnexpectedEndOfInputWithContext {
        context: Option<TokenContext>,
        expected_byte: Option<u8>,
        recovery_point: Option<int>,
        token_start: Option<int>,
    },
    InvalidStringUnicodeEscape(Seq<u8>),
    InvalidStringEscape(u8),
    InvalidStringCodepoint(u32),
}

impl View for TokenizeError {
    type V = TokenizeErrorModel;

    open spec fn view(&self) -> TokenizeErrorModel {
        match self {
            TokenizeError::UnexpectedByte(b) => TokenizeErrorModel::UnexpectedByte(*b),
            TokenizeError::UnexpectedByteWithContext { byte, context } =>
                TokenizeErrorModel::UnexpectedByteWithContext {
                byte: *byte,
                context: *context,
            },
            TokenizeError::UnexpectedEndOfInput => TokenizeErrorModel::UnexpectedEndOfInput,
            TokenizeError::UnexpectedEndOfInputWithContext {
                context,
                expected_byte,
                recovery_point,
                token_start,
            } => TokenizeErrorModel::UnexpectedEndOfInputWithContext {
                context: *context,
                expected_byte: *expected_byte,
                recovery_point: match recovery_point {
                    Some(n) => Some(*n as int),
                    None => None,
                },
                token_start: match token_start {
                    Some(n) => Some(*n as int),
                    None => None,
                },
            },
            TokenizeError::InvalidStringUnicodeEscape(v) =>
                TokenizeErrorModel::InvalidStringUnicodeEscape(v@),
            TokenizeError::InvalidStringEscape(b) => TokenizeErrorModel::InvalidStringEscape(*b),
            TokenizeError::InvalidStringCodepoint(u) => TokenizeErrorModel::InvalidStringCodepoint(
                *u,
            ),
        }
    }
}

/// An end-of-input error is recoverable when it says both where the token
/// began and from where to re-tokenize.
pub open spec fn spec_is_recoverable(m: TokenizeErrorModel) -> bool {
    m matches TokenizeErrorModel::UnexpectedEndOfInputWithContext {
        recovery_point: Some(_),
        token_start: Some(_),
        ..
    }
}

pub open spec fn spec_recovery_point(m: TokenizeErrorModel) -> Option<int> {
    match m {
        TokenizeErrorModel::UnexpectedEndOfInputWithContext { recovery_point, .. } =>
            recovery_point,
        _ => None,
    }
}

pub open spec fn spec_token_start(m: TokenizeErrorModel) -> Option<int> {
    match m {
        TokenizeErrorModel::UnexpectedEndOfInputWithContext { token_start, .. } => token_start,
        _ => None,
    }
}

pub open spec fn spec_context(m: TokenizeErrorModel) -> Option<TokenContext> {
    match m {
        TokenizeErrorModel::UnexpectedEndOfInputWithContext { context, .. } => context,
        TokenizeErrorModel::UnexpectedByteWithContext { context, .. } => Some(context),
        _ => None,
    }
}

/// `with_recovery_point` on the model: records the offset on an
/// end-of-input error and leaves every other error unchanged.
pub open spec fn spec_with_recovery_point(m: TokenizeErrorModel, n: int) -> TokenizeErrorModel {
    match m {
        TokenizeErrorModel::UnexpectedEndOfInput =>
            TokenizeErrorModel::UnexpectedEndOfInputWithContext {
            context: None,
            expected_byte: None,
            recovery_point: Some(n),
            token_start: None,
        },
        TokenizeErrorModel::UnexpectedEndOfInputWithContext {
            context,
            expected_byte,
            token_start,
            ..
        } => TokenizeErrorModel::UnexpectedEndOfInputWithContext {
            context,
            expected_byte,
            recovery_point: Some(n),
            token_start,
        },
        other => other,
    }
}

/// `with_token_start` on the model.
pub open spec fn spec_with_token_start(m: TokenizeErrorModel, n: int) -> TokenizeErrorModel {
    match m {
        TokenizeErrorModel::UnexpectedEndOfInput =>
            TokenizeErrorModel::UnexpectedEndOfInputWithContext {
            context: None,
            expected_byte: None,
            recovery_point: None,
            token_start: Some(n),
        },
        TokenizeErrorModel::UnexpectedEndOfInputWithContext {
            context,
            expected_byte,
            recovery_point,
            ..
        } => TokenizeErrorModel::UnexpectedEndOfInputWithContext {
            context,
            expected_byte,
            recovery_point,
            token_start: Some(n),
        },
        other => other,
    }
}

/// `with_context` on the model: a plain unexpected byte gains the context;
/// end-of-input errors record it; string errors pass through unchanged.
pub open spec fn spec_with_context(
    m: TokenizeErrorModel,
    context: TokenContext,
) -> TokenizeErrorModel {
    match m {
        TokenizeErrorModel::UnexpectedByte(byte) => TokenizeErrorModel::UnexpectedByteWithContext {
            byte,
            context,
        },
        TokenizeErrorModel::UnexpectedEndOfInput =>
            TokenizeErrorModel::UnexpectedEndOfInputWithContext {
            context: Some(context),
            expected_byte: None,
            recovery_point: None,
            token_start: None,
        },
        TokenizeErrorModel::UnexpectedEndOfInputWithContext {
            expected_byte,
            recovery_point,
            token_start,
            ..
        } => TokenizeErrorModel::UnexpectedEndOfInputWithContext {
            context: Some(context),
            expected_byte,
            recovery_point,
            token_start,
        },
        other => other,
    }
}

impl TokenizeError {
    /// True for either end-of-input variant.
    pub fn is_eof(&self) -> (r: bool)
        ensures
            r == (self@ is UnexpectedEndOfInput || self@ is UnexpectedEndOfInputWithContext),
    {
        match self {
            TokenizeError::UnexpectedEndOfInput => true,
            TokenizeError::UnexpectedEndOfInputWithContext { .. } => true,
            _ => false,
        }
    }

    pub fn recovery_point(&self) -> (r: Option<usize>)
        ensures
            spec_recovery_point(self@) == match r {
                Some(n) => Some(n as int),
                None => None::<int>,
            },
    {
        match self {
            TokenizeError::UnexpectedEndOfInputWithContext { recovery_point, .. } =>
                *recovery_point,
            _ => None,
        }
    }

    pub fn token_start(&self) -> (r: Option<usize>)
        ensures
            spec_token_start(self@) == match r {
                Some(n) => Some(n as int),
                None => None::<int>,
            },
    {
        match self {
            TokenizeError::UnexpectedEndOfInputWithContext { token_start, .. } => *token_start,
            _ => None,
        }
    }

    pub fn context(&self) -> (r: Option<TokenContext>)
        ensures
            r == spec_context(self@),
    {
        match self {
            TokenizeError::UnexpectedEndOfInputWithContext { context, .. } => *context,
            TokenizeError::UnexpectedByteWithContext { context, .. } => Some(*context),
            _ => None,
        }
    }

    /// Records the offset from which to re-tokenize after a refill.
    pub fn with_recovery_point(self, n: usize) -> (r: TokenizeError)
        ensures
            r@ == spec_with_recovery_point(self@, n as int),
    {
        match self {
            TokenizeError::UnexpectedEndOfInput => TokenizeError::UnexpectedEndOfInputWithContext {
                context: None,
                expected_byte: None,
                recovery_point: Some(n),
                token_start: None,
            },
            TokenizeError::UnexpectedEndOfInputWithContext {
                context,
                expected_byte,
                token_start,
                ..
            } => TokenizeError::UnexpectedEndOfInputWithContext {
                context,
                expected_byte,
                recovery_point: Some(n),
                token_start,
            },
            other => other,
        }
    }

    /// Records where the failing token began.
    pub fn with_token_start(self, n: usize) -> (r: TokenizeError)
        ensures
            r@ == spec_with_token_start(self@, n as int),
    {
        match self {
            TokenizeError::UnexpectedEndOfInput => TokenizeError::UnexpectedEndOfInputWithContext {
                context: None,
                expected_byte: None,
                recovery_point: None,
                token_start: Some(n),
            },
            TokenizeError::UnexpectedEndOfInputWithContext {
                context,
                expected_byte,
                recovery_point,
                ..
            } => TokenizeError::UnexpectedEndOfInputWithContext {
                context,
                expected_byte,
                recovery_point,
                token_start: Some(n),
            },
            other => other,
        }
    }

    /// Records which token was being lexed.
    pub fn with_context(self, context: TokenContext) -> (r: TokenizeError)
        ensures
            r@ == spec_with_context(self@, context),
    {
        match self {
            TokenizeError::UnexpectedByte(byte) => TokenizeError::UnexpectedByteWithContext {
                byte,
                context,
            },
            TokenizeError::UnexpectedEndOfInput => TokenizeError::UnexpectedEndOfInputWithContext {
                context: Some(context),
                expected_byte: None,
                recovery_point: None,
                token_start: None,
            },
            TokenizeError::UnexpectedEndOfInputWithContext {
                expected_byte,
                recovery_point,
                token_start,
                ..
            } => TokenizeError::UnexpectedEndOfInputWithContext {
                context: Some(context),
                expected_byte,
                recovery_point,
                token_start,
            },
            other => other,
        }
    }
}

/// Auxiliary error metadata, kept for callers that collect it separately.
#[derive(Debug)]
pub struct TokenizeErrorContext {
    pub expected_byte: Option<u8>,
    pub token_context: Option<TokenContext>,
    pub recovery_point: Option<usize>,
}

pub type TokenizeResult<T> = std::result::Result<T, TokenizeError>;

// ---------------------------------------------------------------------------
// Tokens
// ---------------------------------------------------------------------------
/// One lexical unit.  `String` and `Number` carry the raw lexeme verbatim
/// (for strings, quotes and escapes included), borrowed from the cursor's
/// source when possible and owned after `into_owned`.
#[derive(Debug, PartialEq)]
pub enum Token<'a> {
    /// A run of 1 to 255 compressible whitespace bytes.
    Spaces(u8),
    /// A single whitespace byte, kept verbatim when compression is off.
    Whitespace(char),
    ObjectOpen,
    ObjectClose,
    Comma,
    Colon,
    String(Cow<'a, [u8]>),
    Number(Cow<'a, [u8]>),
    ArrayOpen,
    ArrayClose,
    True,
    False,
    Null,
}

/// Mathematical model of a token: payloads become byte sequences.
pub enum TokenModel {
    Spaces(u8),
    Whitespace(char),
    ObjectOpen,
    ObjectClose,
    Comma,
    Colon,
    String(Seq<u8>),
    Number(Seq<u8>),
    ArrayOpen,
    ArrayClose,
    True,
    False,
    Null,
}

impl<'a> View for Token<'a> {
    type V = TokenModel;

    open spec fn view(&self) -> TokenModel {
        match self {
            Token::Spaces(n) => TokenModel::Spaces(*n),
            Token::Whitespace(c) => TokenModel::Whitespace(*c),
            Token::ObjectOpen => TokenModel::ObjectOpen,
            Token::ObjectClose => TokenModel::ObjectClose,
            Token::Comma => TokenModel::Comma,
            Token::Colon => TokenModel::Colon,
            Token::String(s) => TokenModel::String(s@),
            Token::Number(s) => TokenModel::Number(s@),
            Token::ArrayOpen => TokenModel::ArrayOpen,
            Token::ArrayClose => TokenModel::ArrayClose,
            Token::True => TokenModel::True,
            Token::False => TokenModel::False,
            Token::Null => TokenModel::Null,
        }
    }
}

impl<'a> DeepView for Token<'a> {
    type V = TokenModel;

    open spec fn deep_view(&self) -> TokenModel {
        self.view()
    }
}

impl<'a> Clone for Token<'a> {
    fn clone(&self) -> (r: Self)
        ensures
            r@ == self@,
    {
        match self {
            Token::Spaces(n) => Token::Spaces(*n),
            Token::Whitespace(c) => Token::Whitespace(*c),
            Token::ObjectOpen => Token::ObjectOpen,
            Token::ObjectClose => Token::ObjectClose,
            Token::Comma => Token::Comma,
            Token::Colon => Token::Colon,
            Token::String(s) => Token::String(clone_cow_bytes(s)),
            Token::Number(s) => Token::Number(clone_cow_bytes(s)),
            Token::ArrayOpen => Token::ArrayOpen,
            Token::ArrayClose => Token::ArrayClose,
            Token::True => Token::True,
            Token::False => Token::False,
            Token::Null => Token::Null,
        }
    }
}

fn clone_cow_bytes<'a>(c: &Cow<'a, [u8]>) -> (r: Cow<'a, [u8]>)
    ensures
        r@ == c@,
{
    match c {
        Cow::Borrowed(s) => Cow::Borrowed(*s),
        Cow::Owned(v) => {
            let w = v.clone();
            proof {
                assert(w@ =~= v@);
            }
            Cow::Owned(w)
        }
    }
}

/// The bytes held by a token payload.
fn cow_bytes_len(c: &Cow<'_, [u8]>) -> (r: usize)
    ensures
        r == c@.len(),
{
    match c {
        Cow::Borrowed(s) => s.len(),
        Cow::Owned(v) => v.len(),
    }
}

fn cow_bytes_slice<'x, 'a>(c: &'x Cow<'a, [u8]>) -> (r: &'x [u8])
    ensures
        r@ == c@,
{
    match c {
        Cow::Borrowed(s) => s,
        Cow::Owned(v) => v.as_slice(),
    }
}

/// Relies on `std::str::from_utf8`: succeeds exactly on valid UTF-8 and
/// then yields the decoded characters of the input bytes.
#[verifier::external_body]
fn bytes_to_str(v: &[u8]) -> (r: Option<&str>)
    ensures
        match r {
            Some(s) => vstd::utf8::valid_utf8(v@) && s@ == vstd::utf8::decode_utf8(v@),
            None => !vstd::utf8::valid_utf8(v@),
        },
{
    std::str::from_utf8(v).ok()
}

/// Whether a token is whitespace (ignored by the validator).
pub open spec fn spec_token_is_whitespace(t: TokenModel) -> bool {
    t is Spaces || t is Whitespace
}

pub open spec fn spec_token_is_close(t: TokenModel) -> bool {
    t is ArrayClose || t is ObjectClose
}

pub open spec fn spec_token_is_open(t: TokenModel) -> bool {
    t is ArrayOpen || t is ObjectOpen
}

/// The JSON type a token belongs to; container opens and closes both map to
/// their container type, whitespace and punctuation to nothing.
pub open spec fn spec_token_value_type(t: TokenModel) -> Option<JsonType> {
    match t {
        TokenModel::String(_) => Some(JsonType::String),
        TokenModel::Number(_) => Some(JsonType::Number),
        TokenModel::ObjectOpen | TokenModel::ObjectClose => Some(JsonType::Object),
        TokenModel::ArrayOpen | TokenModel::ArrayClose => Some(JsonType::Array),
        TokenModel::Null => Some(JsonType::Null),
        TokenModel::True | TokenModel::False => Some(JsonType::Bool),
        _ => None,
    }
}

/// Whether a token can begin a JSON value.
pub open spec fn spec_token_is_value_start(t: TokenModel) -> bool {
    match t {
        TokenModel::False
        | TokenModel::True
        | TokenModel::Null
        | TokenModel::Number(_)
        | TokenModel::String(_)
        | TokenModel::ArrayOpen
        | TokenModel::ObjectOpen => true,
        _ => false,
    }
}

/// Whether a token is a complete leaf value on its own.
pub open spec fn spec_token_is_complete_value(t: TokenModel) -> bool {
    match t {
        TokenModel::False
        | TokenModel::True
        | TokenModel::Null
        | TokenModel::Number(_)
        | TokenModel::String(_) => true,
        _ => false,
    }
}

/// How many characters a token stands for.
pub open spec fn spec_token_char_count(t: TokenModel) -> int {
    match t {
        TokenModel::String(s) => s.len() as int,
        TokenModel::Number(s) => s.len() as int,
        TokenModel::Spaces(n) => n as int,
        TokenModel::Null | TokenModel::True => 4,
        TokenModel::False => 5,
        _ => 1,
    }
}

/// The bytes a token prints as.  `Spaces(n)` prints as n space bytes, so
/// compression normalizes tabs and newlines; every other token reproduces
/// its source bytes exactly.
pub open spec fn spec_print_token(t: TokenModel) -> Seq<u8> {
    match t {
        TokenModel::String(s) => s,
        TokenModel::Number(s) => s,
        TokenModel::Whitespace(c) => utf8::spec_char_utf8(c),
        TokenModel::Spaces(n) => Seq::new(n as nat, |i: int| 0x20u8),
        TokenModel::ObjectOpen => seq![0x7Bu8],
        TokenModel::ObjectClose => seq![0x7Du8],
        TokenModel::Comma => seq![0x2Cu8],
        TokenModel::Colon => seq![0x3Au8],
        TokenModel::ArrayOpen => seq![0x5Bu8],
        TokenModel::ArrayClose => seq![0x5Du8],
        TokenModel::Null => seq![0x6Eu8, 0x75u8, 0x6Cu8, 0x6Cu8],
        TokenModel::True => seq![0x74u8, 0x72u8, 0x75u8, 0x65u8],
        TokenModel::False => seq![0x66u8, 0x61u8, 0x6Cu8, 0x73u8, 0x65u8],
    }
}

impl<'a> Token<'a> {
    /// Promotes a borrowed token to one that owns its bytes, so it may
    /// outlive the buffer it was lexed from.  The token's value is
    /// unchanged.
    pub fn into_owned(self) -> (r: Token<'static>)
        ensures
            r@ == self@,
    {
        match self {
            Token::Spaces(x) => Token::Spaces(x),
            Token::Whitespace(x) => Token::Whitespace(x),
            Token::String(x) => Token::String(
                Cow::Owned(
                    match x {
                        Cow::Borrowed(s) => vstd::slice::slice_to_vec(s),
                        Cow::Owned(v) => v,
                    },
                ),
            ),
            Token::Number(x) => Token::Number(
                Cow::Owned(
                    match x {
                        Cow::Borrowed(s) => vstd::slice::slice_to_vec(s),
                        Cow::Owned(v) => v,
                    },
                ),
            ),
            Token::ObjectOpen => Token::ObjectOpen,
            Token::ObjectClose => Token::ObjectClose,
            Token::Comma => Token::Comma,
            Token::Colon => Token::Colon,
            Token::ArrayOpen => Token::ArrayOpen,
            Token::ArrayClose => Token::ArrayClose,
            Token::Null => Token::Null,
            Token::True => Token::True,
            Token::False => Token::False,
        }
    }

    pub fn is_whitespace(&self) -> (r: bool)
        ensures
            r == spec_token_is_whitespace(self@),
    {
        match self {
            Token::Whitespace(_) | Token::Spaces(_) => true,
            _ => false,
        }
    }

    pub fn is_close(&self) -> (r: bool)
        ensures
            r == spec_token_is_close(self@),
    {
        match self {
            Token::ArrayClose | Token::ObjectClose => true,
            _ => false,
        }
    }

    pub fn is_open(&self) -> (r: bool)
        ensures
            r == spec_token_is_open(self@),
    {
        match self {
            Token::ArrayOpen | Token::ObjectOpen => true,
            _ => false,
        }
    }

    pub fn value_type(&self) -> (r: Option<JsonType>)
        ensures
            r == spec_token_value_type(self@),
    {
        match self {
            Token::String(_) => Some(JsonType::String),
            Token::Number(_) => Some(JsonType::Number),
            Token::ObjectOpen | Token::ObjectClose => Some(JsonType::Object),
            Token::ArrayOpen | Token::ArrayClose => Some(JsonType::Array),
            Token::Null => Some(JsonType::Null),
            Token::True | Token::False => Some(JsonType::Bool),
            _ => None,
        }
    }

    pub fn is_value_start(&self) -> (r: bool)
        ensures
            r == spec_token_is_value_start(self@),
    {
        match self {
            Token::False
            | Token::True
            | Token::Null
            | Token::Number(_)
            | Token::String(_)
            | Token::ArrayOpen
            | Token::ObjectOpen => true,
            _ => false,
        }
    }

    pub fn is_complete_value(&self) -> (r: bool)
        ensures
            r == spec_token_is_complete_value(self@),
    {
        match self {
            Token::False | Token::True | Token::Null | Token::Number(_) | Token::String(_) => true,
            _ => false,
        }
    }

    /// The string lexeme as text, when this is a string token holding
    /// valid UTF-8.
    pub fn as_string(&self) -> (r: Option<&str>)
        ensures
            match self@ {
                TokenModel::String(bytes) => match r {
                    Some(s) => vstd::utf8::valid_utf8(bytes) && s@ == vstd::utf8::decode_utf8(
                        bytes,
                    ),
                    None => !vstd::utf8::valid_utf8(bytes),
                },
                _ => r is None,
            },
    {
        match self {
            Token::String(c) => bytes_to_str(cow_bytes_slice(c)),
            _ => None,
        }
    }

    pub fn as_bool(&self) -> (r: Option<bool>)
        ensures
            r == match self@ {
                TokenModel::True => Some(true),
                TokenModel::False => Some(false),
                _ => None::<bool>,
            },
    {
        match self {
            Token::True => Some(true),
            Token::False => Some(false),
            _ => None,
        }
    }

    /// The raw numeric lexeme, when this is a number token.
    pub fn as_number(&self) -> (r: Option<&[u8]>)
        ensures
            match self@ {
                TokenModel::Number(s) => r matches Some(b) && b@ == s,
                _ => r is None,
            },
    {
        match self {
            Token::Number(x) => Some(cow_bytes_slice(x)),
            _ => None,
        }
    }

    /// True exactly for number tokens: a number that ends at the end of the
    /// window may continue in unread input, so a match there may be a false
    /// positive and the caller should re-lex it after a refill.
    pub fn potential_false_positive(&self) -> (r: bool)
        ensures
            r == (self@ is Number),
    {
        match self {
            Token::Number(_) => true,
            _ => false,
        }
    }

    pub fn char_count(&self) -> (r: usize)
        ensures
            r == spec_token_char_count(self@),
    {
        match self {
            Token::String(s) => cow_bytes_len(s),
            Token::Number(s) => cow_bytes_len(s),
            Token::Spaces(n) => *n as usize,
            Token::Null | Token::True => 4,
            Token::False => 5,
            _ => 1,
        }
    }

    /// Serializes the token back as bytes, appending to `writer`.
    pub fn print(&self, writer: &mut Vec<u8>)
        ensures
            final(writer)@ == old(writer)@ + spec_print_token(self@),
    {
        match self {
            Token::String(x) | Token::Number(x) => {
                let s = cow_bytes_slice(x);
                let mut i: usize = 0;
                while i < s.len()
                    invariant
                        i <= s@.len(),
                        writer@ == old(writer)@ + s@.subrange(0, i as int),
                    decreases s@.len() - i,
                {
                    writer.push(s[i]);
                    i = i + 1;
                    proof {
                        assert(writer@ =~= old(writer)@ + s@.subrange(0, i as int));
                    }
                }
                proof {
                    assert(s@.subrange(0, s@.len() as int) =~= s@);
                }
            }
            Token::Whitespace(x) => {
                utf8::push_char_utf8(writer, *x);
            }
            Token::Spaces(x) => {
                let n = *x;
                let mut i: u8 = 0;
                while i < n
                    invariant
                        i <= n,
                        writer@ == old(writer)@ + Seq::new(i as nat, |j: int| 0x20u8),
                    decreases n - i,
                {
                    writer.push(0x20u8);
                    i = i + 1;
                    proof {
                        assert(writer@ =~= old(writer)@ + Seq::new(i as nat, |j: int| 0x20u8));
                    }
                }
            }
            Token::ObjectOpen => {
                writer.push(0x7Bu8);
                proof {
                    assert(writer@ =~= old(writer)@ + spec_print_token(self@));
                }
            }
            Token::ObjectClose => {
                writer.push(0x7Du8);
                proof {
                    assert(writer@ =~= old(writer)@ + spec_print_token(self@));
                }
            }
            Token::Comma => {
                writer.push(0x2Cu8);
                proof {
                    assert(writer@ =~= old(writer)@ + spec_print_token(self@));
                }
            }
            Token::Colon => {
                writer.push(0x3Au8);
                proof {
                    assert(writer@ =~= old(writer)@ + spec_print_token(self@));
                }
            }
            Token::ArrayOpen => {
                writer.push(0x5Bu8);
                proof {
                    assert(writer@ =~= old(writer)@ + spec_print_token(self@));
                }
            }
            Token::ArrayClose => {
                writer.push(0x5Du8);
                proof {
                    assert(writer@ =~= old(writer)@ + spec_print_token(self@));
                }
            }
            Token::Null => {
                writer.push(0x6Eu8);
                writer.push(0x75u8);
                writer.push(0x6Cu8);
                writer.push(0x6Cu8);
                proof {
                    assert(writer@ =~= old(writer)@ + spec_print_token(self@));
                }
            }
            Token::False => {
                writer.push(0x66u8);
                writer.push(0x61u8);
                writer.push(0x6Cu8);
                writer.push(0x73u8);
                writer.push(0x65u8);
                proof {
                    assert(writer@ =~= old(writer)@ + spec_print_token(self@));
                }
            }
            Token::True => {
                writer.push(0x74u8);
                writer.push(0x72u8);
                writer.push(0x75u8);
                writer.push(0x65u8);
                proof {
                    assert(writer@ =~= old(writer)@ + spec_print_token(self@));
                }
            }
        }
    }
}

/// `UnexpectedByte` for a byte that was seen, `UnexpectedEndOfInput` for a
/// missing one.
pub fn invalid_input_err(s: Option<u8>) -> (r: TokenizeError)
    ensures
        r@ == match s {
            Some(c) => TokenizeErrorModel::UnexpectedByte(c),
            None => TokenizeErrorModel::UnexpectedEndOfInput,
        },
{
    match s {
        Some(c) => TokenizeError::UnexpectedByte(c),
        None => TokenizeError::UnexpectedEndOfInput,
    }
}

// ---------------------------------------------------------------------------
// The lexical grammar, as spec functions over the source bytes
// ---------------------------------------------------------------------------
/// The first offset at or after `i` that does not hold a digit.
pub open spec fn spec_skip_digits(src: Seq<u8>, i: int) -> int
    decreases src.len() - i,
{
    if 0 <= i < src.len() && spec_is_digit(src[i]) {
        spec_skip_digits(src, i + 1)
    } else {
        i
    }
}

/// The first offset at or after `i` that does not hold a hex digit.
pub open spec fn spec_skip_hexdigits(src: Seq<u8>, i: int) -> int
    decreases src.len() - i,
{
    if 0 <= i < src.len() && spec_is_hexdigit(src[i]) {
        spec_skip_hexdigits(src, i + 1)
    } else {
        i
    }
}

/// The first offset at or after `i` that does not hold whitespace.
pub open spec fn spec_skip_whitespace(src: Seq<u8>, i: int) -> int
    decreases src.len() - i,
{
    if 0 <= i < src.len() && spec_is_whitespace(src[i]) {
        spec_skip_whitespace(src, i + 1)
    } else {
        i
    }
}

pub proof fn lemma_skip_whitespace(src: Seq<u8>, i: int)
    requires
        0 <= i <= src.len(),
    ensures
        i <= spec_skip_whitespace(src, i) <= src.len(),
        forall|j: int| i <= j < spec_skip_whitespace(src, i) ==> spec_is_whitespace(src[j]),
        spec_skip_whitespace(src, i) < src.len() ==> !spec_is_whitespace(
            src[spec_skip_whitespace(src, i)],
        ),
    decreases src.len() - i,
{
    if i < src.len() && spec_is_whitespace(src[i]) {
        lemma_skip_whitespace(src, i + 1);
    }
}

/// The fractional part after the integer digits: a dot must be followed by
/// at least one digit.  `Ok` carries the offset past the (possibly absent)
/// fraction; errors are unenriched.
pub open spec fn spec_scan_frac(src: Seq<u8>, i: int) -> Result<int, TokenizeErrorModel> {
    if i < src.len() && src[i] == 0x2E {
        if i + 1 >= src.len() {
            Err(TokenizeErrorModel::UnexpectedEndOfInput)
        } else if !spec_is_digit(src[i + 1]) {
            Err(TokenizeErrorModel::UnexpectedByte(src[i + 1]))
        } else {
            Ok(spec_skip_digits(src, i + 2))
        }
    } else {
        Ok(i)
    }
}

/// The exponent part: `e` or `E`, an optional sign, then at least one
/// digit.
pub open spec fn spec_scan_exp(src: Seq<u8>, i: int) -> Result<int, TokenizeErrorModel> {
    if i < src.len() && (src[i] == 0x65 || src[i] == 0x45) {
        let j = if i + 1 < src.len() && (src[i + 1] == 0x2D || src[i + 1] == 0x2B) {
            i + 2
        } else {
            i + 1
        };
        if j >= src.len() {
            Err(TokenizeErrorModel::UnexpectedEndOfInput)
        } else if !spec_is_digit(src[j]) {
            Err(TokenizeErrorModel::UnexpectedByte(src[j]))
        } else {
            Ok(spec_skip_digits(src, j + 1))
        }
    } else {
        Ok(i)
    }
}

/// A number without its optional minus sign: `0` or a nonzero digit run,
/// then fraction and exponent.
pub open spec fn spec_scan_positive_number(src: Seq<u8>, i: int) -> Result<
    int,
    TokenizeErrorModel,
> {
    if i < src.len() && src[i] == 0x30 {
        match spec_scan_frac(src, i + 1) {
            Ok(j) => spec_scan_exp(src, j),
            Err(e) => Err(e),
        }
    } else if i >= src.len() {
        Err(TokenizeErrorModel::UnexpectedEndOfInput)
    } else if !spec_is_digit(src[i]) {
        Err(TokenizeErrorModel::UnexpectedByte(src[i]))
    } else {
        match spec_scan_frac(src, spec_skip_digits(src, i + 1)) {
            Ok(j) => spec_scan_exp(src, j),
            Err(e) => Err(e),
        }
    }
}

/// A complete number lexeme: RFC 7159 `[-] int [frac] [exp]`.
pub open spec fn spec_scan_number(src: Seq<u8>, i: int) -> Result<int, TokenizeErrorModel> {
    if i < src.len() && src[i] == 0x2D {
        spec_scan_positive_number(src, i + 1)
    } else {
        spec_scan_positive_number(src, i)
    }
}

/// What went wrong while scanning a string body.  `Eoi` carries the offset
/// of the element being scanned when the window ended, which is where
/// scanning should resume after a refill; the fatal errors carry `at`, the
/// offset of the element (escape, control byte or leading byte) that was
/// malformed.
pub enum StringScanError {
    Eoi { recovery: int },
    BadEscape { byte: u8, at: int },
    BadUnicode { digits: Seq<u8>, at: int },
    Control { code: u32, at: int },
    BadLeading { code: u32, at: int },
}

/// Where the scanner's cursor stands after each string error: at the end
/// of the source for an end-of-input, otherwise just past what the failing
/// element consumed — nothing beyond the malformed bytes is touched.
pub open spec fn spec_string_err_cursor(m: StringScanError, src_len: int) -> int {
    match m {
        StringScanError::Eoi { .. } => src_len,
        StringScanError::BadEscape { at, .. } => at + 2,
        StringScanError::BadUnicode { at, .. } => at + 6,
        StringScanError::Control { at, .. } => at + 1,
        StringScanError::BadLeading { at, .. } => at + 1,
    }
}

/// Scans a string body from `i` (just past the opening quote) to just past
/// the closing quote.  Escapes are checked; multi-byte characters are
/// stepped over by the width their leading byte announces, without
/// validating continuation bytes.
pub open spec fn spec_scan_string_body(src: Seq<u8>, i: int) -> Result<int, StringScanError>
    decreases src.len() - i,
{
    if i < 0 || i >= src.len() {
        Err(StringScanError::Eoi { recovery: i })
    } else if src[i] == 0x22 {
        Ok(i + 1)
    } else if src[i] == 0x5C {
        if i + 1 >= src.len() {
            Err(StringScanError::Eoi { recovery: i })
        } else {
            let e = src[i + 1];
            if e == 0x75 {
                if src.len() - (i + 2) < 4 {
                    Err(StringScanError::Eoi { recovery: i })
                } else if spec_is_hexdigit(src[i + 2]) && spec_is_hexdigit(src[i + 3])
                    && spec_is_hexdigit(src[i + 4]) && spec_is_hexdigit(src[i + 5]) {
                    spec_scan_string_body(src, i + 6)
                } else {
                    Err(StringScanError::BadUnicode { digits: src.subrange(i + 2, i + 6), at: i })
                }
            } else if spec_is_single_escape(e) {
                spec_scan_string_body(src, i + 2)
            } else {
                Err(StringScanError::BadEscape { byte: e, at: i })
            }
        }
    } else if src[i] < 0x20 {
        Err(StringScanError::Control { code: src[i] as u32, at: i })
    } else if src[i] < 0x80 {
        spec_scan_string_body(src, i + 1)
    } else {
        let w = utf8::spec_utf8_char_width(src[i]) as int;
        if w == 0 {
            Err(StringScanError::BadLeading { code: (src[i] as u32) << 28u32, at: i })
        } else if src.len() - (i + 1) < w - 1 {
            Err(StringScanError::Eoi { recovery: i })
        } else {
            spec_scan_string_body(src, i + w)
        }
    }
}

/// Plain bytes change nothing about how the rest of the string scans.
pub proof fn lemma_scan_string_body_skip(src: Seq<u8>, i: int, j: int)
    requires
        0 <= i <= j <= src.len(),
        forall|k: int| i <= k < j ==> !spec_is_string_special(src[k]),
    ensures
        spec_scan_string_body(src, i) == spec_scan_string_body(src, j),
    decreases j - i,
{
    if i < j {
        assert(!spec_is_string_special(src[i]));
        lemma_scan_string_body_skip(src, i + 1, j);
    }
}

/// How a string-body error surfaces from a token whose quote sits at
/// `start`: end-of-input gains string context, recovery offset and token
/// start; the malformed-content errors stand on their own.
pub open spec fn spec_string_err(m: StringScanError, start: int) -> TokenizeErrorModel {
    match m {
        StringScanError::Eoi { recovery } => TokenizeErrorModel::UnexpectedEndOfInputWithContext {
            context: Some(TokenContext::String),
            expected_byte: None,
            recovery_point: Some(recovery),
            token_start: Some(start),
        },
        StringScanError::BadEscape { byte, .. } => TokenizeErrorModel::InvalidStringEscape(byte),
        StringScanError::BadUnicode { digits, .. } =>
            TokenizeErrorModel::InvalidStringUnicodeEscape(digits),
        StringScanError::Control { code, .. } => TokenizeErrorModel::InvalidStringCodepoint(code),
        StringScanError::BadLeading { code, .. } => TokenizeErrorModel::InvalidStringCodepoint(
            code,
        ),
    }
}

/// One step of keyword matching: the unenriched error for a byte that is
/// missing or differs from `want`.
pub open spec fn spec_expect_byte(src: Seq<u8>, i: int, want: u8) -> Result<
    int,
    TokenizeErrorModel,
> {
    if i >= src.len() {
        Err(TokenizeErrorModel::UnexpectedEndOfInput)
    } else if src[i] != want {
        Err(TokenizeErrorModel::UnexpectedByte(src[i]))
    } else {
        Ok(i + 1)
    }
}

/// Consuming the three keyword bytes after `null`'s or `true`'s first
/// letter: the offset past them, or the error of the first mismatch.
pub open spec fn spec_scan_keyword3(src: Seq<u8>, i: int, a: u8, b: u8, c: u8) -> Result<
    int,
    TokenizeErrorModel,
> {
    match spec_expect_byte(src, i, a) {
        Ok(j) => match spec_expect_byte(src, j, b) {
            Ok(k) => spec_expect_byte(src, k, c),
            Err(e) => Err(e),
        },
        Err(e) => Err(e),
    }
}

/// The same for the four bytes after `false`'s first letter.
pub open spec fn spec_scan_keyword4(src: Seq<u8>, i: int, a: u8, b: u8, c: u8, d: u8) -> Result<
    int,
    TokenizeErrorModel,
> {
    match spec_scan_keyword3(src, i, a, b, c) {
        Ok(j) => spec_expect_byte(src, j, d),
        Err(e) => Err(e),
    }
}

/// How number and keyword errors surface: context, then the token start as
/// both recovery point and token start.
pub open spec fn spec_enrich_restartable(
    e: TokenizeErrorModel,
    context: TokenContext,
    start: int,
) -> TokenizeErrorModel {
    spec_with_token_start(spec_with_recovery_point(spec_with_context(e, context), start), start)
}

/// Which whitespace bytes begin a compressed `Spaces` run.
#[derive(Debug, Copy, Clone, PartialEq, Eq, Structural)]
pub enum CompressMode {
    /// Spaces, tabs and newlines all start a run.
    AllWhitespace,
    /// Only a space byte starts a run (tabs and newlines stay verbatim).
    SpacesOnly,
    /// Nothing is compressed; every whitespace byte stays verbatim.
    Off,
}

impl CompressMode {
    /// Whether a run may start at byte `c`.
    pub open spec fn spec_applies(self, c: u8) -> bool {
        match self {
            CompressMode::AllWhitespace => spec_is_whitespace(c),
            CompressMode::SpacesOnly => c == 0x20,
            CompressMode::Off => false,
        }
    }

    pub fn applies(self, c: u8) -> (r: bool)
        ensures
            r == self.spec_applies(c),
    {
        match self {
            CompressMode::AllWhitespace => is_whitespace(c),
            CompressMode::SpacesOnly => c == 0x20,
            CompressMode::Off => false,
        }
    }
}

/// The next token starting at offset `i`, and the offset just past it; or
/// the error `compress_next_token` reports from there, enrichment included.
/// Opaque: callers work from `compress_next_token`'s contract and the
/// lemmas below, which reveal the definition where it is needed.
#[verifier::opaque]
pub open spec fn spec_next_token(src: Seq<u8>, i: int, mode: CompressMode) -> Result<
    (TokenModel, int),
    TokenizeErrorModel,
> {
    if i >= src.len() {
        Err(spec_with_token_start(TokenizeErrorModel::UnexpectedEndOfInput, i))
    } else {
        let c = src[i];
        if mode.spec_applies(c) {
            let run = spec_skip_whitespace(src, i) - i;
            let count = if run > 255 {
                255
            } else {
                run
            };
            Ok((TokenModel::Spaces(count as u8), i + count))
        } else if spec_is_whitespace(c) {
            Ok((TokenModel::Whitespace(c as char), i + 1))
        } else if c == 0x2D || spec_is_digit(c) {
            match spec_scan_number(src, i) {
                Ok(end) => Ok((TokenModel::Number(src.subrange(i, end)), end)),
                Err(e) => Err(spec_enrich_restartable(e, TokenContext::Number, i)),
            }
        } else if c == 0x22 {
            match spec_scan_string_body(src, i + 1) {
                Ok(end) => Ok((TokenModel::String(src.subrange(i, end)), end)),
                Err(m) => Err(spec_string_err(m, i)),
            }
        } else if c == 0x6E {
            match spec_scan_keyword3(src, i + 1, 0x75, 0x6C, 0x6C) {
                Ok(end) => Ok((TokenModel::Null, end)),
                Err(e) => Err(spec_enrich_restartable(e, TokenContext::Null, i)),
            }
        } else if c == 0x74 {
            match spec_scan_keyword3(src, i + 1, 0x72, 0x75, 0x65) {
                Ok(end) => Ok((TokenModel::True, end)),
                Err(e) => Err(spec_enrich_restartable(e, TokenContext::True, i)),
            }
        } else if c == 0x66 {
            match spec_scan_keyword4(src, i + 1, 0x61, 0x6C, 0x73, 0x65) {
                Ok(end) => Ok((TokenModel::False, end)),
                Err(e) => Err(spec_enrich_restartable(e, TokenContext::False, i)),
            }
        } else if c == 0x5B {
            Ok((TokenModel::ArrayOpen, i + 1))
        } else if c == 0x5D {
            Ok((TokenModel::ArrayClose, i + 1))
        } else if c == 0x7B {
            Ok((TokenModel::ObjectOpen, i + 1))
        } else if c == 0x7D {
            Ok((TokenModel::ObjectClose, i + 1))
        } else if c == 0x3A {
            Ok((TokenModel::Colon, i + 1))
        } else if c == 0x2C {
            Ok((TokenModel::Comma, i + 1))
        } else {
            Err(TokenizeErrorModel::UnexpectedByte(c))
        }
    }
}

// ---------------------------------------------------------------------------
// The scanners
// ---------------------------------------------------------------------------
/// Consumes the run of digits at the cursor; returns how many there were.
pub fn section_digits(s: &mut ByteSection<'_>) -> (r: TokenizeResult<usize>)
    requires
        old(s).wf(),
    ensures
        final(s).wf(),
        final(s).src@ == old(s).src@,
        old(s).n <= final(s).n,
        final(s).n == spec_skip_digits(old(s).src@, old(s).n as int),
        r matches Ok(k) && k == final(s).n - old(s).n,
{
    let n0 = s.n;
    loop
        invariant
            s.wf(),
            s.src@ == old(s).src@,
            n0 <= s.n,
            spec_skip_digits(s.src@, n0 as int) == spec_skip_digits(s.src@, s.n as int),
        ensures
            s.wf(),
            s.src@ == old(s).src@,
            n0 <= s.n,
            s.n == spec_skip_digits(s.src@, n0 as int),
        decreases s.src@.len() - s.n,
    {
        let go = match s.peek() {
            Some(c) => is_digit(c),
            None => false,
        };
        if !go {
            proof {
                assert(spec_skip_digits(s.src@, s.n as int) == s.n);
            }
            break ;
        }
        s.next();
    }
    Ok(s.n - n0)
}

/// Consumes the run of hex digits at the cursor; returns how many there
/// were.
pub fn section_hexdigits(s: &mut ByteSection<'_>) -> (r: TokenizeResult<usize>)
    requires
        old(s).wf(),
    ensures
        final(s).wf(),
        final(s).src@ == old(s).src@,
        old(s).n <= final(s).n,
        final(s).n == spec_skip_hexdigits(old(s).src@, old(s).n as int),
        r matches Ok(k) && k == final(s).n - old(s).n,
{
    let n0 = s.n;
    loop
        invariant
            s.wf(),
            s.src@ == old(s).src@,
            n0 <= s.n,
            spec_skip_hexdigits(s.src@, n0 as int) == spec_skip_hexdigits(s.src@, s.n as int),
        ensures
            s.wf(),
            s.src@ == old(s).src@,
            n0 <= s.n,
            s.n == spec_skip_hexdigits(s.src@, n0 as int),
        decreases s.src@.len() - s.n,
    {
        let go = match s.peek() {
            Some(c) => is_hexdigit(c),
            None => false,
        };
        if !go {
            proof {
                assert(spec_skip_hexdigits(s.src@, s.n as int) == s.n);
            }
            break ;
        }
        s.next();
    }
    Ok(s.n - n0)
}

/// Consumes the fraction part of a number, if one starts here.
pub fn section_number_frac(s: &mut ByteSection<'_>) -> (r: TokenizeResult<()>)
    requires
        old(s).wf(),
    ensures
        final(s).wf(),
        final(s).src@ == old(s).src@,
        old(s).n <= final(s).n,
        match r {
            Ok(_) => spec_scan_frac(old(s).src@, old(s).n as int) matches Ok(j) && j == final(s).n,
            Err(e) => spec_scan_frac(old(s).src@, old(s).n as int) matches Err(m) && m == e@,
        },
{
    if s.check_next(0x2E) {
        match s.next() {
            None => {
                return Err(TokenizeError::UnexpectedEndOfInput);
            }
            Some(c) => {
                if !is_digit(c) {
                    return Err(TokenizeError::UnexpectedByte(c));
                }
            }
        }
        match section_digits(s) {
            Ok(_) => {}
            Err(e) => {
                return Err(e);
            }
        }
    }
    Ok(())
}

/// Consumes the exponent part of a number, if one starts here.
pub fn section_number_exp(s: &mut ByteSection<'_>) -> (r: TokenizeResult<()>)
    requires
        old(s).wf(),
    ensures
        final(s).wf(),
        final(s).src@ == old(s).src@,
        old(s).n <= final(s).n,
        match r {
            Ok(_) => spec_scan_exp(old(s).src@, old(s).n as int) matches Ok(j) && j == final(s).n,
            Err(e) => spec_scan_exp(old(s).src@, old(s).n as int) matches Err(m) && m == e@,
        },
{
    let is_exp = match s.peek() {
        Some(c) => (c | 0x20) == 0x65,
        None => false,
    };
    proof {
        let c = s.src@[s.n as int];
        assert((c | 0x20u8) == 0x65u8 <==> (c == 0x65u8 || c == 0x45u8)) by (bit_vector);
    }
    if is_exp {
        s.next();
        let signed = match s.peek() {
            Some(c) => c == 0x2D || c == 0x2B,
            None => false,
        };
        if signed {
            s.next();
        }
        match s.next() {
            None => {
                return Err(TokenizeError::UnexpectedEndOfInput);
            }
            Some(c) => {
                if !is_digit(c) {
                    return Err(TokenizeError::UnexpectedByte(c));
                }
            }
        }
        match section_digits(s) {
            Ok(_) => {}
            Err(e) => {
                return Err(e);
            }
        }
    }
    Ok(())
}

/// Consumes a number without its optional minus sign.
pub fn section_positive_number(s: &mut ByteSection<'_>) -> (r: TokenizeResult<()>)
    requires
        old(s).wf(),
    ensures
        final(s).wf(),
        final(s).src@ == old(s).src@,
        old(s).n <= final(s).n,
        match r {
            Ok(_) => spec_scan_positive_number(old(s).src@, old(s).n as int) matches Ok(j) && j
                == final(s).n,
            Err(e) => spec_scan_positive_number(old(s).src@, old(s).n as int) matches Err(m) && m
                == e@,
        },
{
    if s.check_next(0x30) {
        match section_number_frac(s) {
            Ok(_) => {}
            Err(e) => {
                return Err(e);
            }
        }
        match section_number_exp(s) {
            Ok(_) => {}
            Err(e) => {
                return Err(e);
            }
        }
        return Ok(());
    }
    match s.next() {
        None => {
            return Err(TokenizeError::UnexpectedEndOfInput);
        }
        Some(c) => {
            if !is_digit(c) {
                return Err(TokenizeError::UnexpectedByte(c));
            }
        }
    }
    match section_digits(s) {
        Ok(_) => {}
        Err(e) => {
            return Err(e);
        }
    }
    match section_number_frac(s) {
        Ok(_) => {}
        Err(e) => {
            return Err(e);
        }
    }
    match section_number_exp(s) {
        Ok(_) => {}
        Err(e) => {
            return Err(e);
        }
    }
    Ok(())
}

/// Consumes a complete number lexeme (RFC 7159).
pub fn section_number(s: &mut ByteSection<'_>) -> (r: TokenizeResult<()>)
    requires
        old(s).wf(),
    ensures
        final(s).wf(),
        final(s).src@ == old(s).src@,
        old(s).n <= final(s).n,
        match r {
            Ok(_) => spec_scan_number(old(s).src@, old(s).n as int) matches Ok(j) && j == final(s).n,
            Err(e) => spec_scan_number(old(s).src@, old(s).n as int) matches Err(m) && m == e@,
        },
{
    s.check_next(0x2D);
    section_positive_number(s)
}

/// Consumes the four hex digits of a `\u` escape.
fn section_unicode_escape(s: &mut ByteSection<'_>) -> (r: TokenizeResult<()>)
    requires
        old(s).wf(),
    ensures
        final(s).wf(),
        final(s).src@ == old(s).src@,
        old(s).n <= final(s).n,
        match r {
            Ok(_) => old(s).src@.len() - old(s).n >= 4 && spec_is_hexdigit(
                old(s).src@[old(s).n as int],
            ) && spec_is_hexdigit(old(s).src@[old(s).n + 1]) && spec_is_hexdigit(
                old(s).src@[old(s).n + 2],
            ) && spec_is_hexdigit(old(s).src@[old(s).n + 3]) && final(s).n == old(s).n + 4,
            Err(e) => if old(s).src@.len() - old(s).n < 4 {
                e@ == TokenizeErrorModel::UnexpectedEndOfInput && final(s).n == old(
                    s,
                ).src@.len()
            } else {
                final(s).n == old(s).n + 4 && 
                !(spec_is_hexdigit(old(s).src@[old(s).n as int]) && spec_is_hexdigit(
                    old(s).src@[old(s).n + 1],
                ) && spec_is_hexdigit(old(s).src@[old(s).n + 2]) && spec_is_hexdigit(
                    old(s).src@[old(s).n + 3],
                )) && e@ == TokenizeErrorModel::InvalidStringUnicodeEscape(
                    old(s).src@.subrange(old(s).n as int, old(s).n + 4),
                )
            },
        },
{
    let buf = s.take(4);
    if buf.len() < 4 {
        return Err(TokenizeError::UnexpectedEndOfInput);
    }
    if !(is_hexdigit(buf[0]) && is_hexdigit(buf[1]) && is_hexdigit(buf[2]) && is_hexdigit(
        buf[3],
    )) {
        return Err(TokenizeError::InvalidStringUnicodeEscape(vstd::slice::slice_to_vec(buf)));
    }
    Ok(())
}

/// Resumes scanning a string body from the cursor, which must stand inside
/// an unclosed string: consumes up to and including the closing quote.
/// This is the continuation entry the chunked driver calls after a refill.
pub fn section_inside_string(s: &mut ByteSection<'_>) -> (r: TokenizeResult<()>)
    requires
        old(s).wf(),
    ensures
        final(s).wf(),
        final(s).src@ == old(s).src@,
        old(s).n <= final(s).n,
        match r {
            Ok(_) => spec_scan_string_body(old(s).src@, old(s).n as int) matches Ok(end) && end
                == final(s).n,
            Err(e) => spec_scan_string_body(old(s).src@, old(s).n as int) matches Err(m) && e@
                == spec_string_err(m, old(s).n as int) && final(s).n == spec_string_err_cursor(
                m,
                old(s).src@.len() as int,
            ),
        },
{
    let start = s.n;
    loop
        invariant
            s.wf(),
            s.src@ == old(s).src@,
            start == old(s).n,
            start <= s.n,
            spec_scan_string_body(s.src@, start as int) == spec_scan_string_body(
                s.src@,
                s.n as int,
            ),
        decreases s.src@.len() - s.n,
    {
        let ghost pre = s.n;
        s.skip_until(
            (|c: u8| -> (b: bool)
                ensures
                    b == spec_is_string_special(c),
                { is_string_special(c) }),
        );
        proof {
            lemma_scan_string_body_skip(s.src@, pre as int, s.n as int);
        }
        let recovery_point = s.n;
        match s.next() {
            None => {
                return Err(
                    TokenizeError::UnexpectedEndOfInput.with_context(
                        TokenContext::String,
                    ).with_recovery_point(recovery_point).with_token_start(start),
                );
            }
            Some(c) => {
                if c == 0x22 {
                    return Ok(());
                } else if c == 0x5C {
                    match s.next() {
                        None => {
                            return Err(
                                TokenizeError::UnexpectedEndOfInput.with_context(
                                    TokenContext::String,
                                ).with_recovery_point(recovery_point).with_token_start(start),
                            );
                        }
                        Some(e) => {
                            if e == 0x75 {
                                match section_unicode_escape(s) {
                                    Ok(_) => {}
                                    Err(err) => {
                                        return Err(
                                            err.with_context(
                                                TokenContext::String,
                                            ).with_recovery_point(recovery_point).with_token_start(
                                                start,
                                            ),
                                        );
                                    }
                                }
                            } else if is_single_escape(e) {
                            } else {
                                return Err(TokenizeError::InvalidStringEscape(e));
                            }
                        }
                    }
                } else if c < 0x20 {
                    return Err(TokenizeError::InvalidStringCodepoint(c as u32));
                } else {
                    let width = utf8::utf8_char_width(c);
                    if width == 0 {
                        return Err(TokenizeError::InvalidStringCodepoint((c as u32) << 28u32));
                    }
                    let want = (width - 1) as usize;
                    let buf = s.take(want);
                    if buf.len() < want {
                        return Err(
                            TokenizeError::UnexpectedEndOfInput.with_context(
                                TokenContext::String,
                            ).with_recovery_point(recovery_point).with_token_start(start),
                        );
                    }
                }
            }
        }
    }
}

/// Consumes a complete string lexeme, opening quote included.
pub fn section_string(s: &mut ByteSection<'_>) -> (r: TokenizeResult<()>)
    requires
        old(s).wf(),
    ensures
        final(s).wf(),
        final(s).src@ == old(s).src@,
        old(s).n <= final(s).n,
        match r {
            Ok(_) => old(s).n < old(s).src@.len() && old(s).src@[old(s).n as int] == 0x22
                && (spec_scan_string_body(old(s).src@, old(s).n + 1) matches Ok(end) && end
                == final(s).n),
            Err(e) => if old(s).n >= old(s).src@.len() {
                e@ == TokenizeErrorModel::UnexpectedEndOfInputWithContext {
                    context: Some(TokenContext::String),
                    expected_byte: None,
                    recovery_point: Some(old(s).n as int),
                    token_start: Some(old(s).n as int),
                } && final(s).n == old(s).n
            } else if old(s).src@[old(s).n as int] != 0x22 {
                e@ == TokenizeErrorModel::UnexpectedByteWithContext {
                    byte: old(s).src@[old(s).n as int],
                    context: TokenContext::String,
                } && final(s).n == old(s).n
            } else {
                spec_scan_string_body(old(s).src@, old(s).n + 1) matches Err(m) && e@
                    == spec_string_err(m, old(s).n as int) && final(s).n
                    == spec_string_err_cursor(m, old(s).src@.len() as int)
            },
        },
{
    let start = s.n;
    if !s.check_next(0x22) {
        return Err(
            invalid_input_err(s.peek()).with_context(TokenContext::String).with_token_start(
                start,
            ).with_recovery_point(start),
        );
    }
    match section_inside_string(s) {
        Ok(_) => Ok(()),
        Err(e) => Err(e.with_token_start(start)),
    }
}

// ---------------------------------------------------------------------------
// The tokenizer entry points
// ---------------------------------------------------------------------------
/// Consumes exactly one token.  On success the cursor stands just past the
/// token; on an error the cursor's position is unspecified and the error
/// says everything a caller needs (see `spec_next_token`).
pub fn compress_next_token<'a>(s: &mut ByteSection<'a>, compressed_whitespace: CompressMode) -> (r:
    TokenizeResult<Token<'a>>)
    requires
        old(s).wf(),
    ensures
        final(s).wf(),
        final(s).src@ == old(s).src@,
        old(s).n <= final(s).n,
        match r {
            Ok(t) => spec_next_token(old(s).src@, old(s).n as int, compressed_whitespace)
                matches Ok(p) && p.0 == t@ && p.1 == final(s).n,
            Err(e) => spec_next_token(old(s).src@, old(s).n as int, compressed_whitespace)
                matches Err(m) && m == e@,
        },
{
    proof {
        reveal(spec_next_token);
    }
    let start = s.n;
    match s.next() {
        None => {
            return Err(TokenizeError::UnexpectedEndOfInput.with_token_start(start));
        }
        Some(c) => {
            if compressed_whitespace.applies(c) {
                proof {
                    lemma_skip_whitespace(s.src@, start as int);
                }
                let mut count: u8 = 1;
                loop
                    invariant
                        s.wf(),
                        s.src@ == old(s).src@,
                        1 <= count <= 255,
                        s.n == start + count,
                        forall|j: int| start <= j < s.n ==> spec_is_whitespace(s.src@[j]),
                    ensures
                        s.wf(),
                        s.src@ == old(s).src@,
                        1 <= count <= 255,
                        s.n == start + count,
                        forall|j: int| start <= j < s.n ==> spec_is_whitespace(s.src@[j]),
                        count == 255 || s.n == s.src@.len() || !spec_is_whitespace(
                            s.src@[s.n as int],
                        ),
                    decreases 255 - count,
                {
                    if count == 255 {
                        break ;
                    }
                    let go = match s.peek() {
                        Some(c2) => is_whitespace(c2),
                        None => false,
                    };
                    if !go {
                        break ;
                    }
                    s.next();
                    count = count + 1;
                }
                proof {
                    let src = s.src@;
                    if count < 255 {
                        assert(spec_skip_whitespace(src, s.n as int) == s.n);
                        lemma_skip_whitespace_concat(src, start as int, s.n as int);
                    } else {
                        lemma_skip_whitespace_lower(src, start as int, s.n as int);
                    }
                }
                return Ok(Token::Spaces(count));
            }
            if c == 0x20 || c == 0x0A || c == 0x09 {
                return Ok(Token::Whitespace(c as char));
            }
            if c == 0x2D {
                match section_positive_number(s) {
                    Ok(_) => {}
                    Err(e) => {
                        return Err(
                            e.with_context(TokenContext::Number).with_recovery_point(
                                start,
                            ).with_token_start(start),
                        );
                    }
                }
                return Ok(
                    Token::Number(
                        Cow::Borrowed(vstd::slice::slice_subrange(s.src, start, s.n)),
                    ),
                );
            }
            if c == 0x30 {
                match section_number_frac(s) {
                    Ok(_) => {}
                    Err(e) => {
                        return Err(
                            e.with_context(TokenContext::Number).with_recovery_point(
                                start,
                            ).with_token_start(start),
                        );
                    }
                }
                match section_number_exp(s) {
                    Ok(_) => {}
                    Err(e) => {
                        return Err(
                            e.with_context(TokenContext::Number).with_recovery_point(
                                start,
                            ).with_token_start(start),
                        );
                    }
                }
                return Ok(
                    Token::Number(
                        Cow::Borrowed(vstd::slice::slice_subrange(s.src, start, s.n)),
                    ),
                );
            }
            if is_digit(c) {
                match section_digits(s) {
                    Ok(_) => {}
                    Err(e) => {
                        return Err(e);
                    }
                }
                match section_number_frac(s) {
                    Ok(_) => {}
                    Err(e) => {
                        return Err(
                            e.with_context(TokenContext::Number).with_recovery_point(
                                start,
                            ).with_token_start(start),
                        );
                    }
                }
                match section_number_exp(s) {
                    Ok(_) => {}
                    Err(e) => {
                        return Err(
                            e.with_context(TokenContext::Number).with_recovery_point(
                                start,
                            ).with_token_start(start),
                        );
                    }
                }
                return Ok(
                    Token::Number(
                        Cow::Borrowed(vstd::slice::slice_subrange(s.src, start, s.n)),
                    ),
                );
            }
            if c == 0x22 {
                match section_inside_string(s) {
                    Ok(_) => {}
                    Err(e) => {
                        return Err(e.with_token_start(start));
                    }
                }
                return Ok(
                    Token::String(
                        Cow::Borrowed(vstd::slice::slice_subrange(s.src, start, s.n)),
                    ),
                );
            }
            if c == 0x6E {
                match expect_next(s, 0x75) {
                    Ok(_) => {}
                    Err(e) => {
                        return Err(
                            e.with_context(TokenContext::Null).with_recovery_point(
                                start,
                            ).with_token_start(start),
                        );
                    }
                }
                match expect_next(s, 0x6C) {
                    Ok(_) => {}
                    Err(e) => {
                        return Err(
                            e.with_context(TokenContext::Null).with_recovery_point(
                                start,
                            ).with_token_start(start),
                        );
                    }
                }
                match expect_next(s, 0x6C) {
                    Ok(_) => {}
                    Err(e) => {
                        return Err(
                            e.with_context(TokenContext::Null).with_recovery_point(
                                start,
                            ).with_token_start(start),
                        );
                    }
                }
                return Ok(Token::Null);
            }
            if c == 0x74 {
                match expect_next(s, 0x72) {
                    Ok(_) => {}
                    Err(e) => {
                        return Err(
                            e.with_context(TokenContext::True).with_recovery_point(
                                start,
                            ).with_token_start(start),
                        );
                    }
                }
                match expect_next(s, 0x75) {
                    Ok(_) => {}
                    Err(e) => {
                        return Err(
                            e.with_context(TokenContext::True).with_recovery_point(
                                start,
                            ).with_token_start(start),
                        );
                    }
                }
                match expect_next(s, 0x65) {
                    Ok(_) => {}
                    Err(e) => {
                        return Err(
                            e.with_context(TokenContext::True).with_recovery_point(
                                start,
                            ).with_token_start(start),
                        );
                    }
                }
                return Ok(Token::True);
            }
            if c == 0x66 {
                match expect_next(s, 0x61) {
                    Ok(_) => {}
                    Err(e) => {
                        return Err(
                            e.with_context(TokenContext::False).with_recovery_point(
                                start,
                            ).with_token_start(start),
                        );
                    }
                }
                match expect_next(s, 0x6C) {
                    Ok(_) => {}
                    Err(e) => {
                        return Err(
                            e.with_context(TokenContext::False).with_recovery_point(
                                start,
                            ).with_token_start(start),
                        );
                    }
                }
                match expect_next(s, 0x73) {
                    Ok(_) => {}
                    Err(e) => {
                        return Err(
                            e.with_context(TokenContext::False).with_recovery_point(
                                start,
                            ).with_token_start(start),
                        );
                    }
                }
                match expect_next(s, 0x65) {
                    Ok(_) => {}
                    Err(e) => {
                        return Err(
                            e.with_context(TokenContext::False).with_recovery_point(
                                start,
                            ).with_token_start(start),
                        );
                    }
                }
                return Ok(Token::False);
            }
            match c {
                0x5B => Ok(Token::ArrayOpen),
                0x5D => Ok(Token::ArrayClose),
                0x7B => Ok(Token::ObjectOpen),
                0x7D => Ok(Token::ObjectClose),
                0x3A => Ok(Token::Colon),
                0x2C => Ok(Token::Comma),
                _ => Err(TokenizeError::UnexpectedByte(c)),
            }
        }
    }
}

/// `compress_next_token` with only space runs compressed.
pub fn next_token<'a>(s: &mut ByteSection<'a>) -> (r: TokenizeResult<Token<'a>>)
    requires
        old(s).wf(),
    ensures
        final(s).wf(),
        final(s).src@ == old(s).src@,
        old(s).n <= final(s).n,
        match r {
            Ok(t) => spec_next_token(old(s).src@, old(s).n as int, CompressMode::SpacesOnly)
                matches Ok(p) && p.0 == t@ && p.1 == final(s).n,
            Err(e) => spec_next_token(old(s).src@, old(s).n as int, CompressMode::SpacesOnly)
                matches Err(m) && m == e@,
        },
{
    compress_next_token(s, CompressMode::SpacesOnly)
}

/// Consumes the next byte exactly when it equals `target`.
fn expect_next(s: &mut ByteSection<'_>, target: u8) -> (r: TokenizeResult<()>)
    requires
        old(s).wf(),
    ensures
        final(s).wf(),
        final(s).src@ == old(s).src@,
        old(s).n <= final(s).n,
        match r {
            Ok(_) => old(s).n < old(s).src@.len() && old(s).src@[old(s).n as int] == target
                && final(s).n == old(s).n + 1,
            Err(e) => if old(s).n < old(s).src@.len() {
                old(s).src@[old(s).n as int] != target && e@ == TokenizeErrorModel::UnexpectedByte(
                    old(s).src@[old(s).n as int],
                )
            } else {
                e@ == TokenizeErrorModel::UnexpectedEndOfInput
            },
        },
{
    match s.next() {
        Some(c) => {
            if c == target {
                Ok(())
            } else {
                Err(TokenizeError::UnexpectedByte(c))
            }
        }
        None => Err(TokenizeError::UnexpectedEndOfInput),
    }
}

/// A whitespace run from `i` through `mid` continues wherever the run from
/// `mid` goes.
proof fn lemma_skip_whitespace_concat(src: Seq<u8>, i: int, mid: int)
    requires
        0 <= i <= mid <= src.len(),
        forall|j: int| i <= j < mid ==> spec_is_whitespace(src[j]),
    ensures
        spec_skip_whitespace(src, i) == spec_skip_whitespace(src, mid),
    decreases mid - i,
{
    if i < mid {
        lemma_skip_whitespace_concat(src, i + 1, mid);
    }
}

/// A run of whitespace pushes the skip offset at least that far.
proof fn lemma_skip_whitespace_lower(src: Seq<u8>, i: int, mid: int)
    requires
        0 <= i <= mid <= src.len(),
        forall|j: int| i <= j < mid ==> spec_is_whitespace(src[j]),
    ensures
        (spec_skip_whitespace(src, i) >= mid),
    decreases mid - i,
{
    if i < mid {
        lemma_skip_whitespace_lower(src, i + 1, mid);
    } else {
        lemma_skip_whitespace(src, i);
    }
}

// ---------------------------------------------------------------------------
// Bounds of the scanners
// ---------------------------------------------------------------------------
pub proof fn lemma_skip_digits_bounds(src: Seq<u8>, i: int)
    requires
        0 <= i <= src.len(),
    ensures
        i <= spec_skip_digits(src, i) <= src.len(),
    decreases src.len() - i,
{
    if i < src.len() && spec_is_digit(src[i]) {
        lemma_skip_digits_bounds(src, i + 1);
    }
}

pub proof fn lemma_scan_frac_bounds(src: Seq<u8>, i: int)
    requires
        0 <= i <= src.len(),
    ensures
        (spec_scan_frac(src, i) matches Ok(j) ==> i <= j <= src.len()),
{
    if i < src.len() && src[i] == 0x2E && i + 1 < src.len() && spec_is_digit(src[i + 1]) {
        lemma_skip_digits_bounds(src, i + 2);
    }
}

pub proof fn lemma_scan_exp_bounds(src: Seq<u8>, i: int)
    requires
        0 <= i <= src.len(),
    ensures
        (spec_scan_exp(src, i) matches Ok(j) ==> i <= j <= src.len()),
{
    if i < src.len() && (src[i] == 0x65 || src[i] == 0x45) {
        let j = if i + 1 < src.len() && (src[i + 1] == 0x2D || src[i + 1] == 0x2B) {
            i + 2
        } else {
            i + 1
        };
        if j < src.len() && spec_is_digit(src[j]) {
            lemma_skip_digits_bounds(src, j + 1);
        }
    }
}

pub proof fn lemma_scan_positive_number_bounds(src: Seq<u8>, i: int)
    requires
        0 <= i <= src.len(),
    ensures
        (spec_scan_positive_number(src, i) matches Ok(j) ==> i < j <= src.len()),
{
    if i < src.len() && src[i] == 0x30 {
        lemma_scan_frac_bounds(src, i + 1);
        if spec_scan_frac(src, i + 1) is Ok {
            lemma_scan_exp_bounds(src, spec_scan_frac(src, i + 1)->Ok_0);
        }
    } else if i < src.len() && spec_is_digit(src[i]) {
        lemma_skip_digits_bounds(src, i + 1);
        let j = spec_skip_digits(src, i + 1);
        lemma_scan_frac_bounds(src, j);
        if spec_scan_frac(src, j) is Ok {
            lemma_scan_exp_bounds(src, spec_scan_frac(src, j)->Ok_0);
        }
    }
}

pub proof fn lemma_scan_number_bounds(src: Seq<u8>, i: int)
    requires
        0 <= i <= src.len(),
    ensures
        (spec_scan_number(src, i) matches Ok(j) ==> i < j <= src.len()),
{
    if i < src.len() && src[i] == 0x2D {
        lemma_scan_positive_number_bounds(src, i + 1);
    } else {
        lemma_scan_positive_number_bounds(src, i);
    }
}

pub proof fn lemma_scan_string_body_bounds(src: Seq<u8>, i: int)
    requires
        0 <= i <= src.len(),
    ensures
        (spec_scan_string_body(src, i) matches Ok(end) ==> i < end <= src.len()),
    decreases src.len() - i,
{
    if i < src.len() {
        if src[i] == 0x5C && i + 1 < src.len() {
            let e = src[i + 1];
            if e == 0x75 && src.len() - (i + 2) >= 4 {
                lemma_scan_string_body_bounds(src, i + 6);
            } else if spec_is_single_escape(e) {
                lemma_scan_string_body_bounds(src, i + 2);
            }
        } else if 0x20 <= src[i] < 0x80 && src[i] != 0x22 && src[i] != 0x5C {
            lemma_scan_string_body_bounds(src, i + 1);
        } else if src[i] >= 0x80 {
            let w = utf8::spec_utf8_char_width(src[i]) as int;
            if w != 0 && src.len() - (i + 1) >= w - 1 {
                lemma_scan_string_body_bounds(src, i + w);
            }
        }
    }
}

/// A token consumes at least one byte and stays inside the source.
pub proof fn lemma_next_token_advances(src: Seq<u8>, i: int, mode: CompressMode)
    requires
        0 <= i < src.len(),
    ensures
        (spec_next_token(src, i, mode) matches Ok(p) ==> i < p.1 <= src.len()),
{
    reveal(spec_next_token);
    let c = src[i];
    if mode.spec_applies(c) {
        lemma_skip_whitespace(src, i);
    } else if spec_is_whitespace(c) {
    } else if c == 0x2D || spec_is_digit(c) {
        lemma_scan_number_bounds(src, i);
    } else if c == 0x22 {
        lemma_scan_string_body_bounds(src, i + 1);
    }
}

/// Every token of the source from offset `i` on: the whole tokenization if
/// it is clean, or the tokens before the first error.
pub open spec fn spec_tokens(src: Seq<u8>, i: int, mode: CompressMode) -> Seq<TokenModel>
    decreases src.len() - i,
{
    if i < 0 || i >= src.len() {
        Seq::empty()
    } else {
        match spec_next_token(src, i, mode) {
            Ok(p) => if i < p.1 <= src.len() {
                seq![p.0] + spec_tokens(src, p.1, mode)
            } else {
                seq![p.0]
            },
            Err(_) => Seq::empty(),
        }
    }
}

/// The first tokenization error from offset `i` on, if any.
pub open spec fn spec_tokenize_err(src: Seq<u8>, i: int, mode: CompressMode) -> Option<
    TokenizeErrorModel,
>
    decreases src.len() - i,
{
    if i < 0 || i >= src.len() {
        None
    } else {
        match spec_next_token(src, i, mode) {
            Ok(p) => if i < p.1 <= src.len() {
                spec_tokenize_err(src, p.1, mode)
            } else {
                None
            },
            Err(e) => Some(e),
        }
    }
}

/// Where the string scanner says to resume is always inside the scanned
/// range.
pub proof fn lemma_scan_string_body_recovery(src: Seq<u8>, i: int)
    requires
        0 <= i <= src.len(),
    ensures
        (spec_scan_string_body(src, i) matches Err(StringScanError::Eoi { recovery }) ==> i
            <= recovery <= src.len()),
    decreases src.len() - i,
{
    if i < src.len() {
        if src[i] == 0x5C && i + 1 < src.len() {
            let e = src[i + 1];
            if e == 0x75 && src.len() - (i + 2) >= 4 {
                lemma_scan_string_body_recovery(src, i + 6);
            } else if spec_is_single_escape(e) {
                lemma_scan_string_body_recovery(src, i + 2);
            }
        } else if 0x20 <= src[i] < 0x80 && src[i] != 0x22 && src[i] != 0x5C {
            lemma_scan_string_body_recovery(src, i + 1);
        } else if src[i] >= 0x80 {
            let w = utf8::spec_utf8_char_width(src[i]) as int;
            if w != 0 && src.len() - (i + 1) >= w - 1 {
                lemma_scan_string_body_recovery(src, i + w);
            }
        }
    }
}

/// What a recoverable error of `spec_next_token` reports always points
/// into the scanned range: the token starts at the current offset and the
/// recovery offset lies between it and the end of the source.
pub proof fn lemma_next_token_recovery(src: Seq<u8>, i: int, mode: CompressMode)
    requires
        0 <= i < src.len(),
    ensures
        (spec_next_token(src, i, mode) is Err && spec_is_recoverable(
            spec_next_token(src, i, mode)->Err_0,
        ) ==> {
            let m = spec_next_token(src, i, mode)->Err_0;
            &&& spec_token_start(m) == Some(i)
            &&& (spec_recovery_point(m) matches Some(rp) && i <= rp <= src.len())
            &&& (spec_context(m) != Some(TokenContext::String) ==> spec_recovery_point(m)
                == Some(i))
        }),
{
    reveal(spec_next_token);
    let c = src[i];
    if c == 0x22 {
        lemma_scan_string_body_recovery(src, i + 1);
    }
}

} // verus!
