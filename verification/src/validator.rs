//! The pushdown grammar validator: a state machine over tokens enforcing
//! the JSON grammar (RFC 7159).
//!
//! The state is a current grammar context plus a stack of saved contexts,
//! one per suspended (open but not innermost) container: opening a nested
//! container pushes the position in the parent where it appeared, and the
//! matching close pops it, so the stack's depth always counts the open
//! containers around the innermost one.  `spec_process_token` is the
//! transition function; `process_token` is proved to implement it exactly.

use crate::tokenizer::{spec_token_is_whitespace, Token, TokenModel};
use vstd::prelude::*;

verus! {

/// The grammar positions of the validator's automaton.
#[derive(Clone, Copy, PartialEq, Eq, Structural, Debug)]
pub enum ValidationContext {
    ArrayStart,
    ArrayValue,
    ArrayComma,
    ArrayEnd,
    ObjectStart,
    ObjectEntryKey,
    ObjectEntryColon,
    ObjectEntryValue,
    ObjectEntryComma,
    ObjectEnd,
}

impl ValidationContext {
    /// Positions inside an array.
    pub open spec fn spec_in_array(self) -> bool {
        match self {
            ValidationContext::ArrayStart
            | ValidationContext::ArrayValue
            | ValidationContext::ArrayComma => true,
            _ => false,
        }
    }

    pub fn in_array(self) -> (r: bool)
        ensures
            r == self.spec_in_array(),
    {
        match self {
            ValidationContext::ArrayStart
            | ValidationContext::ArrayValue
            | ValidationContext::ArrayComma => true,
            _ => false,
        }
    }

    /// Positions inside an object.
    pub open spec fn spec_in_object(self) -> bool {
        match self {
            ValidationContext::ObjectStart
            | ValidationContext::ObjectEntryKey
            | ValidationContext::ObjectEntryColon
            | ValidationContext::ObjectEntryValue
            | ValidationContext::ObjectEntryComma => true,
            _ => false,
        }
    }

    pub fn in_object(self) -> (r: bool)
        ensures
            r == self.spec_in_object(),
    {
        match self {
            ValidationContext::ObjectStart
            | ValidationContext::ObjectEntryKey
            | ValidationContext::ObjectEntryColon
            | ValidationContext::ObjectEntryValue
            | ValidationContext::ObjectEntryComma => true,
            _ => false,
        }
    }

    /// Positions that stand just past a complete value.
    pub open spec fn spec_in_value(self) -> bool {
        match self {
            ValidationContext::ArrayValue | ValidationContext::ObjectEntryValue => true,
            _ => false,
        }
    }

    pub fn in_value(self) -> (r: bool)
        ensures
            r == self.spec_in_value(),
    {
        match self {
            ValidationContext::ArrayValue | ValidationContext::ObjectEntryValue => true,
            _ => false,
        }
    }

    /// Same positions as `in_value`, read as "a value may follow here".
    pub fn before_value(self) -> (r: bool)
        ensures
            r == self.spec_in_value(),
    {
        self.in_value()
    }

    /// The static transition table of the grammar.
    pub open spec fn spec_is_valid_sequent(self, next: ValidationContext) -> bool {
        match (self, next) {
            (ValidationContext::ArrayStart, ValidationContext::ArrayValue)
            | (ValidationContext::ArrayStart, ValidationContext::ArrayEnd)
            | (ValidationContext::ArrayValue, ValidationContext::ArrayComma)
            | (ValidationContext::ArrayValue, ValidationContext::ArrayEnd)
            | (ValidationContext::ArrayComma, ValidationContext::ArrayValue)
            | (ValidationContext::ObjectStart, ValidationContext::ObjectEntryKey)
            | (ValidationContext::ObjectStart, ValidationContext::ObjectEnd)
            | (ValidationContext::ObjectEntryKey, ValidationContext::ObjectEntryColon)
            | (ValidationContext::ObjectEntryColon, ValidationContext::ObjectEntryValue)
            | (ValidationContext::ObjectEntryValue, ValidationContext::ObjectEntryComma)
            | (ValidationContext::ObjectEntryValue, ValidationContext::ObjectEnd)
            | (ValidationContext::ObjectEntryComma, ValidationContext::ObjectEntryKey) => true,
            _ => false,
        }
    }

    /// Whether `next` may follow `self` in the grammar.
    pub fn is_valid_sequent(self, next: Self) -> (r: bool)
        ensures
            r == self.spec_is_valid_sequent(next),
    {
        match (self, next) {
            (ValidationContext::ArrayStart, ValidationContext::ArrayValue)
            | (ValidationContext::ArrayStart, ValidationContext::ArrayEnd)
            | (ValidationContext::ArrayValue, ValidationContext::ArrayComma)
            | (ValidationContext::ArrayValue, ValidationContext::ArrayEnd)
            | (ValidationContext::ArrayComma, ValidationContext::ArrayValue)
            | (ValidationContext::ObjectStart, ValidationContext::ObjectEntryKey)
            | (ValidationContext::ObjectStart, ValidationContext::ObjectEnd)
            | (ValidationContext::ObjectEntryKey, ValidationContext::ObjectEntryColon)
            | (ValidationContext::ObjectEntryColon, ValidationContext::ObjectEntryValue)
            | (ValidationContext::ObjectEntryValue, ValidationContext::ObjectEntryComma)
            | (ValidationContext::ObjectEntryValue, ValidationContext::ObjectEnd)
            | (ValidationContext::ObjectEntryComma, ValidationContext::ObjectEntryKey) => true,
            _ => false,
        }
    }

    /// The contexts that may follow this one, in the table's order.
    pub open spec fn spec_valid_sequents(self) -> Seq<ValidationContext> {
        match self {
            ValidationContext::ArrayStart => seq![
                ValidationContext::ArrayValue,
                ValidationContext::ArrayEnd,
            ],
            ValidationContext::ArrayValue => seq![
                ValidationContext::ArrayComma,
                ValidationContext::ArrayEnd,
            ],
            ValidationContext::ArrayComma => seq![ValidationContext::ArrayValue],
            ValidationContext::ArrayEnd => seq![],
            ValidationContext::ObjectStart => seq![
                ValidationContext::ObjectEntryKey,
                ValidationContext::ObjectEnd,
            ],
            ValidationContext::ObjectEntryKey => seq![ValidationContext::ObjectEntryColon],
            ValidationContext::ObjectEntryColon => seq![ValidationContext::ObjectEntryValue],
            ValidationContext::ObjectEntryValue => seq![
                ValidationContext::ObjectEntryComma,
                ValidationContext::ObjectEnd,
            ],
            ValidationContext::ObjectEntryComma => seq![ValidationContext::ObjectEntryKey],
            ValidationContext::ObjectEnd => seq![],
        }
    }

    pub fn valid_sequents(self) -> (r: Vec<ValidationContext>)
        ensures
            r@ == self.spec_valid_sequents(),
    {
        let r: Vec<ValidationContext> = match self {
            ValidationContext::ArrayStart => vec![
                ValidationContext::ArrayValue,
                ValidationContext::ArrayEnd,
            ],
            ValidationContext::ArrayValue => vec![
                ValidationContext::ArrayComma,
                ValidationContext::ArrayEnd,
            ],
            ValidationContext::ArrayComma => vec![ValidationContext::ArrayValue],
            ValidationContext::ArrayEnd => vec![],
            ValidationContext::ObjectStart => vec![
                ValidationContext::ObjectEntryKey,
                ValidationContext::ObjectEnd,
            ],
            ValidationContext::ObjectEntryKey => vec![ValidationContext::ObjectEntryColon],
            ValidationContext::ObjectEntryColon => vec![ValidationContext::ObjectEntryValue],
            ValidationContext::ObjectEntryValue => vec![
                ValidationContext::ObjectEntryComma,
                ValidationContext::ObjectEnd,
            ],
            ValidationContext::ObjectEntryComma => vec![ValidationContext::ObjectEntryKey],
            ValidationContext::ObjectEnd => vec![],
        };
        proof {
            assert(r@ =~= self.spec_valid_sequents());
        }
        r
    }
}

/// What one `process_token` call reports.
#[derive(Debug, PartialEq, Eq, Structural, Copy, Clone)]
pub enum ValidationState {
    /// A whole value has just been completed at the top level.
    Complete,
    /// The token fit, and more tokens are needed.
    Incomplete,
    /// Whitespace: the validator's state did not change.
    Ignored,
}

/// A grammar violation.
#[derive(Debug, PartialEq, Eq, Clone)]
pub enum ValidationError {
    /// The token cannot appear here.  `None` means the token needs a
    /// surrounding container and came at the top level; `Some(c)` names the
    /// context whose successor set (see `valid_sequents`) excludes it.
    Invalid(Option<ValidationContext>),
    /// `finish` was called with a value still open.
    UnexpectedEndOfInput,
}

/// Mathematical model of a validator: its current context and the saved
/// contexts of the suspended containers.
pub struct ValidatorModel {
    pub current_context: Option<ValidationContext>,
    pub stack: Seq<ValidationContext>,
}

/// The saved context of a suspended container is always the position in
/// the parent at which a value may appear.
pub open spec fn spec_is_suspension(c: ValidationContext) -> bool {
    c == ValidationContext::ArrayStart || c == ValidationContext::ArrayComma || c
        == ValidationContext::ObjectEntryColon
}

/// Well-formedness: the validator is at the top level exactly when no
/// context is current, ends are never current, and the stack holds only
/// suspension points.
pub open spec fn spec_validator_wf(m: ValidatorModel) -> bool {
    &&& (m.current_context is None ==> m.stack.len() == 0)
    &&& (m.current_context matches Some(c) ==> c != ValidationContext::ArrayEnd && c
        != ValidationContext::ObjectEnd)
    &&& forall|i: int| 0 <= i < m.stack.len() ==> spec_is_suspension(#[trigger] m.stack[i])
}

/// How many containers are open.
pub open spec fn spec_validator_depth(m: ValidatorModel) -> int {
    m.stack.len() + if m.current_context is Some {
        1int
    } else {
        0int
    }
}

/// Closing the innermost container: the parent resumes just past the value
/// the container was, or the document completes if none is left.
pub open spec fn spec_close_container(m: ValidatorModel) -> (ValidatorModel, ValidationState) {
    if m.stack.len() == 0 {
        (ValidatorModel { current_context: None, stack: m.stack }, ValidationState::Complete)
    } else {
        let saved = m.stack.last();
        let resumed = if saved == ValidationContext::ObjectEntryColon {
            ValidationContext::ObjectEntryValue
        } else {
            ValidationContext::ArrayValue
        };
        (
            ValidatorModel { current_context: Some(resumed), stack: m.stack.drop_last() },
            ValidationState::Incomplete,
        )
    }
}

/// The validator's transition function: the state after a token, and what
/// `process_token` returns for it.  On an error the state is unchanged.
pub open spec fn spec_process_token(m: ValidatorModel, t: TokenModel) -> (
    ValidatorModel,
    Result<ValidationState, ValidationError>,
) {
    if spec_token_is_whitespace(t) {
        (m, Ok(ValidationState::Ignored))
    } else {
        match m.current_context {
            None => match t {
                TokenModel::True
                | TokenModel::False
                | TokenModel::Null
                | TokenModel::Number(_)
                | TokenModel::String(_) => (m, Ok(ValidationState::Complete)),
                TokenModel::ArrayOpen => (
                    ValidatorModel {
                        current_context: Some(ValidationContext::ArrayStart),
                        stack: m.stack,
                    },
                    Ok(ValidationState::Incomplete),
                ),
                TokenModel::ObjectOpen => (
                    ValidatorModel {
                        current_context: Some(ValidationContext::ObjectStart),
                        stack: m.stack,
                    },
                    Ok(ValidationState::Incomplete),
                ),
                _ => (m, Err(ValidationError::Invalid(None))),
            },
            Some(context) => match context {
                ValidationContext::ArrayStart | ValidationContext::ArrayComma => match t {
                    TokenModel::True
                    | TokenModel::False
                    | TokenModel::Null
                    | TokenModel::Number(_)
                    | TokenModel::String(_) => (
                        ValidatorModel {
                            current_context: Some(ValidationContext::ArrayValue),
                            stack: m.stack,
                        },
                        Ok(ValidationState::Incomplete),
                    ),
                    TokenModel::ObjectOpen => (
                        ValidatorModel {
                            current_context: Some(ValidationContext::ObjectStart),
                            stack: m.stack.push(context),
                        },
                        Ok(ValidationState::Incomplete),
                    ),
                    TokenModel::ArrayOpen => (
                        ValidatorModel {
                            current_context: Some(ValidationContext::ArrayStart),
                            stack: m.stack.push(context),
                        },
                        Ok(ValidationState::Incomplete),
                    ),
                    TokenModel::ArrayClose => if context == ValidationContext::ArrayStart {
                        let r = spec_close_container(m);
                        (r.0, Ok(r.1))
                    } else {
                        (m, Err(ValidationError::Invalid(Some(context))))
                    },
                    _ => (m, Err(ValidationError::Invalid(Some(context)))),
                },
                ValidationContext::ArrayValue => match t {
                    TokenModel::Comma => (
                        ValidatorModel {
                            current_context: Some(ValidationContext::ArrayComma),
                            stack: m.stack,
                        },
                        Ok(ValidationState::Incomplete),
                    ),
                    TokenModel::ArrayClose => {
                        let r = spec_close_container(m);
                        (r.0, Ok(r.1))
                    },
                    _ => (m, Err(ValidationError::Invalid(Some(context)))),
                },
                ValidationContext::ObjectStart => match t {
                    TokenModel::String(_) => (
                        ValidatorModel {
                            current_context: Some(ValidationContext::ObjectEntryKey),
                            stack: m.stack,
                        },
                        Ok(ValidationState::Incomplete),
                    ),
                    TokenModel::ObjectClose => {
                        let r = spec_close_container(m);
                        (r.0, Ok(r.1))
                    },
                    _ => (m, Err(ValidationError::Invalid(Some(context)))),
                },
                ValidationContext::ObjectEntryKey => match t {
                    TokenModel::Colon => (
                        ValidatorModel {
                            current_context: Some(ValidationContext::ObjectEntryColon),
                            stack: m.stack,
                        },
                        Ok(ValidationState::Incomplete),
                    ),
                    _ => (m, Err(ValidationError::Invalid(Some(context)))),
                },
                ValidationContext::ObjectEntryColon => match t {
                    TokenModel::True
                    | TokenModel::False
                    | TokenModel::Null
                    | TokenModel::Number(_)
                    | TokenModel::String(_) => (
                        ValidatorModel {
                            current_context: Some(ValidationContext::ObjectEntryValue),
                            stack: m.stack,
                        },
                        Ok(ValidationState::Incomplete),
                    ),
                    TokenModel::ObjectOpen => (
                        ValidatorModel {
                            current_context: Some(ValidationContext::ObjectStart),
                            stack: m.stack.push(context),
                        },
                        Ok(ValidationState::Incomplete),
                    ),
                    TokenModel::ArrayOpen => (
                        ValidatorModel {
                            current_context: Some(ValidationContext::ArrayStart),
                            stack: m.stack.push(context),
                        },
                        Ok(ValidationState::Incomplete),
                    ),
                    _ => (m, Err(ValidationError::Invalid(Some(context)))),
                },
                ValidationContext::ObjectEntryValue => match t {
                    TokenModel::Comma => (
                        ValidatorModel {
                            current_context: Some(ValidationContext::ObjectEntryComma),
                            stack: m.stack,
                        },
                        Ok(ValidationState::Incomplete),
                    ),
                    TokenModel::ObjectClose => {
                        let r = spec_close_container(m);
                        (r.0, Ok(r.1))
                    },
                    _ => (m, Err(ValidationError::Invalid(Some(context)))),
                },
                ValidationContext::ObjectEntryComma => match t {
                    TokenModel::String(_) => (
                        ValidatorModel {
                            current_context: Some(ValidationContext::ObjectEntryKey),
                            stack: m.stack,
                        },
                        Ok(ValidationState::Incomplete),
                    ),
                    _ => (m, Err(ValidationError::Invalid(Some(context)))),
                },
                ValidationContext::ArrayEnd | ValidationContext::ObjectEnd => (
                    m,
                    Err(ValidationError::Invalid(Some(context))),
                ),
            },
        }
    }
}

/// No transition makes a well-formed validator ill-formed.
pub proof fn lemma_process_token_preserves_wf(m: ValidatorModel, t: TokenModel)
    requires
        spec_validator_wf(m),
    ensures
        spec_validator_wf(spec_process_token(m, t).0),
{
}

/// The validator.  `current_context` is absent exactly at the top level,
/// before or after a complete value.
pub struct Validator {
    pub current_context: Option<ValidationContext>,
    pub context_stack: Vec<ValidationContext>,
}

impl View for Validator {
    type V = ValidatorModel;

    open spec fn view(&self) -> ValidatorModel {
        ValidatorModel { current_context: self.current_context, stack: self.context_stack@ }
    }
}

impl Validator {
    pub open spec fn wf(&self) -> bool {
        spec_validator_wf(self@)
    }

    pub fn new() -> (r: Validator)
        ensures
            r@.current_context is None,
            r@.stack.len() == 0,
            r.wf(),
    {
        Validator { current_context: None, context_stack: Vec::new() }
    }

    pub fn current_context(&self) -> (r: Option<ValidationContext>)
        ensures
            r == self@.current_context,
    {
        self.current_context
    }

    /// How many containers are open.
    pub fn container_depth(&self) -> (r: usize)
        requires
            spec_validator_depth(self@) <= usize::MAX,
        ensures
            r == spec_validator_depth(self@),
    {
        if self.current_context.is_some() {
            self.context_stack.len() + 1
        } else {
            self.context_stack.len()
        }
    }

    /// `Complete` exactly when no value is open; the validator is ready
    /// for another document either way.
    pub fn finish(&mut self) -> (r: Result<ValidationState, ValidationError>)
        ensures
            final(self)@ == old(self)@,
            r == if old(self)@.current_context is None && old(self)@.stack.len() == 0 {
                Ok::<ValidationState, ValidationError>(ValidationState::Complete)
            } else {
                Err::<ValidationState, ValidationError>(ValidationError::UnexpectedEndOfInput)
            },
    {
        if self.current_context.is_none() && self.context_stack.len() == 0 {
            Ok(ValidationState::Complete)
        } else {
            Err(ValidationError::UnexpectedEndOfInput)
        }
    }

    /// Returns to the initial, top-level state.
    pub fn reset(&mut self)
        ensures
            final(self)@.current_context is None,
            final(self)@.stack.len() == 0,
            final(self).wf(),
    {
        self.current_context = None;
        self.context_stack.clear();
    }

    /// One grammar step; see `spec_process_token`.  Whitespace is ignored,
    /// an invalid token leaves the state unchanged.
    pub fn process_token(&mut self, token: &Token<'_>) -> (r: Result<
        ValidationState,
        ValidationError,
    >)
        ensures
            final(self)@ == spec_process_token(old(self)@, token@).0,
            r == spec_process_token(old(self)@, token@).1,
    {
        if token.is_whitespace() {
            return Ok(ValidationState::Ignored);
        }
        match self.current_context {
            None => match token {
                Token::True | Token::False | Token::Null | Token::Number(_) | Token::String(_) => {
                    Ok(ValidationState::Complete)
                }
                Token::ArrayOpen => {
                    self.current_context = Some(ValidationContext::ArrayStart);
                    Ok(ValidationState::Incomplete)
                }
                Token::ObjectOpen => {
                    self.current_context = Some(ValidationContext::ObjectStart);
                    Ok(ValidationState::Incomplete)
                }
                _ => Err(ValidationError::Invalid(None)),
            },
            Some(context) => match context {
                ValidationContext::ArrayStart | ValidationContext::ArrayComma => match token {
                    Token::True
                    | Token::False
                    | Token::Null
                    | Token::Number(_)
                    | Token::String(_) => self.transition_incomplete(
                        ValidationContext::ArrayValue,
                    ),
                    Token::ObjectOpen => self.enter_container(
                        context,
                        ValidationContext::ObjectStart,
                    ),
                    Token::ArrayOpen => self.enter_container(context, ValidationContext::ArrayStart),
                    Token::ArrayClose => {
                        if let ValidationContext::ArrayStart = context {
                            self.check_completion()
                        } else {
                            Err(ValidationError::Invalid(Some(context)))
                        }
                    }
                    _ => Err(ValidationError::Invalid(Some(context))),
                },
                ValidationContext::ArrayValue => match token {
                    Token::Comma => self.transition_incomplete(ValidationContext::ArrayComma),
                    Token::ArrayClose => self.check_completion(),
                    _ => Err(ValidationError::Invalid(Some(context))),
                },
                ValidationContext::ObjectStart => match token {
                    Token::String(_) => self.transition_incomplete(
                        ValidationContext::ObjectEntryKey,
                    ),
                    Token::ObjectClose => self.check_completion(),
                    _ => Err(ValidationError::Invalid(Some(context))),
                },
                ValidationContext::ObjectEntryKey => match token {
                    Token::Colon => self.transition_incomplete(ValidationContext::ObjectEntryColon),
                    _ => Err(ValidationError::Invalid(Some(context))),
                },
                ValidationContext::ObjectEntryColon => match token {
                    Token::True
                    | Token::False
                    | Token::Null
                    | Token::Number(_)
                    | Token::String(_) => self.transition_incomplete(
                        ValidationContext::ObjectEntryValue,
                    ),
                    Token::ObjectOpen => self.enter_container(
                        context,
                        ValidationContext::ObjectStart,
                    ),
                    Token::ArrayOpen => self.enter_container(context, ValidationContext::ArrayStart),
                    _ => Err(ValidationError::Invalid(Some(context))),
                },
                ValidationContext::ObjectEntryValue => match token {
                    Token::Comma => self.transition_incomplete(ValidationContext::ObjectEntryComma),
                    Token::ObjectClose => self.check_completion(),
                    _ => Err(ValidationError::Invalid(Some(context))),
                },
                ValidationContext::ObjectEntryComma => match token {
                    Token::String(_) => self.transition_incomplete(
                        ValidationContext::ObjectEntryKey,
                    ),
                    _ => Err(ValidationError::Invalid(Some(context))),
                },
                ValidationContext::ArrayEnd | ValidationContext::ObjectEnd => Err(
                    ValidationError::Invalid(Some(context)),
                ),
            },
        }
    }

    /// Moves within the current container.
    fn transition_incomplete(&mut self, next: ValidationContext) -> (r: Result<
        ValidationState,
        ValidationError,
    >)
        ensures
            final(self)@.current_context == Some(next),
            final(self)@.stack == old(self)@.stack,
            r == Ok::<ValidationState, ValidationError>(ValidationState::Incomplete),
    {
        self.current_context = Some(next);
        Ok(ValidationState::Incomplete)
    }

    /// Suspends the current container at `saved` and opens a nested one.
    fn enter_container(&mut self, saved: ValidationContext, next: ValidationContext) -> (r: Result<
        ValidationState,
        ValidationError,
    >)
        ensures
            final(self)@.current_context == Some(next),
            final(self)@.stack == old(self)@.stack.push(saved),
            r == Ok::<ValidationState, ValidationError>(ValidationState::Incomplete),
    {
        self.context_stack.push(saved);
        self.current_context = Some(next);
        Ok(ValidationState::Incomplete)
    }

    /// A container just closed: resume its parent, or report `Complete` at
    /// the top level.
    fn check_completion(&mut self) -> (r: Result<ValidationState, ValidationError>)
        ensures
            ({
                let c = spec_close_container(old(self)@);
                final(self)@ == c.0 && r == Ok::<ValidationState, ValidationError>(c.1)
            }),
    {
        match self.context_stack.pop() {
            Some(saved) => {
                let resumed = if saved == ValidationContext::ObjectEntryColon {
                    ValidationContext::ObjectEntryValue
                } else {
                    ValidationContext::ArrayValue
                };
                self.current_context = Some(resumed);
                Ok(ValidationState::Incomplete)
            }
            None => {
                self.current_context = None;
                Ok(ValidationState::Complete)
            }
        }
    }
}

/// The state after processing a whole token sequence, whitespace included;
/// an invalid token leaves the state unchanged, as `process_token` does.
pub open spec fn spec_run_validator(m: ValidatorModel, ts: Seq<TokenModel>) -> ValidatorModel
    decreases ts.len(),
{
    if ts.len() == 0 {
        m
    } else {
        spec_run_validator(spec_process_token(m, ts[0]).0, ts.drop_first())
    }
}

/// Whether every token of the sequence is accepted, starting from `m`.
pub open spec fn spec_run_validator_ok(m: ValidatorModel, ts: Seq<TokenModel>) -> bool
    decreases ts.len(),
{
    if ts.len() == 0 {
        true
    } else {
        spec_process_token(m, ts[0]).1 is Ok && spec_run_validator_ok(
            spec_process_token(m, ts[0]).0,
            ts.drop_first(),
        )
    }
}

/// Running one more token is one more transition.
pub proof fn lemma_run_validator_push(m: ValidatorModel, ts: Seq<TokenModel>, t: TokenModel)
    ensures
        spec_run_validator(m, ts.push(t)) == spec_process_token(spec_run_validator(m, ts), t).0,
        spec_run_validator_ok(m, ts.push(t)) == (spec_run_validator_ok(m, ts)
            && spec_process_token(spec_run_validator(m, ts), t).1 is Ok),
    decreases ts.len(),
{
    reveal_with_fuel(spec_run_validator, 3);
    reveal_with_fuel(spec_run_validator_ok, 3);
    if ts.len() == 0 {
        assert(ts.push(t).drop_first() == ts);
        assert(ts.push(t)[0] == t);
        assert(spec_run_validator(m, ts.push(t)) == spec_run_validator(
            spec_process_token(m, t).0,
            ts,
        ));
    } else {
        assert(ts.push(t)[0] == ts[0]);
        assert(ts.push(t).drop_first() == ts.drop_first().push(t));
        lemma_run_validator_push(spec_process_token(m, ts[0]).0, ts.drop_first(), t);
    }
}

/// A well-formed validator stays well-formed over any token sequence.
pub proof fn lemma_run_validator_preserves_wf(m: ValidatorModel, ts: Seq<TokenModel>)
    requires
        spec_validator_wf(m),
    ensures
        spec_validator_wf(spec_run_validator(m, ts)),
    decreases ts.len(),
{
    if ts.len() > 0 {
        lemma_process_token_preserves_wf(m, ts[0]);
        lemma_run_validator_preserves_wf(spec_process_token(m, ts[0]).0, ts.drop_first());
    }
}

/// The initial validator: top level, nothing open.
pub open spec fn spec_initial_validator() -> ValidatorModel {
    ValidatorModel { current_context: None, stack: Seq::empty() }
}

/// A validator state that `finish` accepts: a complete document (or none)
/// and nothing open.
pub open spec fn spec_validator_done(m: ValidatorModel) -> bool {
    m.current_context is None && m.stack.len() == 0
}

/// Concatenation runs piecewise.
pub proof fn lemma_run_validator_append(m: ValidatorModel, a: Seq<TokenModel>, b: Seq<TokenModel>)
    ensures
        spec_run_validator(m, a + b) == spec_run_validator(spec_run_validator(m, a), b),
        spec_run_validator_ok(m, a + b) == (spec_run_validator_ok(m, a)
            && spec_run_validator_ok(spec_run_validator(m, a), b)),
    decreases a.len(),
{
    if a.len() == 0 {
        assert(a + b =~= b);
    } else {
        assert((a + b)[0] == a[0]);
        assert((a + b).drop_first() == a.drop_first() + b);
        lemma_run_validator_append(spec_process_token(m, a[0]).0, a.drop_first(), b);
    }
}

/// A single token is a single transition.
pub proof fn lemma_run_validator_one(m: ValidatorModel, t: TokenModel)
    ensures
        spec_run_validator(m, seq![t]) == spec_process_token(m, t).0,
        spec_run_validator_ok(m, seq![t]) == (spec_process_token(m, t).1 is Ok),
{
    reveal_with_fuel(spec_run_validator, 2);
    reveal_with_fuel(spec_run_validator_ok, 2);
    assert(seq![t].drop_first() == Seq::<TokenModel>::empty());
    assert(seq![t][0] == t);
}

// ---------------------------------------------------------------------------
// The JSON grammar over token sequences
// ---------------------------------------------------------------------------
/// A token that is a whole value on its own.
pub open spec fn spec_is_scalar_token(t: TokenModel) -> bool {
    match t {
        TokenModel::True
        | TokenModel::False
        | TokenModel::Null
        | TokenModel::Number(_)
        | TokenModel::String(_) => true,
        _ => false,
    }
}

/// A whitespace-free token sequence that forms exactly one JSON value.
pub open spec fn spec_is_json_value(ts: Seq<TokenModel>) -> bool
    decreases ts.len(), 0int,
{
    if ts.len() == 1 {
        spec_is_scalar_token(ts[0])
    } else if ts.len() >= 2 && ts[0] == TokenModel::ArrayOpen && ts.last()
        == TokenModel::ArrayClose {
        ts.len() == 2 || spec_is_value_list(ts.subrange(1, ts.len() - 1))
    } else if ts.len() >= 2 && ts[0] == TokenModel::ObjectOpen && ts.last()
        == TokenModel::ObjectClose {
        ts.len() == 2 || spec_is_member_list(ts.subrange(1, ts.len() - 1))
    } else {
        false
    }
}

/// One or more values separated by commas: an array's elements.
pub open spec fn spec_is_value_list(ts: Seq<TokenModel>) -> bool
    decreases ts.len(), 1int,
{
    exists|k: int|
        1 <= k <= ts.len() && spec_is_json_value(#[trigger] ts.subrange(0, k)) && (k == ts.len()
            || (ts[k] == TokenModel::Comma && spec_is_value_list(ts.subrange(k + 1, ts.len() as int))))
}

/// One or more `key : value` members separated by commas: an object's
/// entries.
pub open spec fn spec_is_member_list(ts: Seq<TokenModel>) -> bool
    decreases ts.len(), 1int,
{
    exists|k: int|
        3 <= k <= ts.len() && ts[0] is String && ts[1] == TokenModel::Colon && spec_is_json_value(
            #[trigger] ts.subrange(2, k),
        ) && (k == ts.len() || (ts[k] == TokenModel::Comma && spec_is_member_list(
            ts.subrange(k + 1, ts.len() as int),
        )))
}

/// The state a value leaves behind: seen from the top level nothing
/// changes, inside a container the position advances past the value.
pub open spec fn spec_after_value(m: ValidatorModel) -> ValidatorModel {
    match m.current_context {
        None => m,
        Some(p) => ValidatorModel {
            current_context: Some(
                if p == ValidationContext::ObjectEntryColon {
                    ValidationContext::ObjectEntryValue
                } else {
                    ValidationContext::ArrayValue
                },
            ),
            stack: m.stack,
        },
    }
}

/// A value may begin here: at the top level or just where a container
/// expects one.
pub open spec fn spec_ready_for_value(m: ValidatorModel) -> bool {
    match m.current_context {
        None => true,
        Some(p) => spec_is_suspension(p),
    }
}

/// Processing one well-formed value from any position that expects a
/// value: every token is accepted and the automaton ends just past the
/// value.
pub proof fn lemma_value_run(m: ValidatorModel, ts: Seq<TokenModel>)
    requires
        spec_is_json_value(ts),
        spec_validator_wf(m),
        spec_ready_for_value(m),
    ensures
        spec_run_validator_ok(m, ts),
        spec_run_validator(m, ts) == spec_after_value(m),
    decreases ts.len(), 0int,
{
    let len = ts.len() as int;
    if len == 1 {
        lemma_run_validator_one(m, ts[0]);
        assert(ts =~= seq![ts[0]]);
    } else {
        let inner = ts.subrange(1, len - 1);
        let m1 = spec_process_token(m, ts[0]).0;
        assert(ts =~= seq![ts[0]] + (inner + seq![ts[len - 1]]));
        lemma_run_validator_append(m, seq![ts[0]], inner + seq![ts[len - 1]]);
        lemma_run_validator_one(m, ts[0]);
        lemma_run_validator_append(m1, inner, seq![ts[len - 1]]);
        let m2 = spec_run_validator(m1, inner);
        lemma_run_validator_one(m2, ts[len - 1]);
        if ts[0] == TokenModel::ArrayOpen {
            // m1 is inside the new array, the parent position saved
            assert(m1.current_context == Some(ValidationContext::ArrayStart));
            if len == 2 {
                assert(inner =~= Seq::<TokenModel>::empty());
                assert(m2 == m1);
            } else {
                lemma_value_list_run(m1, inner);
            }
        } else {
            assert(ts[0] == TokenModel::ObjectOpen);
            assert(m1.current_context == Some(ValidationContext::ObjectStart));
            if len == 2 {
                assert(inner =~= Seq::<TokenModel>::empty());
                assert(m2 == m1);
            } else {
                lemma_member_list_run(m1, inner);
            }
        }
        // the close pops the saved parent position (or completes)
        match m.current_context {
            None => {
                assert(m1.stack == m.stack);
                assert(spec_run_validator(m, ts) == spec_after_value(m));
            }
            Some(p) => {
                assert(m1.stack == m.stack.push(p));
                assert(m1.stack.drop_last() =~= m.stack);
                assert(spec_run_validator(m, ts) == spec_after_value(m));
            }
        }
    }
}

/// Processing an array's elements from `ArrayStart` or `ArrayComma`: all
/// accepted, ending just past the last element.
pub proof fn lemma_value_list_run(m: ValidatorModel, ts: Seq<TokenModel>)
    requires
        spec_is_value_list(ts),
        spec_validator_wf(m),
        m.current_context == Some(ValidationContext::ArrayStart) || m.current_context == Some(
            ValidationContext::ArrayComma,
        ),
    ensures
        spec_run_validator_ok(m, ts),
        spec_run_validator(m, ts) == (ValidatorModel {
            current_context: Some(ValidationContext::ArrayValue),
            stack: m.stack,
        }),
    decreases ts.len(), 1int,
{
    let len = ts.len() as int;
    let k = choose|k: int|
        1 <= k <= len && spec_is_json_value(#[trigger] ts.subrange(0, k)) && (k == len || (ts[k]
            == TokenModel::Comma && spec_is_value_list(ts.subrange(k + 1, len))));
    let v = ts.subrange(0, k);
    lemma_value_run(m, v);
    if k == len {
        assert(ts =~= v);
    } else {
        let rest = ts.subrange(k + 1, len);
        assert(ts =~= v + (seq![ts[k]] + rest));
        lemma_run_validator_append(m, v, seq![ts[k]] + rest);
        let mv = spec_run_validator(m, v);
        lemma_run_validator_append(mv, seq![ts[k]], rest);
        lemma_run_validator_one(mv, ts[k]);
        let mc = spec_process_token(mv, ts[k]).0;
        assert(mc.current_context == Some(ValidationContext::ArrayComma));
        lemma_value_list_run(mc, rest);
    }
}

/// Processing an object's members from `ObjectStart` or
/// `ObjectEntryComma`: all accepted, ending just past the last member's
/// value.
pub proof fn lemma_member_list_run(m: ValidatorModel, ts: Seq<TokenModel>)
    requires
        spec_is_member_list(ts),
        spec_validator_wf(m),
        m.current_context == Some(ValidationContext::ObjectStart) || m.current_context == Some(
            ValidationContext::ObjectEntryComma,
        ),
    ensures
        spec_run_validator_ok(m, ts),
        spec_run_validator(m, ts) == (ValidatorModel {
            current_context: Some(ValidationContext::ObjectEntryValue),
            stack: m.stack,
        }),
    decreases ts.len(), 1int,
{
    let len = ts.len() as int;
    let k = choose|k: int|
        3 <= k <= len && ts[0] is String && ts[1] == TokenModel::Colon && spec_is_json_value(
            #[trigger] ts.subrange(2, k),
        ) && (k == len || (ts[k] == TokenModel::Comma && spec_is_member_list(
            ts.subrange(k + 1, len),
        )));
    let v = ts.subrange(2, k);
    let head = ts.subrange(0, k);
    assert(head =~= seq![ts[0]] + (seq![ts[1]] + v));
    lemma_run_validator_append(m, seq![ts[0]], seq![ts[1]] + v);
    lemma_run_validator_one(m, ts[0]);
    let mk = spec_process_token(m, ts[0]).0;
    assert(mk.current_context == Some(ValidationContext::ObjectEntryKey));
    lemma_run_validator_append(mk, seq![ts[1]], v);
    lemma_run_validator_one(mk, ts[1]);
    let mcolon = spec_process_token(mk, ts[1]).0;
    assert(mcolon.current_context == Some(ValidationContext::ObjectEntryColon));
    lemma_value_run(mcolon, v);
    if k == len {
        assert(ts =~= head);
    } else {
        let rest = ts.subrange(k + 1, len);
        assert(ts =~= head + (seq![ts[k]] + rest));
        lemma_run_validator_append(m, head, seq![ts[k]] + rest);
        let mhead = spec_run_validator(m, head);
        assert(mhead == spec_after_value(mcolon));
        lemma_run_validator_append(mhead, seq![ts[k]], rest);
        lemma_run_validator_one(mhead, ts[k]);
        let mcomma = spec_process_token(mhead, ts[k]).0;
        assert(mcomma.current_context == Some(ValidationContext::ObjectEntryComma));
        lemma_member_list_run(mcomma, rest);
    }
}

/// Every grammatically well-formed token sequence is accepted by the
/// validator, which ends complete at the top level.
pub proof fn lemma_validator_accepts_json(ts: Seq<TokenModel>)
    requires
        spec_is_json_value(ts),
    ensures
        spec_run_validator_ok(spec_initial_validator(), ts),
        spec_validator_done(spec_run_validator(spec_initial_validator(), ts)),
{
    lemma_value_run(spec_initial_validator(), ts);
}

} // verus!
