//! The path-tracked visitor loop: a validator and a path stack kept in
//! lockstep, delivering preorder, inorder and postorder events that carry
//! the JSON path of the value they concern.
//!
//! The path rules follow the validator's transitions: entering an object
//! pushes a placeholder key, a key token fills it in (verbatim, quotes
//! included), entering an array pushes index 0, finishing an array value
//! advances the index, and a close pops — before the postorder event, so
//! container-end handlers see the parent's path and receive the popped
//! segment (the final index or key) separately.

use crate::driver::DriverError;
use crate::section::ByteSection;
use crate::tokenizer::{
    spec_token_is_close, spec_token_is_value_start, spec_token_is_whitespace, CompressMode, Token,
    TokenModel,
};
use crate::validator::{
    spec_initial_validator, spec_process_token, spec_run_validator, spec_run_validator_ok,
    spec_validator_depth, spec_validator_done, ValidationContext, ValidationState, Validator,
};
use crate::{JsonPath, JsonPathSegment, PathSegModel};
use std::borrow::Cow;
use vstd::prelude::*;

verus! {

/// An index segment advanced by one; pinned below `usize::MAX`, which no
/// actual array can reach since every element consumes input bytes.
pub open spec fn spec_next_index(n: int) -> int {
    if n < usize::MAX {
        n + 1
    } else {
        n
    }
}

/// How one accepted token changes the path, given the validator context
/// the token led to.
pub open spec fn spec_path_update(
    path: Seq<PathSegModel>,
    t: TokenModel,
    ctx: Option<ValidationContext>,
) -> Seq<PathSegModel> {
    let p1 = if spec_token_is_close(t) && path.len() > 0 {
        path.drop_last()
    } else {
        path
    };
    match ctx {
        Some(ValidationContext::ObjectStart) => p1.push(PathSegModel::Key(Seq::empty())),
        Some(ValidationContext::ObjectEntryKey) => if t is String && p1.len() > 0
            && p1.last() is Key {
            p1.update(p1.len() - 1, PathSegModel::Key(vstd::utf8::decode_utf8(t->String_0)))
        } else {
            p1
        },
        Some(ValidationContext::ArrayStart) => p1.push(PathSegModel::Index(0)),
        Some(ValidationContext::ArrayValue) => if p1.len() > 0 && p1.last() is Index {
            p1.update(p1.len() - 1, PathSegModel::Index(spec_next_index(p1.last()->Index_0)))
        } else {
            p1
        },
        _ => p1,
    }
}

/// One visitor event: a non-whitespace token together with the path it was
/// seen at and the bits that classify it.
#[derive(Debug)]
pub struct VisitorEvent {
    /// The path at visit time: for a close token, already popped, so the
    /// event names the container's parent position.
    pub path: Vec<JsonPathSegment<'static>>,
    pub token: Token<'static>,
    pub state: ValidationState,
    /// The token begins a value (and is not an object key).
    pub is_start_of_value: bool,
    /// A value ends with this token.
    pub is_end_of_value: bool,
    /// The token is an object key.
    pub is_object_key: bool,
    /// For a close token, the popped segment: the final index (the array's
    /// length) or the final key of the container that just ended.
    pub container_last_segment: Option<JsonPathSegment<'static>>,
}

fn clone_segments(v: &Vec<JsonPathSegment<'static>>) -> (r: Vec<JsonPathSegment<'static>>)
    ensures
        r.deep_view() == v.deep_view(),
{
    let mut r: Vec<JsonPathSegment<'static>> = Vec::new();
    let mut i: usize = 0;
    proof {
        assert(r.deep_view() =~= v.deep_view().take(0));
    }
    while i < v.len()
        invariant
            i <= v.len(),
            r.deep_view() == v.deep_view().take(i as int),
        decreases v.len() - i,
    {
        let ghost prev = r.deep_view();
        let element = v[i].clone();
        let ghost element_view = element.deep_view();
        proof {
            assert(element_view == v.deep_view()[i as int]);
        }
        r.push(element);
        i = i + 1;
        proof {
            assert forall|j: int| 0 <= j < r.deep_view().len() implies #[trigger] r.deep_view()[j]
                == prev.push(element_view)[j] by {
                assert(r.deep_view()[j] == r@[j].deep_view());
                if j < prev.len() {
                    assert(prev[j] == r@[j].deep_view());
                }
            }
            assert(r.deep_view() =~= prev.push(element_view));
            assert(prev.push(element_view) =~= v.deep_view().take(i as int));
        }
    }
    proof {
        assert(v.deep_view().take(v.len() as int) =~= v.deep_view());
    }
    r
}

/// A validator and a path stack in lockstep.
pub struct Visitor {
    pub validator: Validator,
    pub path: JsonPath<'static>,
}

impl Visitor {
    /// The path is exactly one segment per open container.
    pub open spec fn depth_matches(&self) -> bool {
        self.path@.len() == spec_validator_depth(self.validator@)
    }

    pub fn new() -> (r: Visitor)
        ensures
            r.validator@ == crate::validator::spec_initial_validator(),
            r.path@ == Seq::<PathSegModel>::empty(),
            r.depth_matches(),
            r.validator.wf(),
    {
        let r = Visitor { validator: Validator::new(), path: JsonPath::empty() };
        proof {
            assert(r.validator@.stack =~= Seq::<ValidationContext>::empty());
        }
        r
    }

    /// Feeds one non-whitespace token to the validator and updates the
    /// path, returning the visitor event for the token.
    ///
    /// The path's depth tracks the validator's container depth: in
    /// particular, after every close token the (already popped) event path
    /// is exactly one segment per still-open container.
    pub fn step(&mut self, token: &Token<'_>) -> (r: Result<VisitorEvent, DriverError>)
        requires
            !spec_token_is_whitespace(token@),
        ensures
            match r {
                Ok(ev) => {
                    let stepped = spec_process_token(old(self).validator@, token@);
                    &&& final(self).validator@ == stepped.0
                    &&& stepped.1 == Ok::<ValidationState, crate::validator::ValidationError>(
                        ev.state,
                    )
                    &&& final(self).path@ == spec_path_update(
                        old(self).path@,
                        token@,
                        stepped.0.current_context,
                    )
                    &&& ev.token@ == token@
                    &&& ev.is_object_key == (stepped.0.current_context == Some(
                        ValidationContext::ObjectEntryKey,
                    ))
                    &&& ev.is_start_of_value == (spec_token_is_value_start(token@)
                        && !ev.is_object_key)
                    &&& ev.is_end_of_value == ((spec_token_is_close(token@)
                        || spec_token_is_value_start(token@)) && (match stepped.0.current_context {
                        None => true,
                        Some(c) => c.spec_in_value(),
                    }))
                    &&& ev.path.deep_view() == (if spec_token_is_close(token@) && old(
                        self,
                    ).path@.len() > 0 {
                        old(self).path@.drop_last()
                    } else {
                        old(self).path@
                    })
                    &&& (old(self).depth_matches() ==> final(self).depth_matches())
                    &&& (old(self).depth_matches() && spec_token_is_close(token@)
                        ==> ev.path.deep_view().len() == spec_validator_depth(
                        final(self).validator@,
                    ))
                    &&& (stepped.0.current_context == Some(ValidationContext::ObjectEntryKey)
                        && token@ is String ==> vstd::utf8::valid_utf8(token@->String_0))
                },
                Err(e) => match e {
                    DriverError::Validation(ve) => {
                        &&& final(self).validator@ == old(self).validator@
                        &&& final(self).path@ == old(self).path@
                        &&& spec_process_token(old(self).validator@, token@).1 == Err::<
                            ValidationState,
                            crate::validator::ValidationError,
                        >(ve)
                    },
                    DriverError::InvalidString => {
                        // the token was accepted as an object key, but its
                        // bytes are not text: the validator has advanced,
                        // the path keeps its stale key, depth still matches
                        let stepped = spec_process_token(old(self).validator@, token@);
                        &&& stepped.1 is Ok
                        &&& stepped.0.current_context == Some(ValidationContext::ObjectEntryKey)
                        &&& token@ is String
                        &&& !vstd::utf8::valid_utf8(token@->String_0)
                        &&& final(self).validator@ == stepped.0
                        &&& final(self).path@ == old(self).path@
                        &&& (old(self).depth_matches() ==> final(self).depth_matches())
                    },
                    _ => false,
                },
            },
    {
        let state = match self.validator.process_token(token) {
            Ok(st) => st,
            Err(e) => {
                return Err(DriverError::Validation(e));
            }
        };
        let current_context = self.validator.current_context();
        let is_object_key = matches!(current_context, Some(ValidationContext::ObjectEntryKey));
        let token_is_start = token.is_value_start();
        let token_is_close = token.is_close();
        let is_start_of_value = token_is_start && !is_object_key;
        let is_end_of_value = {
            let is_context_in_value = match current_context {
                None => true,
                Some(context) => context.in_value(),
            };
            (token_is_close || token_is_start) && is_context_in_value
        };
        // popped before the postorder visit, so the handler sees the
        // parent's path and can still read the final index or key
        let container_last_segment = if token_is_close {
            self.path.pop()
        } else {
            None
        };
        let event_path = clone_segments(self.path.segments());
        let ghost popped = self.path@;
        match current_context {
            Some(ValidationContext::ObjectStart) => {
                self.path.push(JsonPathSegment::Key(Cow::Owned(String::new())));
            }
            Some(ValidationContext::ObjectEntryKey) => {
                let key: String = match token.as_string() {
                    Some(text) => text.to_owned(),
                    None => {
                        return Err(DriverError::InvalidString);
                    }
                };
                match self.path.pop() {
                    Some(seg) => {
                        match seg {
                            JsonPathSegment::Key(_) => {
                                self.path.push(JsonPathSegment::Key(Cow::Owned(key)));
                                proof {
                                    assert(self.path@ =~= popped.update(
                                        popped.len() - 1,
                                        self.path@.last(),
                                    ));
                                }
                            }
                            other => {
                                self.path.push(other);
                                proof {
                                    assert(self.path@ =~= popped);
                                }
                            }
                        }
                    }
                    None => {}
                }
            }
            Some(ValidationContext::ArrayStart) => {
                self.path.push(JsonPathSegment::Index(0));
            }
            Some(ValidationContext::ArrayValue) => {
                match self.path.pop() {
                    Some(seg) => {
                        match seg {
                            JsonPathSegment::Index(n) => {
                                let next = if n < usize::MAX {
                                    n + 1
                                } else {
                                    n
                                };
                                self.path.push(JsonPathSegment::Index(next));
                                proof {
                                    assert(self.path@ =~= popped.update(
                                        popped.len() - 1,
                                        self.path@.last(),
                                    ));
                                }
                            }
                            other => {
                                self.path.push(other);
                                proof {
                                    assert(self.path@ =~= popped);
                                }
                            }
                        }
                    }
                    None => {}
                }
            }
            _ => {}
        }
        Ok(
            VisitorEvent {
                path: event_path,
                token: token.clone().into_owned(),
                state,
                is_start_of_value,
                is_end_of_value,
                is_object_key,
                container_last_segment,
            },
        )
    }
}

/// The outcome of visiting a whole input: tokenize to the end, feed the
/// validator every non-whitespace token, and convert each accepted object
/// key to text.
pub enum VisitScan {
    /// Every token was accepted: the non-whitespace tokens in order, and
    /// the validator's final state.
    Visited { tokens: Seq<TokenModel>, m: crate::validator::ValidatorModel },
    /// Tokenization failed first.
    TokenErr(crate::tokenizer::TokenizeErrorModel),
    /// The grammar rejected a token.
    GrammarErr(crate::validator::ValidationError),
    /// An accepted object key's bytes are not valid UTF-8.
    KeyErr,
}

/// The visit scan over `src[i..]` from validator state `m`, with `acc`
/// the non-whitespace tokens already fed.
pub open spec fn spec_scan_visit(
    src: Seq<u8>,
    i: int,
    m: crate::validator::ValidatorModel,
    acc: Seq<TokenModel>,
    mode: CompressMode,
) -> VisitScan
    decreases src.len() - i,
{
    if i < 0 || i >= src.len() {
        VisitScan::Visited { tokens: acc, m }
    } else {
        match crate::tokenizer::spec_next_token(src, i, mode) {
            Err(e) => VisitScan::TokenErr(e),
            Ok(p) => if !(i < p.1 <= src.len()) {
                VisitScan::Visited { tokens: acc, m }
            } else if spec_token_is_whitespace(p.0) {
                spec_scan_visit(src, p.1, m, acc, mode)
            } else {
                let stepped = spec_process_token(m, p.0);
                match stepped.1 {
                    Err(e) => VisitScan::GrammarErr(e),
                    Ok(st) => if stepped.0.current_context == Some(
                        ValidationContext::ObjectEntryKey,
                    ) && p.0 is String && !vstd::utf8::valid_utf8(p.0->String_0) {
                        VisitScan::KeyErr
                    } else {
                        spec_scan_visit(src, p.1, stepped.0, acc.push(p.0), mode)
                    },
                }
            },
        }
    }
}

/// The path after the visitor has processed a token sequence: the path
/// updates folded over the tokens, each with the context its token led to.
pub open spec fn spec_path_after(ts: Seq<TokenModel>) -> Seq<PathSegModel>
    decreases ts.len(),
{
    if ts.len() == 0 {
        Seq::empty()
    } else {
        spec_path_update(
            spec_path_after(ts.drop_last()),
            ts.last(),
            crate::validator::spec_run_validator(
                crate::validator::spec_initial_validator(),
                ts,
            ).current_context,
        )
    }
}

/// The path the event for token `i` carries: the path standing before the
/// token, already popped when the token closes a container.
pub open spec fn spec_event_path(ts: Seq<TokenModel>, i: int) -> Seq<PathSegModel>
    recommends
        0 <= i < ts.len(),
{
    let before = spec_path_after(ts.take(i));
    if spec_token_is_close(ts[i]) && before.len() > 0 {
        before.drop_last()
    } else {
        before
    }
}

/// Appending a token does not change the paths of earlier events.
proof fn lemma_event_path_push(ts: Seq<TokenModel>, t: TokenModel)
    ensures
        forall|i: int| 0 <= i < ts.len() ==> spec_event_path(ts.push(t), i) == spec_event_path(
            ts,
            i,
        ),
{
    assert forall|i: int| 0 <= i < ts.len() implies spec_event_path(ts.push(t), i)
        == spec_event_path(ts, i) by {
        assert(ts.push(t).take(i) =~= ts.take(i));
        assert(ts.push(t)[i] == ts[i]);
    }
}

/// Visits a whole in-memory document: tokenizes it, validates it, and
/// collects the visitor events of every non-whitespace token.
///
/// The contract follows `spec_scan_visit` case by case: on success the
/// events carry exactly the input's non-whitespace tokens in order, each
/// at the path `spec_event_path` assigns it, and every error is the one
/// the scan names.
pub fn visit_slice(input: &[u8], mode: CompressMode) -> (r: Result<Vec<VisitorEvent>, DriverError>)
    ensures
        ({
            let scan = spec_scan_visit(
                input@,
                0,
                crate::validator::spec_initial_validator(),
                Seq::empty(),
                mode,
            );
            match scan {
                VisitScan::Visited { tokens, m } => if spec_validator_done(m) {
                    &&& r matches Ok(events)
                    &&& events@.len() == tokens.len()
                    &&& (forall|i: int| 0 <= i < tokens.len() ==> events@[i].token@ == tokens[i])
                    &&& (forall|i: int|
                        0 <= i < tokens.len() ==> events@[i].path.deep_view() == spec_event_path(
                            tokens,
                            i,
                        ))
                    &&& spec_run_validator_ok(spec_initial_validator(), tokens)
                } else {
                    r == Err::<Vec<VisitorEvent>, DriverError>(
                        DriverError::Validation(
                            crate::validator::ValidationError::UnexpectedEndOfInput,
                        ),
                    )
                },
                VisitScan::TokenErr(e) => (r matches Err(err) && err
                    matches DriverError::Tokenize(te) && te@ == e),
                VisitScan::GrammarErr(e) => r == Err::<Vec<VisitorEvent>, DriverError>(
                    DriverError::Validation(e),
                ),
                VisitScan::KeyErr => r == Err::<Vec<VisitorEvent>, DriverError>(
                    DriverError::InvalidString,
                ),
            }
        }),
{
    let ghost whole = spec_scan_visit(
        input@,
        0,
        crate::validator::spec_initial_validator(),
        Seq::empty(),
        mode,
    );
    let mut visitor = Visitor::new();
    let mut events: Vec<VisitorEvent> = Vec::new();
    let mut s = ByteSection::new(input);
    let ghost mut ts: Seq<TokenModel> = Seq::empty();
    proof {
        assert(visitor.path@ =~= spec_path_after(ts));
    }
    loop
        invariant_except_break
            spec_scan_visit(input@, s.n as int, visitor.validator@, ts, mode) == whole,
        invariant
            s.wf(),
            s.src@ == input@,
            whole == spec_scan_visit(
                input@,
                0,
                crate::validator::spec_initial_validator(),
                Seq::empty(),
                mode,
            ),
            visitor.depth_matches(),
            visitor.validator@ == spec_run_validator(spec_initial_validator(), ts),
            spec_run_validator_ok(spec_initial_validator(), ts),
            visitor.path@ == spec_path_after(ts),
            ts.len() == events@.len(),
            forall|i: int| 0 <= i < ts.len() ==> events@[i].token@ == ts[i],
            forall|i: int|
                0 <= i < ts.len() ==> events@[i].path.deep_view() == spec_event_path(ts, i),
            forall|i: int| 0 <= i < ts.len() ==> !spec_token_is_whitespace(ts[i]),
        ensures
            visitor.validator@ == spec_run_validator(spec_initial_validator(), ts),
            spec_run_validator_ok(spec_initial_validator(), ts),
            ts.len() == events@.len(),
            forall|i: int| 0 <= i < ts.len() ==> events@[i].token@ == ts[i],
            forall|i: int|
                0 <= i < ts.len() ==> events@[i].path.deep_view() == spec_event_path(ts, i),
            whole == (VisitScan::Visited { tokens: ts, m: visitor.validator@ }),
        decreases s.src@.len() - s.n,
    {
        if s.is_empty() {
            break ;
        }
        let ghost pos = s.n as int;
        match crate::tokenizer::compress_next_token(&mut s, mode) {
            Ok(tok) => {
                proof {
                    crate::tokenizer::lemma_next_token_advances(input@, pos, mode);
                }
                if tok.is_whitespace() {
                    continue ;
                }
                match visitor.step(&tok) {
                    Ok(ev) => {
                        let ghost pre_ts = ts;
                        let ghost pre_events = events@;
                        proof {
                            crate::validator::lemma_run_validator_push(
                                spec_initial_validator(),
                                ts,
                                tok@,
                            );
                            lemma_event_path_push(ts, tok@);
                            assert(ts.push(tok@).drop_last() == ts);
                            assert(ts.push(tok@).last() == tok@);
                            assert(ts.push(tok@).take(ts.len() as int) =~= ts);
                            ts = ts.push(tok@);
                        }
                        events.push(ev);
                        proof {
                            let k = ts.len() - 1;
                            assert(ts.take(k) =~= ts.drop_last());
                            assert(spec_path_after(ts.take(k)) == spec_path_after(
                                ts.drop_last(),
                            ));
                            assert(events@[k].path.deep_view() == spec_event_path(ts, k));
                            assert forall|i: int|
                                0 <= i < ts.len() implies events@[i].path.deep_view()
                                == spec_event_path(ts, i) by {
                                if i < k {
                                    assert(events@[i] == pre_events[i]);
                                    assert(pre_events[i].path.deep_view() == spec_event_path(
                                        pre_ts,
                                        i,
                                    ));
                                    assert(spec_event_path(ts, i) == spec_event_path(pre_ts, i));
                                }
                            }
                        }
                    }
                    Err(e) => {
                        return Err(e);
                    }
                }
            }
            Err(e) => {
                return Err(DriverError::Tokenize(e));
            }
        }
    }
    match visitor.validator.finish() {
        Ok(_) => Ok(events),
        Err(e) => Err(DriverError::Validation(e)),
    }
}

} // verus!
