//! The chunked driver: the loop that owns a refillable fixed-size buffer,
//! drives the cursor, tokenizer and validator over it, recovers from
//! mid-token window boundaries, and emits tokens, printed bytes and
//! document-completion offsets.
//!
//! `tokenize_slice` is the one-shot reference: tokenizing a whole slice in
//! memory, proved equal to `spec_tokens`.  `run_chunked` processes the
//! same stream through a window of any size, refilling it by `renew`
//! exactly as the recovery metadata of the tokenizer prescribes: a
//! document that fits the window yields exactly the one-shot tokens, and
//! with compression off the printed bytes always reproduce the input.

use crate::section::ByteSection;
use crate::tokenizer::{
    lemma_next_token_advances, spec_next_token, spec_print_token, spec_tokenize_err, spec_tokens,
    CompressMode, Token, TokenContext, TokenModel, TokenizeError, TokenizeErrorModel,
};
use crate::validator::{
    lemma_run_validator_push, spec_initial_validator, spec_process_token, spec_run_validator,
    spec_run_validator_ok, spec_validator_done, ValidationContext, ValidationError,
    ValidationState, Validator, ValidatorModel,
};
use std::borrow::Cow;
use vstd::prelude::*;

verus! {

/// The bytes that printing a token sequence produces.
pub open spec fn spec_print_tokens(ts: Seq<TokenModel>) -> Seq<u8>
    decreases ts.len(),
{
    if ts.len() == 0 {
        Seq::empty()
    } else {
        spec_print_token(ts[0]) + spec_print_tokens(ts.drop_first())
    }
}

pub proof fn lemma_print_tokens_push(ts: Seq<TokenModel>, t: TokenModel)
    ensures
        spec_print_tokens(ts.push(t)) == spec_print_tokens(ts) + spec_print_token(t),
    decreases ts.len(),
{
    reveal_with_fuel(spec_print_tokens, 3);
    if ts.len() == 0 {
        assert(ts.push(t).drop_first() == ts);
        assert(ts.push(t)[0] == t);
        assert(spec_print_tokens(ts) + spec_print_token(t) =~= spec_print_token(t)
            + Seq::empty());
        assert(spec_print_token(t) + Seq::<u8>::empty() =~= spec_print_token(t));
    } else {
        assert(ts.push(t)[0] == ts[0]);
        assert(ts.push(t).drop_first() == ts.drop_first().push(t));
        lemma_print_tokens_push(ts.drop_first(), t);
        assert(spec_print_token(ts[0]) + (spec_print_tokens(ts.drop_first()) + spec_print_token(
            t,
        )) =~= (spec_print_token(ts[0]) + spec_print_tokens(ts.drop_first())) + spec_print_token(
            t,
        ));
    }
}

/// Prints every token in order, appending to `writer`.
pub fn print_tokens(tokens: &Vec<Token<'_>>, writer: &mut Vec<u8>)
    ensures
        final(writer)@ == old(writer)@ + spec_print_tokens(tokens.deep_view()),
{
    let ghost ts = tokens.deep_view();
    let mut i: usize = 0;
    proof {
        assert(ts.take(0) =~= Seq::<TokenModel>::empty());
        assert(old(writer)@ + spec_print_tokens(ts.take(0)) =~= old(writer)@);
    }
    while i < tokens.len()
        invariant
            i <= tokens.len(),
            ts == tokens.deep_view(),
            writer@ == old(writer)@ + spec_print_tokens(ts.take(i as int)),
        decreases tokens.len() - i,
    {
        tokens[i].print(writer);
        proof {
            assert(ts.take(i + 1) == ts.take(i as int).push(ts[i as int]));
            lemma_print_tokens_push(ts.take(i as int), ts[i as int]);
        }
        i = i + 1;
    }
    proof {
        assert(ts.take(tokens.len() as int) =~= ts);
    }
}

/// Tokenizes a whole in-memory slice in one pass: the reference that the
/// chunked driver is measured against.  Returns every token up to the end
/// of the input, or the first tokenization error.
pub fn tokenize_slice<'a>(input: &'a [u8], mode: CompressMode) -> (r: Result<
    Vec<Token<'a>>,
    TokenizeError,
>)
    ensures
        match r {
            Ok(ts) => ts.deep_view() == spec_tokens(input@, 0, mode) && spec_tokenize_err(
                input@,
                0,
                mode,
            ) is None,
            Err(e) => spec_tokenize_err(input@, 0, mode) == Some(e@),
        },
{
    let mut s = ByteSection::new(input);
    let mut tokens: Vec<Token<'a>> = Vec::new();
    proof {
        assert(tokens.deep_view() =~= Seq::<TokenModel>::empty());
    }
    loop
        invariant
            s.wf(),
            s.src@ == input@,
            spec_tokens(input@, 0, mode) == tokens.deep_view() + spec_tokens(
                input@,
                s.n as int,
                mode,
            ),
            spec_tokenize_err(input@, 0, mode) == spec_tokenize_err(input@, s.n as int, mode),
        ensures
            s.wf(),
            spec_tokens(input@, 0, mode) == tokens.deep_view() + spec_tokens(
                input@,
                s.n as int,
                mode,
            ),
            spec_tokenize_err(input@, 0, mode) == spec_tokenize_err(input@, s.n as int, mode),
            s.n == input@.len(),
        decreases input@.len() - s.n,
    {
        if s.is_empty() {
            break ;
        }
        let ghost pos = s.n as int;
        let ghost pre_tokens = tokens.deep_view();
        match crate::tokenizer::compress_next_token(&mut s, mode) {
            Ok(tok) => {
                proof {
                    lemma_next_token_advances(input@, pos, mode);
                }
                tokens.push(tok);
                proof {
                    assert(tokens.deep_view() =~= pre_tokens.push(tokens.deep_view().last()));
                    assert(spec_tokens(input@, pos, mode) == seq![tokens.deep_view().last()]
                        + spec_tokens(input@, s.n as int, mode));
                    assert(pre_tokens + spec_tokens(input@, pos, mode) =~= tokens.deep_view()
                        + spec_tokens(input@, s.n as int, mode));
                }
            }
            Err(e) => {
                proof {
                    assert(spec_tokens(input@, pos, mode) =~= Seq::<TokenModel>::empty());
                    assert(tokens.deep_view() + spec_tokens(input@, pos, mode)
                        =~= tokens.deep_view());
                }
                return Err(e);
            }
        }
    }
    proof {
        assert(spec_tokens(input@, s.n as int, mode) =~= Seq::<TokenModel>::empty());
        assert(tokens.deep_view() + spec_tokens(input@, s.n as int, mode) =~= tokens.deep_view());
    }
    Ok(tokens)
}

/// An in-memory byte stream: the remaining input is `data[pos..]`.
pub struct ByteReader<'a> {
    pub data: &'a [u8],
    pub pos: usize,
}

impl<'a> ByteReader<'a> {
    pub open spec fn wf(&self) -> bool {
        self.pos <= self.data@.len()
    }

    pub fn new(data: &'a [u8]) -> (r: Self)
        ensures
            r.wf(),
            r.data@ == data@,
            r.pos == 0,
    {
        ByteReader { data, pos: 0 }
    }

    /// Reads as many bytes as fit into `buf[start..]`, like one `read`
    /// call on a stream that always fills the given space when it can.
    /// Returns how many bytes were read; 0 exactly at the end of input
    /// (or into no space).
    pub fn read_into(&mut self, buf: &mut Vec<u8>, start: usize) -> (k: usize)
        requires
            old(self).wf(),
            start <= old(buf).len(),
        ensures
            final(self).wf(),
            final(self).data@ == old(self).data@,
            k == vstd::math::min((old(buf)@.len() - start) as int, (old(self).data@.len() - old(
                self,
            ).pos) as int),
            final(self).pos == old(self).pos + k,
            final(buf)@.len() == old(buf)@.len(),
            final(buf)@ == old(buf)@.take(start as int) + old(self).data@.subrange(
                old(self).pos as int,
                old(self).pos + k,
            ) + old(buf)@.skip(start + k),
    {
        let space = buf.len() - start;
        let avail = self.data.len() - self.pos;
        let k = if space <= avail {
            space
        } else {
            avail
        };
        let mut i: usize = 0;
        while i < k
            invariant
                self.wf(),
                self.data@ == old(self).data@,
                self.pos == old(self).pos,
                i <= k,
                start + k <= buf.len(),
                self.pos + k <= self.data@.len(),
                self.data@.len() <= usize::MAX,
                buf@.len() == old(buf)@.len(),
                buf@ =~= old(buf)@.take(start as int) + old(self).data@.subrange(
                    old(self).pos as int,
                    old(self).pos + i,
                ) + old(buf)@.skip(start + i as int),
            decreases k - i,
        {
            let b = self.data[self.pos + i];
            buf[start + i] = b;
            i = i + 1;
            proof {
                assert(buf@ =~= old(buf)@.take(start as int) + old(self).data@.subrange(
                    old(self).pos as int,
                    old(self).pos + i,
                ) + old(buf)@.skip(start + i as int));
            }
        }
        self.pos = self.pos + k;
        k
    }
}

/// A fixed-size window over a byte stream, refilled by `renew`.
pub struct ChunkedDriver<'a> {
    pub reader: ByteReader<'a>,
    pub buffer: Vec<u8>,
    pub section_size: usize,
}

impl<'a> ChunkedDriver<'a> {
    pub open spec fn wf(&self) -> bool {
        &&& self.reader.wf()
        &&& self.section_size <= self.buffer@.len()
        &&& self.section_size <= self.reader.pos
        &&& self.buffer@.len() >= 1
    }

    /// The input offset of the window's first byte.
    pub open spec fn spec_base(&self) -> int {
        self.reader.pos - self.section_size
    }

    /// The window holds exactly the input bytes it was filled from.
    pub open spec fn window_matches(&self) -> bool {
        self.buffer@.take(self.section_size as int) == self.reader.data@.subrange(
            self.spec_base(),
            self.reader.pos as int,
        )
    }

    /// A driver over `input` with a window of `buffer_size` bytes, filled
    /// with the first read.
    pub fn init(input: &'a [u8], buffer_size: usize) -> (r: Self)
        requires
            buffer_size >= 1,
        ensures
            r.wf(),
            r.window_matches(),
            r.reader.data@ == input@,
            r.buffer@.len() == buffer_size,
            r.spec_base() == 0,
            r.section_size == vstd::math::min(buffer_size as int, input@.len() as int),
    {
        let mut buffer: Vec<u8> = Vec::new();
        let mut i: usize = 0;
        while i < buffer_size
            invariant
                i <= buffer_size,
                buffer@.len() == i,
            decreases buffer_size - i,
        {
            buffer.push(0);
            i = i + 1;
        }
        let mut reader = ByteReader::new(input);
        let section_size = reader.read_into(&mut buffer, 0);
        let r = ChunkedDriver { reader, buffer, section_size };
        proof {
            assert(r.buffer@.take(r.section_size as int) =~= r.reader.data@.subrange(
                0,
                r.section_size as int,
            ));
        }
        r
    }

    /// The refill step: keeps the bytes from `recovery_point` on, shifts
    /// them to the front of the window, and reads new bytes after them.
    /// Returns how many bytes were read; 0 exactly at the end of input
    /// when the kept bytes already fill the window.
    pub fn renew(&mut self, recovery_point: usize) -> (read: usize)
        requires
            old(self).wf(),
            old(self).window_matches(),
            recovery_point <= old(self).section_size,
        ensures
            final(self).wf(),
            final(self).window_matches(),
            final(self).reader.data@ == old(self).reader.data@,
            final(self).buffer@.len() == old(self).buffer@.len(),
            final(self).spec_base() == old(self).spec_base() + recovery_point,
            final(self).section_size == old(self).section_size - recovery_point + read,
            read == vstd::math::min(
                (old(self).buffer@.len() - (old(self).section_size - recovery_point)) as int,
                (old(self).reader.data@.len() - old(self).reader.pos) as int,
            ),
            final(self).buffer@.take((old(self).section_size - recovery_point) as int) == old(
                self,
            ).buffer@.subrange(recovery_point as int, old(self).section_size as int),
    {
        let kept = self.section_size - recovery_point;
        let mut i: usize = 0;
        while i < kept
            invariant
                i <= kept,
                recovery_point + kept <= self.section_size <= self.buffer@.len(),
                self.buffer@.len() == old(self).buffer@.len(),
                self.section_size == old(self).section_size,
                self.reader == old(self).reader,
                kept == self.section_size - recovery_point,
                forall|j: int|
                    0 <= j < i ==> self.buffer@[j] == old(self).buffer@[recovery_point + j],
                forall|j: int|
                    i <= j < self.buffer@.len() ==> self.buffer@[j] == old(self).buffer@[j],
            decreases kept - i,
        {
            let b = self.buffer[recovery_point + i];
            self.buffer[i] = b;
            i = i + 1;
        }
        let ghost shifted = self.buffer@;
        let ghost old_pos = self.reader.pos as int;
        let read = self.reader.read_into(&mut self.buffer, kept);
        self.section_size = kept + read;
        proof {
            let data = self.reader.data@;
            let base = self.reader.pos - self.section_size;
            assert forall|j: int| 0 <= j < self.section_size implies self.buffer@[j] == data[base
                + j] by {
                if j < kept {
                    assert(self.buffer@[j] == shifted[j]);
                    assert(shifted[j] == old(self).buffer@[recovery_point + j]);
                    assert(old(self).buffer@.take(old(self).section_size as int)[recovery_point
                        + j] == old(self).reader.data@.subrange(
                        old(self).spec_base(),
                        old(self).reader.pos as int,
                    )[recovery_point + j]);
                } else {
                    assert(self.buffer@[j] == data.subrange(old_pos, old_pos + read)[j - kept]);
                }
            }
            assert(self.buffer@.take(self.section_size as int) =~= data.subrange(
                base,
                self.reader.pos as int,
            ));
            assert(self.buffer@.take((old(self).section_size - recovery_point) as int)
                =~= old(self).buffer@.subrange(
                recovery_point as int,
                old(self).section_size as int,
            ));
        }
        read
    }
}

/// Grows the window (doubling it) and reads into the new space: the escape
/// hatch for a single token larger than the whole window.
impl<'a> ChunkedDriver<'a> {
    pub fn grow_and_read(&mut self) -> (read: usize)
        requires
            old(self).wf(),
            old(self).window_matches(),
        ensures
            final(self).wf(),
            final(self).window_matches(),
            final(self).reader.data@ == old(self).reader.data@,
            final(self).spec_base() == old(self).spec_base(),
            final(self).buffer@.len() == old(self).buffer@.len() * 2,
            final(self).section_size == old(self).section_size + read,
            final(self).buffer@.take(old(self).section_size as int) == old(self).buffer@.take(
                old(self).section_size as int,
            ),
            read == vstd::math::min(
                (final(self).buffer@.len() - old(self).section_size) as int,
                (old(self).reader.data@.len() - old(self).reader.pos) as int,
            ),
    {
        let extra = self.buffer.len();
        let mut i: usize = 0;
        while i < extra
            invariant
                i <= extra,
                self.buffer@.len() == old(self).buffer@.len() + i,
                self.buffer@.take(old(self).buffer@.len() as int) == old(self).buffer@,
                self.section_size == old(self).section_size,
                self.reader == old(self).reader,
                extra == old(self).buffer@.len(),
            decreases extra - i,
        {
            self.buffer.push(0);
            i = i + 1;
            proof {
                assert(self.buffer@.take(old(self).buffer@.len() as int) =~= old(self).buffer@);
            }
        }
        let read = self.reader.read_into(&mut self.buffer, self.section_size);
        let ghost old_section = old(self).section_size as int;
        self.section_size = self.section_size + read;
        proof {
            assert(self.buffer@.take(old_section) =~= old(self).buffer@.take(old_section));
            assert(self.buffer@.take(self.section_size as int) =~= self.reader.data@.subrange(
                self.reader.pos - self.section_size,
                self.reader.pos as int,
            ));
        }
        read
    }
}

/// Why the tokenizing pass over the window stopped, and what the refill
/// step must do about it.
enum WindowStop {
    /// The window was consumed cleanly: replace it wholesale.
    Exhausted,
    /// A number ended exactly at the end of the window: it may be a false
    /// positive, so it is held (owned) while the window is refilled from
    /// its first byte.
    HeldNumber(Token<'static>, usize),
    /// A string was cut by the window's end: its scanned prefix has been
    /// emitted and scanning resumes inside the string after a refill from
    /// `recovery_point`.
    InsideString(usize),
    /// Some other token was cut: refill from `recovery_point` (its first
    /// byte) and re-tokenize it whole.
    Restart(usize),
}

/// What the continuation scan of a split string found.
enum StringStop {
    /// The closing quote: the body ends at this window offset.
    Closed(usize),
    /// The window ended first: emit up to `recovery_point` and refill.
    More(usize),
}

/// Everything a full run over a byte stream produces.
#[derive(Debug)]
pub struct ChunkedOutcome {
    /// Every token, in order, owned.  A string split across refills is
    /// represented by one `String` token with an empty payload, its bytes
    /// having already gone to `printed`.
    pub tokens: Vec<Token<'static>>,
    /// The bytes of every token as printed, in order.
    pub printed: Vec<u8>,
    /// The input offsets just past each completed top-level document.
    pub completions: Vec<usize>,
}

/// What can end a run early.
#[derive(Debug, PartialEq)]
pub enum DriverError {
    Tokenize(TokenizeError),
    Validation(ValidationError),
    /// Bytes other than whitespace follow a complete document.
    ExtraInput,
    /// The input holds no token at all.
    EmptyInput,
    /// A string or object key whose bytes are not valid UTF-8 where text
    /// was required.
    InvalidString,
}

/// A slice of the window is the matching slice of the input: the window's
/// first `section` bytes are `input[base .. base + section]`.
proof fn lemma_buffer_slice(buf: Seq<u8>, section: int, input: Seq<u8>, base: int, lo: int, hi: int)
    requires
        0 <= base,
        0 <= lo <= hi <= section <= buf.len(),
        base + section <= input.len(),
        buf.take(section) == input.subrange(base, base + section),
    ensures
        buf.subrange(lo, hi) == input.subrange(base + lo, base + hi),
{
    assert forall|j: int| 0 <= j < hi - lo implies #[trigger] buf.subrange(lo, hi)[j]
        == input.subrange(base + lo, base + hi)[j] by {
        assert(buf.subrange(lo, hi)[j] == buf[lo + j]);
        assert(buf.take(section)[lo + j] == buf[lo + j]);
        assert(buf.take(section)[lo + j] == input.subrange(base, base + section)[lo + j]);
        assert(input.subrange(base, base + section)[lo + j] == input[base + lo + j]);
        assert(input.subrange(base + lo, base + hi)[j] == input[base + lo + j]);
    }
    assert(buf.subrange(lo, hi) =~= input.subrange(base + lo, base + hi));
}

/// One token moves the accumulated prefix forward by one.
proof fn lemma_tokens_prefix_step(
    input: Seq<u8>,
    mode: CompressMode,
    pre: Seq<TokenModel>,
    spos: int,
    end: int,
    t: TokenModel,
)
    requires
        0 <= spos < input.len(),
        spec_next_token(input, spos, mode) == Ok::<(TokenModel, int), TokenizeErrorModel>(
            (t, end),
        ),
        pre + spec_tokens(input, spos, mode) == spec_tokens(input, 0, mode),
        spec_tokenize_err(input, spos, mode) == spec_tokenize_err(input, 0, mode),
    ensures
        pre.push(t) + spec_tokens(input, end, mode) == spec_tokens(input, 0, mode),
        spec_tokenize_err(input, end, mode) == spec_tokenize_err(input, 0, mode),
        spos < end <= input.len(),
{
    lemma_next_token_advances(input, spos, mode);
    assert(spec_tokens(input, spos, mode) == seq![t] + spec_tokens(input, end, mode));
    assert(pre + (seq![t] + spec_tokens(input, end, mode)) =~= pre.push(t) + spec_tokens(
        input,
        end,
        mode,
    ));
}

/// At the end of the input nothing is left to tokenize: the accumulated
/// prefix is the whole tokenization, and it was error-free.
proof fn lemma_tokens_prefix_done(
    input: Seq<u8>,
    mode: CompressMode,
    pre: Seq<TokenModel>,
    spos: int,
)
    requires
        spos >= input.len(),
        pre + spec_tokens(input, spos, mode) == spec_tokens(input, 0, mode),
        spec_tokenize_err(input, spos, mode) == spec_tokenize_err(input, 0, mode),
    ensures
        pre == spec_tokens(input, 0, mode),
        spec_tokenize_err(input, 0, mode) is None,
{
    assert(spec_tokens(input, spos, mode) =~= Seq::<TokenModel>::empty());
    assert(pre + spec_tokens(input, spos, mode) =~= pre);
}

/// Appends `buffer[from..to]` to `printed`.
fn append_bytes(printed: &mut Vec<u8>, buffer: &Vec<u8>, from: usize, to: usize)
    requires
        from <= to <= buffer@.len(),
    ensures
        final(printed)@ == old(printed)@ + buffer@.subrange(from as int, to as int),
{
    let mut i: usize = from;
    proof {
        assert(printed@ + buffer@.subrange(from as int, from as int) =~= printed@);
    }
    while i < to
        invariant
            from <= i <= to <= buffer@.len(),
            printed@ == old(printed)@ + buffer@.subrange(from as int, i as int),
        decreases to - i,
    {
        printed.push(buffer[i]);
        i = i + 1;
        proof {
            assert(printed@ =~= old(printed)@ + buffer@.subrange(from as int, i as int));
        }
    }
}


/// Whether a token sequence holds at least one non-whitespace token.
pub open spec fn spec_has_nonws(ts: Seq<TokenModel>) -> bool {
    exists|i: int|
        0 <= i < ts.len() && !crate::tokenizer::spec_token_is_whitespace(#[trigger] ts[i])
}

proof fn lemma_has_nonws_push(ts: Seq<TokenModel>, t: TokenModel)
    ensures
        spec_has_nonws(ts.push(t)) == (spec_has_nonws(ts)
            || !crate::tokenizer::spec_token_is_whitespace(t)),
{
    if spec_has_nonws(ts) {
        let i = choose|i: int|
            0 <= i < ts.len() && !crate::tokenizer::spec_token_is_whitespace(#[trigger] ts[i]);
        assert(ts.push(t)[i] == ts[i]);
        assert(spec_has_nonws(ts.push(t)));
    }
    if !crate::tokenizer::spec_token_is_whitespace(t) {
        assert(ts.push(t)[ts.len() as int] == t);
        assert(spec_has_nonws(ts.push(t)));
    }
    if spec_has_nonws(ts.push(t)) && crate::tokenizer::spec_token_is_whitespace(t) {
        let i = choose|i: int|
            0 <= i < ts.push(t).len() && !crate::tokenizer::spec_token_is_whitespace(
                #[trigger] ts.push(t)[i],
            );
        if i < ts.len() {
            assert(ts.push(t)[i] == ts[i]);
            assert(spec_has_nonws(ts));
        } else {
            assert(ts.push(t)[i] == t);
        }
    }
}

/// The input offsets just past each token at which the validator, running
/// from state `m` over the tokens of `src[i..]`, reports a completed
/// top-level document.
pub open spec fn spec_completions(
    src: Seq<u8>,
    i: int,
    m: ValidatorModel,
    mode: CompressMode,
) -> Seq<int>
    decreases src.len() - i,
{
    if i < 0 || i >= src.len() {
        Seq::empty()
    } else {
        match spec_next_token(src, i, mode) {
            Ok(p) => {
                let stepped = spec_process_token(m, p.0);
                let here = if stepped.1 == Ok::<ValidationState, ValidationError>(
                    ValidationState::Complete,
                ) {
                    seq![p.1]
                } else {
                    Seq::<int>::empty()
                };
                if i < p.1 <= src.len() {
                    here + spec_completions(src, p.1, stepped.0, mode)
                } else {
                    here
                }
            },
            Err(_) => Seq::empty(),
        }
    }
}

/// One token moves the accumulated completion offsets forward by one
/// step, collecting the token's end offset when it completes a document.
proof fn lemma_completions_prefix_step(
    input: Seq<u8>,
    mode: CompressMode,
    m: ValidatorModel,
    pre: Seq<int>,
    spos: int,
    end: int,
    t: TokenModel,
)
    requires
        0 <= spos < input.len(),
        spec_next_token(input, spos, mode) == Ok::<(TokenModel, int), TokenizeErrorModel>(
            (t, end),
        ),
        pre + spec_completions(input, spos, m, mode) == spec_completions(
            input,
            0,
            spec_initial_validator(),
            mode,
        ),
    ensures
        ({
            let stepped = spec_process_token(m, t);
            let pre2 = if stepped.1 == Ok::<ValidationState, ValidationError>(
                ValidationState::Complete,
            ) {
                pre.push(end)
            } else {
                pre
            };
            pre2 + spec_completions(input, end, stepped.0, mode) == spec_completions(
                input,
                0,
                spec_initial_validator(),
                mode,
            )
        }),
{
    lemma_next_token_advances(input, spos, mode);
    let stepped = spec_process_token(m, t);
    let rest = spec_completions(input, end, stepped.0, mode);
    if stepped.1 == Ok::<ValidationState, ValidationError>(ValidationState::Complete) {
        assert(spec_completions(input, spos, m, mode) == seq![end] + rest);
        assert(pre + (seq![end] + rest) =~= pre.push(end) + rest);
    } else {
        assert(spec_completions(input, spos, m, mode) == Seq::<int>::empty() + rest);
        assert(pre + (Seq::<int>::empty() + rest) =~= pre + rest);
    }
}

/// At the end of the input the accumulated completion offsets are all of
/// them.
proof fn lemma_completions_prefix_done(
    input: Seq<u8>,
    mode: CompressMode,
    m: ValidatorModel,
    pre: Seq<int>,
    spos: int,
)
    requires
        spos >= input.len(),
        pre + spec_completions(input, spos, m, mode) == spec_completions(
            input,
            0,
            spec_initial_validator(),
            mode,
        ),
    ensures
        pre == spec_completions(input, 0, spec_initial_validator(), mode),
{
    assert(spec_completions(input, spos, m, mode) =~= Seq::<int>::empty());
    assert(pre + spec_completions(input, spos, m, mode) =~= pre);
}

/// If the validator accepts the whole tokenization, it accepts each next
/// token from the state the previous ones produced.
proof fn lemma_next_step_ok(
    input: Seq<u8>,
    mode: CompressMode,
    pre: Seq<TokenModel>,
    t: TokenModel,
    rest: Seq<TokenModel>,
)
    requires
        spec_tokens(input, 0, mode) == pre + (seq![t] + rest),
        spec_run_validator_ok(spec_initial_validator(), spec_tokens(input, 0, mode)),
    ensures
        spec_process_token(spec_run_validator(spec_initial_validator(), pre), t).1 is Ok,
{
    crate::validator::lemma_run_validator_append(spec_initial_validator(), pre, seq![t] + rest);
    let mid = spec_run_validator(spec_initial_validator(), pre);
    crate::validator::lemma_run_validator_append(mid, seq![t], rest);
    crate::validator::lemma_run_validator_one(mid, t);
}

/// Drives the tokenizer and validator over the whole stream through a
/// window of `buffer_size` bytes, refilling and recovering as the
/// tokenizer's recovery metadata prescribes.  Yields every token, the
/// printed bytes, and the offset just past each completed document.
///
/// The token sequence is always one the validator accepts, ending with
/// nothing open.  A stream that fits the window yields exactly its
/// one-shot tokenization, and with compression off the printed bytes
/// reproduce the input byte for byte whatever the window size.
#[verifier::rlimit(100)]
pub fn run_chunked(input: &[u8], buffer_size: usize, mode: CompressMode) -> (r: Result<
    ChunkedOutcome,
    DriverError,
>)
    requires
        buffer_size >= 1,
    ensures
        match r {
            Ok(out) => spec_run_validator_ok(spec_initial_validator(), out.tokens.deep_view())
                && spec_validator_done(
                spec_run_validator(spec_initial_validator(), out.tokens.deep_view()),
            ) && spec_has_nonws(out.tokens.deep_view()) && (input@.len() <= buffer_size
                ==> out.tokens.deep_view() == spec_tokens(input@, 0, mode) && spec_tokenize_err(
                input@,
                0,
                mode,
            ) is None && out.printed@ == spec_print_tokens(out.tokens.deep_view())
                && out.completions@.map_values(|x: usize| x as int) == spec_completions(
                input@,
                0,
                spec_initial_validator(),
                mode,
            )) && (mode == CompressMode::Off ==> out.printed@ == input@),
            Err(_) => true,
        },
        (input@.len() <= buffer_size && spec_tokenize_err(input@, 0, mode) is None
            && spec_run_validator_ok(spec_initial_validator(), spec_tokens(input@, 0, mode))
            && spec_validator_done(
            spec_run_validator(spec_initial_validator(), spec_tokens(input@, 0, mode)),
        ) && spec_has_nonws(spec_tokens(input@, 0, mode)) ==> r is Ok),
{
    let ghost fits = input@.len() <= buffer_size;
    let ghost off = mode == CompressMode::Off;
    let mut driver = ChunkedDriver::init(input, buffer_size);
    let mut validator = Validator::new();
    let mut tokens: Vec<Token<'static>> = Vec::new();
    let mut printed: Vec<u8> = Vec::new();
    let mut completions: Vec<usize> = Vec::new();
    let mut had_tokens = false;
    let mut cont: usize = 0;
    proof {
        assert(tokens.deep_view() =~= Seq::<TokenModel>::empty());
        assert(validator@.stack =~= Seq::<ValidationContext>::empty());
        assert(validator@ == spec_initial_validator());
        assert(printed@ =~= spec_print_tokens(tokens.deep_view()));
        assert(printed@ =~= input@.subrange(0, 0));
        assert(!spec_has_nonws(tokens.deep_view()));
        assert(completions@.map_values(|x: usize| x as int) =~= Seq::<int>::empty());
        assert(completions@.map_values(|x: usize| x as int) + spec_completions(
            input@,
            0,
            spec_initial_validator(),
            mode,
        ) =~= spec_completions(input@, 0, spec_initial_validator(), mode));
    }
    loop
        invariant_except_break
            cont <= driver.section_size,
            fits ==> {
                &&& driver.spec_base() == 0
                &&& driver.section_size == input@.len()
                &&& driver.reader.pos == input@.len()
                &&& tokens.deep_view() + spec_tokens(input@, cont as int, mode) == spec_tokens(
                    input@,
                    0,
                    mode,
                )
                &&& spec_tokenize_err(input@, cont as int, mode) == spec_tokenize_err(
                    input@,
                    0,
                    mode,
                )
                &&& printed@ == spec_print_tokens(tokens.deep_view())
                &&& completions@.map_values(|x: usize| x as int) + spec_completions(
                    input@,
                    cont as int,
                    validator@,
                    mode,
                ) == spec_completions(input@, 0, spec_initial_validator(), mode)
            },
            off ==> printed@ == input@.subrange(0, driver.spec_base() + cont),
        invariant
            driver.wf(),
            driver.window_matches(),
            driver.reader.data@ == input@,
            off == (mode == CompressMode::Off),
            fits == (input@.len() <= buffer_size),
            validator@ == spec_run_validator(spec_initial_validator(), tokens.deep_view()),
            spec_run_validator_ok(spec_initial_validator(), tokens.deep_view()),
            had_tokens == spec_has_nonws(tokens.deep_view()),
        ensures
            validator@ == spec_run_validator(spec_initial_validator(), tokens.deep_view()),
            spec_run_validator_ok(spec_initial_validator(), tokens.deep_view()),
            had_tokens == spec_has_nonws(tokens.deep_view()),
            fits ==> tokens.deep_view() == spec_tokens(input@, 0, mode) && spec_tokenize_err(
                input@,
                0,
                mode,
            ) is None && printed@ == spec_print_tokens(tokens.deep_view())
                && completions@.map_values(|x: usize| x as int) == spec_completions(
                input@,
                0,
                spec_initial_validator(),
                mode,
            ),
            off ==> printed@ == input@,
        decreases driver.reader.data@.len() - driver.reader.pos,
    {
        let stop: WindowStop;
        {
            let window = vstd::slice::slice_subrange(
                window_slice(&driver.buffer),
                0,
                driver.section_size,
            );
            let ghost driver_snap = driver;
            proof {
                assert(window@ =~= input@.subrange(
                    driver.spec_base(),
                    driver.spec_base() + driver.section_size,
                ));
                if fits {
                    assert(window@ =~= input@);
                }
            }
            let mut s = ByteSection { n: cont, src: window };
            loop
                invariant_except_break
                    fits ==> {
                        &&& tokens.deep_view() + spec_tokens(input@, s.n as int, mode)
                            == spec_tokens(input@, 0, mode)
                        &&& spec_tokenize_err(input@, s.n as int, mode) == spec_tokenize_err(
                            input@,
                            0,
                            mode,
                        )
                        &&& printed@ == spec_print_tokens(tokens.deep_view())
                        &&& completions@.map_values(|x: usize| x as int) + spec_completions(
                            input@,
                            s.n as int,
                            validator@,
                            mode,
                        ) == spec_completions(input@, 0, spec_initial_validator(), mode)
                    },
                    off ==> printed@ == input@.subrange(0, driver.spec_base() + s.n),
                invariant
                    s.wf(),
                    s.src@ == window@,
                    window@.len() == driver.section_size,
                    driver == driver_snap,
                    driver.wf(),
                    validator@ == spec_run_validator(
                        spec_initial_validator(),
                        tokens.deep_view(),
                    ),
                    spec_run_validator_ok(spec_initial_validator(), tokens.deep_view()),
                    driver.reader.data@ == input@,
                    off == (mode == CompressMode::Off),
                    fits == (input@.len() <= buffer_size),
                    had_tokens == spec_has_nonws(tokens.deep_view()),
                    fits ==> window@ == input@,
                    window@ == input@.subrange(
                        driver.spec_base(),
                        driver.spec_base() + driver.section_size,
                    ),
                ensures
                    driver == driver_snap,
                    validator@ == spec_run_validator(
                        spec_initial_validator(),
                        tokens.deep_view(),
                    ),
                    spec_run_validator_ok(spec_initial_validator(), tokens.deep_view()),
                    had_tokens == spec_has_nonws(tokens.deep_view()),
                    cont <= driver.section_size,
                    match stop {
                        WindowStop::Exhausted => cont == driver.section_size,
                        WindowStop::HeldNumber(ht, ts) => ts <= driver.section_size && ht@
                            is Number,
                        WindowStop::InsideString(rp) => cont <= rp <= driver.section_size,
                        WindowStop::Restart(rp) => cont == rp && rp <= driver.section_size,
                    },
                    fits ==> match stop {
                        WindowStop::Exhausted => tokens.deep_view() == spec_tokens(
                            input@,
                            0,
                            mode,
                        ) && spec_tokenize_err(input@, 0, mode) is None && printed@
                            == spec_print_tokens(tokens.deep_view())
                            && completions@.map_values(|x: usize| x as int) == spec_completions(
                            input@,
                            0,
                            spec_initial_validator(),
                            mode,
                        ),
                        WindowStop::HeldNumber(ht, ts2) => tokens.deep_view().push(ht@)
                            == spec_tokens(input@, 0, mode) && spec_tokenize_err(
                            input@,
                            0,
                            mode,
                        ) is None && printed@ == spec_print_tokens(tokens.deep_view())
                            && !crate::tokenizer::spec_token_is_whitespace(ht@)
                            && ts2 < input@.len() && spec_next_token(input@, ts2 as int, mode)
                            == Ok::<(TokenModel, int), TokenizeErrorModel>(
                            (ht@, input@.len() as int),
                        )
                            && completions@.map_values(|x: usize| x as int) + spec_completions(
                            input@,
                            ts2 as int,
                            validator@,
                            mode,
                        ) == spec_completions(input@, 0, spec_initial_validator(), mode),
                        WindowStop::InsideString(_) => spec_tokenize_err(
                            input@,
                            0,
                            mode,
                        ) is Some,
                        WindowStop::Restart(_) => spec_tokenize_err(input@, 0, mode) is Some,
                    },
                    off ==> match stop {
                        WindowStop::Exhausted => printed@ == input@.subrange(
                            0,
                            driver.spec_base() + cont,
                        ),
                        WindowStop::HeldNumber(ht, ts2) => printed@ == input@.subrange(
                            0,
                            driver.spec_base() + ts2,
                        ) && spec_print_token(ht@) == input@.subrange(
                            driver.spec_base() + ts2,
                            driver.spec_base() + driver.section_size,
                        ),
                        WindowStop::InsideString(_) => printed@ == input@.subrange(
                            0,
                            driver.spec_base() + cont,
                        ),
                        WindowStop::Restart(_) => printed@ == input@.subrange(
                            0,
                            driver.spec_base() + cont,
                        ),
                    },
                decreases s.src@.len() - s.n,
            {
                if s.is_empty() {
                    proof {
                        if fits {
                            lemma_tokens_prefix_done(
                                input@,
                                mode,
                                tokens.deep_view(),
                                s.n as int,
                            );
                            lemma_completions_prefix_done(
                                input@,
                                mode,
                                validator@,
                                completions@.map_values(|x: usize| x as int),
                                s.n as int,
                            );
                        }
                    }
                    stop = WindowStop::Exhausted;
                    cont = s.n;
                    break ;
                }
                let token_start = s.n;
                let ghost spos = s.n as int;
                match crate::tokenizer::compress_next_token(&mut s, mode) {
                    Ok(tok) => {
                        proof {
                            crate::tokenizer::lemma_next_token_advances(window@, spos, mode);
                        }
                        if tok.potential_false_positive() && s.is_empty() {
                            proof {
                                if off {
                                    lemma_print_token_uncompressed(window@, spos);
                                    assert(spec_print_token(tok@) == window@.subrange(
                                        spos,
                                        s.n as int,
                                    ));
                                    assert(window@.take(window@.len() as int) =~= window@);
                                    lemma_buffer_slice(
                                        window@,
                                        window@.len() as int,
                                        input@,
                                        driver.spec_base(),
                                        spos,
                                        s.n as int,
                                    );
                                }
                                if fits {
                                    lemma_tokens_prefix_step(
                                        input@,
                                        mode,
                                        tokens.deep_view(),
                                        spos,
                                        s.n as int,
                                        tok@,
                                    );
                                    lemma_tokens_prefix_done(
                                        input@,
                                        mode,
                                        tokens.deep_view().push(tok@),
                                        s.n as int,
                                    );
                                    assert(s.n == input@.len());
                                    assert(spec_next_token(input@, spos, mode) == Ok::<
                                        (TokenModel, int),
                                        TokenizeErrorModel,
                                    >((tok@, input@.len() as int)));
                                }
                            }
                            stop = WindowStop::HeldNumber(tok.into_owned(), token_start);
                            cont = s.n;
                            break ;
                        }
                        let ghost pre = tokens.deep_view();
                        let ghost pre_v = validator@;
                        match validator.process_token(&tok) {
                            Ok(state) => {
                                proof {
                                    lemma_run_validator_push(
                                        spec_initial_validator(),
                                        pre,
                                        tok@,
                                    );
                                }
                                if !tok.is_whitespace() {
                                    had_tokens = true;
                                }
                                proof {
                                    if off {
                                        lemma_print_token_uncompressed(window@, spos);
                                        assert(spec_next_token(window@, spos, CompressMode::Off)
                                            == spec_next_token(window@, spos, mode));
                                        assert(spec_print_token(tok@) == window@.subrange(
                                            spos,
                                            s.n as int,
                                        ));
                                        assert(window@.take(window@.len() as int) =~= window@);
                                        lemma_buffer_slice(
                                            window@,
                                            window@.len() as int,
                                            input@,
                                            driver.spec_base(),
                                            spos,
                                            s.n as int,
                                        );
                                    }
                                }
                                tok.print(&mut printed);
                                proof {
                                    if off {
                                        assert(printed@ =~= input@.subrange(
                                            0,
                                            driver.spec_base() + s.n,
                                        ));
                                    }
                                }
                                let ghost pre_comps = completions@.map_values(
                                    |x: usize| x as int,
                                );
                                if matches!(state, ValidationState::Complete) {
                                    let offset = driver.reader.pos - driver.section_size + s.n;
                                    completions.push(offset);
                                    proof {
                                        if fits {
                                            assert(offset == s.n);
                                            assert(completions@.map_values(|x: usize| x as int)
                                                =~= pre_comps.push(offset as int));
                                        }
                                    }
                                }
                                tokens.push(tok.into_owned());
                                proof {
                                    assert(tokens.deep_view() =~= pre.push(
                                        tokens.deep_view().last(),
                                    ));
                                    lemma_has_nonws_push(pre, tokens.deep_view().last());
                                    if fits {
                                        lemma_tokens_prefix_step(
                                            input@,
                                            mode,
                                            pre,
                                            spos,
                                            s.n as int,
                                            tokens.deep_view().last(),
                                        );
                                        lemma_print_tokens_push(pre, tokens.deep_view().last());
                                        lemma_completions_prefix_step(
                                            input@,
                                            mode,
                                            pre_v,
                                            pre_comps,
                                            spos,
                                            s.n as int,
                                            tokens.deep_view().last(),
                                        );
                                    }
                                }
                            }
                            Err(e) => {
                                proof {
                                    if fits && spec_tokenize_err(input@, 0, mode) is None
                                        && spec_run_validator_ok(
                                        spec_initial_validator(),
                                        spec_tokens(input@, 0, mode),
                                    ) {
                                        assert(spec_tokens(input@, spos, mode) == seq![tok@]
                                            + spec_tokens(input@, s.n as int, mode));
                                        assert(spec_tokens(input@, 0, mode) == pre + (seq![tok@]
                                            + spec_tokens(input@, s.n as int, mode)));
                                        lemma_next_step_ok(
                                            input@,
                                            mode,
                                            pre,
                                            tok@,
                                            spec_tokens(input@, s.n as int, mode),
                                        );
                                        assert(false);
                                    }
                                }
                                return Err(DriverError::Validation(e));
                            }
                        }
                    }
                    Err(e) => {
                        proof {
                            crate::tokenizer::lemma_next_token_recovery(window@, spos, mode);
                        }
                        let rec = e.recovery_point();
                        let tstart = e.token_start();
                        match (tstart, rec) {
                            (Some(ts), Some(rp)) => {
                                proof {
                                    if fits {
                                        assert(spec_tokenize_err(input@, spos, mode) is Some);
                                    }
                                }
                                if matches!(e.context(), Some(TokenContext::String)) {
                                    // pass through the scanned prefix now;
                                    // the rest follows after the refill
                                    stop = WindowStop::InsideString(rp);
                                    cont = ts;
                                    break ;
                                } else {
                                    stop = WindowStop::Restart(rp);
                                    cont = rp;
                                    break ;
                                }
                            }
                            _ => {
                                proof {
                                    if fits {
                                        assert(spec_tokenize_err(input@, spos, mode) is Some);
                                    }
                                }
                                return Err(DriverError::Tokenize(e));
                            }
                        }
                    }
                }
            }
        }
        match stop {
            WindowStop::Exhausted => {
                let read = driver.renew(driver.section_size);
                if read == 0 {
                    proof {
                        if off {
                            assert(printed@ =~= input@);
                        }
                    }
                    break ;
                }
                cont = 0;
            }
            WindowStop::HeldNumber(tok, token_start) => {
                let mut read = driver.renew(token_start);
                if read == 0 && driver.section_size == driver.buffer.len() {
                    read = driver.grow_and_read();
                }
                if read == 0 {
                    // nothing follows: the number was the final token
                    let ghost pre = tokens.deep_view();
                    let ghost pre_v = validator@;
                    match validator.process_token(&tok) {
                        Ok(state) => {
                            proof {
                                lemma_run_validator_push(spec_initial_validator(), pre, tok@);
                            }
                            had_tokens = true;
                            tok.print(&mut printed);
                            proof {
                                if off {
                                    assert(printed@ =~= input@);
                                }
                            }
                            let ghost pre_comps = completions@.map_values(|x: usize| x as int);
                            if matches!(state, ValidationState::Complete) {
                                completions.push(driver.reader.pos);
                                proof {
                                    if fits {
                                        assert(driver.reader.pos == input@.len());
                                        assert(completions@.map_values(|x: usize| x as int)
                                            =~= pre_comps.push(driver.reader.pos as int));
                                    }
                                }
                            }
                            tokens.push(tok);
                            proof {
                                assert(tokens.deep_view() =~= pre.push(
                                    tokens.deep_view().last(),
                                ));
                                lemma_has_nonws_push(pre, tokens.deep_view().last());
                                if fits {
                                    lemma_print_tokens_push(pre, tokens.deep_view().last());
                                    lemma_completions_prefix_step(
                                        input@,
                                        mode,
                                        pre_v,
                                        pre_comps,
                                        token_start as int,
                                        input@.len() as int,
                                        tokens.deep_view().last(),
                                    );
                                    lemma_completions_prefix_done(
                                        input@,
                                        mode,
                                        validator@,
                                        completions@.map_values(|x: usize| x as int),
                                        input@.len() as int,
                                    );
                                }
                            }
                        }
                        Err(e) => {
                            proof {
                                if fits && spec_run_validator_ok(
                                    spec_initial_validator(),
                                    spec_tokens(input@, 0, mode),
                                ) {
                                    assert(pre + (seq![tok@] + Seq::<TokenModel>::empty())
                                        =~= pre.push(tok@));
                                    lemma_next_step_ok(
                                        input@,
                                        mode,
                                        pre,
                                        tok@,
                                        Seq::<TokenModel>::empty(),
                                    );
                                    assert(false);
                                }
                            }
                            return Err(DriverError::Validation(e));
                        }
                    }
                    break ;
                }
                cont = 0;
            }
            WindowStop::InsideString(recovery_point) => {
                // the prefix [cont, recovery_point) scanned so far is
                // already final: emit it before the window is overwritten
                append_bytes(&mut printed, &driver.buffer, cont, recovery_point);
                proof {
                    if off {
                        lemma_buffer_slice(
                            driver.buffer@,
                            driver.section_size as int,
                            input@,
                            driver.spec_base(),
                            cont as int,
                            recovery_point as int,
                        );
                        assert(printed@ =~= input@.subrange(
                            0,
                            driver.spec_base() + recovery_point,
                        ));
                    }
                }
                let mut read = driver.renew(recovery_point);
                if read == 0 && driver.section_size == driver.buffer.len() {
                    read = driver.grow_and_read();
                }
                if read == 0 {
                    return Err(DriverError::Tokenize(TokenizeError::UnexpectedEndOfInput));
                }
                proof {
                    if fits {
                        assert(read == 0);
                        assert(false);
                    }
                }
                cont = 0;
                let ghost pos_mark = driver.reader.pos as int;
                loop
                    invariant_except_break
                        off ==> printed@ == input@.subrange(0, driver.spec_base()),
                    invariant
                        driver.wf(),
                        driver.window_matches(),
                        driver.reader.data@ == input@,
                        driver.reader.pos >= pos_mark,
                        validator@ == spec_run_validator(
                            spec_initial_validator(),
                            tokens.deep_view(),
                        ),
                        spec_run_validator_ok(spec_initial_validator(), tokens.deep_view()),
                        off == (mode == CompressMode::Off),
                        fits == (input@.len() <= buffer_size),
                        had_tokens == spec_has_nonws(tokens.deep_view()),
                        !fits,
                    ensures
                        driver.wf(),
                        driver.window_matches(),
                        driver.reader.data@ == input@,
                        driver.reader.pos >= pos_mark,
                        cont <= driver.section_size,
                        validator@ == spec_run_validator(
                            spec_initial_validator(),
                            tokens.deep_view(),
                        ),
                        spec_run_validator_ok(spec_initial_validator(), tokens.deep_view()),
                        had_tokens == spec_has_nonws(tokens.deep_view()),
                        !fits,
                        off ==> printed@ == input@.subrange(0, driver.spec_base() + cont),
                    decreases driver.reader.data@.len() - driver.reader.pos,
                {
                    let inner_stop: StringStop;
                    {
                        let window = vstd::slice::slice_subrange(
                            window_slice(&driver.buffer),
                            0,
                            driver.section_size,
                        );
                        let mut s2 = ByteSection { n: 0, src: window };
                        match crate::tokenizer::section_inside_string(&mut s2) {
                            Ok(_) => {
                                inner_stop = StringStop::Closed(s2.n);
                            }
                            Err(e2) => {
                                proof {
                                    crate::tokenizer::lemma_scan_string_body_recovery(
                                        window@,
                                        0,
                                    );
                                }
                                match e2.recovery_point() {
                                    Some(rp2) => {
                                        inner_stop = StringStop::More(rp2);
                                    }
                                    None => {
                                        return Err(DriverError::Tokenize(e2));
                                    }
                                }
                            }
                        }
                    }
                    match inner_stop {
                        StringStop::Closed(end) => {
                            append_bytes(&mut printed, &driver.buffer, 0, end);
                            proof {
                                if off {
                                    lemma_buffer_slice(
                                        driver.buffer@,
                                        driver.section_size as int,
                                        input@,
                                        driver.spec_base(),
                                        0,
                                        end as int,
                                    );
                                    assert(printed@ =~= input@.subrange(
                                        0,
                                        driver.spec_base() + end,
                                    ));
                                }
                            }
                            cont = end;
                            // the validator still has to see the value;
                            // its bytes are already out
                            let synthetic: Token<'static> = Token::String(Cow::Owned(Vec::new()));
                            let ghost pre = tokens.deep_view();
                            match validator.process_token(&synthetic) {
                                Ok(state) => {
                                    proof {
                                        lemma_run_validator_push(
                                            spec_initial_validator(),
                                            pre,
                                            synthetic@,
                                        );
                                    }
                                    had_tokens = true;
                                    if matches!(state, ValidationState::Complete) {
                                        let offset = driver.reader.pos - driver.section_size
                                            + end;
                                        completions.push(offset);
                                    }
                                    tokens.push(synthetic);
                                    proof {
                                        assert(tokens.deep_view() =~= pre.push(
                                            tokens.deep_view().last(),
                                        ));
                                        lemma_has_nonws_push(pre, tokens.deep_view().last());
                                    }
                                }
                                Err(e) => {
                                    return Err(DriverError::Validation(e));
                                }
                            }
                            break ;
                        }
                        StringStop::More(rp2) => {
                            append_bytes(&mut printed, &driver.buffer, 0, rp2);
                            proof {
                                if off {
                                    lemma_buffer_slice(
                                        driver.buffer@,
                                        driver.section_size as int,
                                        input@,
                                        driver.spec_base(),
                                        0,
                                        rp2 as int,
                                    );
                                    assert(printed@ =~= input@.subrange(
                                        0,
                                        driver.spec_base() + rp2,
                                    ));
                                }
                            }
                            let mut read2 = driver.renew(rp2);
                            if read2 == 0 && driver.section_size == driver.buffer.len() {
                                read2 = driver.grow_and_read();
                            }
                            if read2 == 0 {
                                return Err(
                                    DriverError::Tokenize(TokenizeError::UnexpectedEndOfInput),
                                );
                            }
                        }
                    }
                }
            }
            WindowStop::Restart(recovery_point) => {
                let mut read = driver.renew(recovery_point);
                if read == 0 && driver.section_size == driver.buffer.len() {
                    read = driver.grow_and_read();
                }
                if read == 0 {
                    return Err(DriverError::Tokenize(TokenizeError::UnexpectedEndOfInput));
                }
                cont = 0;
            }
        }
    }
    match validator.finish() {
        Ok(_) => {}
        Err(e) => {
            proof {
                if fits && spec_validator_done(
                    spec_run_validator(spec_initial_validator(), spec_tokens(input@, 0, mode)),
                ) {
                    assert(spec_validator_done(validator@));
                    assert(false);
                }
            }
            return Err(DriverError::Validation(e));
        }
    }
    if !had_tokens {
        proof {
            if fits && spec_has_nonws(spec_tokens(input@, 0, mode)) {
                assert(spec_has_nonws(tokens.deep_view()));
                assert(false);
            }
        }
        return Err(DriverError::EmptyInput);
    }
    proof {
        if fits && mode == CompressMode::Off {
            lemma_print_tokens_reproduce(input@, 0);
            assert(input@.subrange(0, input@.len() as int) =~= input@);
        }
    }
    Ok(ChunkedOutcome { tokens, printed, completions })
}

/// The window's backing storage as a slice.
fn window_slice(buffer: &Vec<u8>) -> (r: &[u8])
    ensures
        r@ == buffer@,
{
    buffer.as_slice()
}

/// The outcome of scanning one document eagerly from offset `i`:
/// tokenize, feed the validator every non-whitespace token, and stop at
/// the first completed top-level document.
pub enum DocScan {
    /// A document completed: the non-whitespace tokens fed, and the
    /// offset just past the completing token.
    Complete { tokens: Seq<TokenModel>, end: int },
    /// The input ended first: the tokens fed and the validator's state.
    Incomplete { tokens: Seq<TokenModel>, m: ValidatorModel },
    /// Tokenization failed first.
    TokenErr(TokenizeErrorModel),
    /// The grammar rejected a token.
    GrammarErr(ValidationError),
}

/// The eager single-document scan over `src[i..]` from validator state
/// `m`, with `acc` the non-whitespace tokens already fed.
pub open spec fn spec_scan_document(
    src: Seq<u8>,
    i: int,
    m: ValidatorModel,
    acc: Seq<TokenModel>,
    mode: CompressMode,
) -> DocScan
    decreases src.len() - i,
{
    if i < 0 || i >= src.len() {
        DocScan::Incomplete { tokens: acc, m }
    } else {
        match spec_next_token(src, i, mode) {
            Err(e) => DocScan::TokenErr(e),
            Ok(p) => if !(i < p.1 <= src.len()) {
                DocScan::Incomplete { tokens: acc, m }
            } else if crate::tokenizer::spec_token_is_whitespace(p.0) {
                spec_scan_document(src, p.1, m, acc, mode)
            } else {
                let stepped = spec_process_token(m, p.0);
                match stepped.1 {
                    Err(e) => DocScan::GrammarErr(e),
                    Ok(st) => if st == ValidationState::Complete {
                        DocScan::Complete { tokens: acc.push(p.0), end: p.1 }
                    } else {
                        spec_scan_document(src, p.1, stepped.0, acc.push(p.0), mode)
                    },
                }
            },
        }
    }
}

/// Nothing but whitespace bytes from `i` to the end of the source.
pub open spec fn spec_all_whitespace(src: Seq<u8>, i: int) -> bool {
    forall|j: int| i <= j < src.len() ==> crate::tokenizer::spec_is_whitespace(#[trigger] src[j])
}

/// Processes exactly one document from an in-memory slice: tokenizes,
/// validates, and reformats it (whitespace dropped), enforcing that
/// nothing but whitespace follows it.
///
/// The contract follows `spec_scan_document` case by case: the output is
/// the print of the document's own tokens, a truncated or ill-formed or
/// empty input yields exactly the error the scan names, and bytes beyond
/// the document are rejected unless they are all whitespace.
pub fn reformat_document(input: &[u8], mode: CompressMode) -> (r: Result<Vec<u8>, DriverError>)
    ensures
        ({
            let scan = spec_scan_document(
                input@,
                0,
                spec_initial_validator(),
                Seq::empty(),
                mode,
            );
            match scan {
                DocScan::Complete { tokens, end } => if spec_all_whitespace(input@, end) {
                    r matches Ok(printed) && printed@ == spec_print_tokens(tokens)
                        && spec_run_validator_ok(spec_initial_validator(), tokens)
                        && spec_validator_done(
                        spec_run_validator(spec_initial_validator(), tokens),
                    ) && tokens.len() >= 1
                } else {
                    r == Err::<Vec<u8>, DriverError>(DriverError::ExtraInput)
                },
                DocScan::Incomplete { tokens, m } => if !spec_validator_done(m) {
                    r == Err::<Vec<u8>, DriverError>(
                        DriverError::Validation(ValidationError::UnexpectedEndOfInput),
                    )
                } else if tokens.len() == 0 {
                    r == Err::<Vec<u8>, DriverError>(DriverError::EmptyInput)
                } else {
                    r matches Ok(printed) && printed@ == spec_print_tokens(tokens)
                },
                DocScan::TokenErr(e) => (r matches Err(err) && err matches DriverError::Tokenize(
                    te,
                ) && te@ == e),
                DocScan::GrammarErr(e) => r == Err::<Vec<u8>, DriverError>(
                    DriverError::Validation(e),
                ),
            }
        }),
{
    let ghost whole = spec_scan_document(input@, 0, spec_initial_validator(), Seq::empty(), mode);
    let mut s = ByteSection::new(input);
    let mut validator = Validator::new();
    let mut printed: Vec<u8> = Vec::new();
    let ghost mut ts: Seq<TokenModel> = Seq::empty();
    let mut had_tokens = false;
    let mut complete = false;
    proof {
        assert(validator@.stack =~= Seq::<ValidationContext>::empty());
        assert(validator@ == spec_initial_validator());
    }
    loop
        invariant_except_break
            spec_scan_document(input@, s.n as int, validator@, ts, mode) == whole,
            !complete,
        invariant
            s.wf(),
            s.src@ == input@,
            whole == spec_scan_document(input@, 0, spec_initial_validator(), Seq::empty(), mode),
            validator@ == spec_run_validator(spec_initial_validator(), ts),
            spec_run_validator_ok(spec_initial_validator(), ts),
            printed@ == spec_print_tokens(ts),
            had_tokens == (ts.len() >= 1),
            forall|i: int|
                0 <= i < ts.len() ==> !crate::tokenizer::spec_token_is_whitespace(ts[i]),
        ensures
            s.wf(),
            s.src@ == input@,
            validator@ == spec_run_validator(spec_initial_validator(), ts),
            spec_run_validator_ok(spec_initial_validator(), ts),
            printed@ == spec_print_tokens(ts),
            had_tokens == (ts.len() >= 1),
            forall|i: int|
                0 <= i < ts.len() ==> !crate::tokenizer::spec_token_is_whitespace(ts[i]),
            complete ==> whole == (DocScan::Complete { tokens: ts, end: s.n as int }),
            complete ==> validator@.current_context is None && had_tokens,
            !complete ==> s.n == input@.len() && whole == (DocScan::Incomplete {
                tokens: ts,
                m: validator@,
            }),
        decreases s.src@.len() - s.n,
    {
        if s.is_empty() {
            break ;
        }
        let ghost pos = s.n as int;
        match crate::tokenizer::compress_next_token(&mut s, mode) {
            Ok(tok) => {
                proof {
                    crate::tokenizer::lemma_next_token_advances(input@, pos, mode);
                }
                if tok.is_whitespace() {
                    continue ;
                }
                match validator.process_token(&tok) {
                    Ok(state) => {
                        proof {
                            lemma_run_validator_push(spec_initial_validator(), ts, tok@);
                            lemma_print_tokens_push(ts, tok@);
                        }
                        had_tokens = true;
                        tok.print(&mut printed);
                        proof {
                            ts = ts.push(tok@);
                        }
                        if matches!(state, ValidationState::Complete) {
                            complete = true;
                            break ;
                        }
                    }
                    Err(e) => {
                        return Err(DriverError::Validation(e));
                    }
                }
            }
            Err(e) => {
                return Err(DriverError::Tokenize(e));
            }
        }
    }
    match validator.finish() {
        Ok(_) => {}
        Err(e) => {
            proof {
                crate::validator::lemma_run_validator_preserves_wf(
                    spec_initial_validator(),
                    ts,
                );
                if complete {
                    assert(false);
                }
            }
            return Err(DriverError::Validation(e));
        }
    }
    // anything after the document may only be whitespace
    let ghost rest_start = s.n as int;
    loop
        invariant
            s.wf(),
            s.src@ == input@,
            rest_start <= s.n,
            forall|j: int|
                rest_start <= j < s.n ==> crate::tokenizer::spec_is_whitespace(
                    #[trigger] input@[j],
                ),
        ensures
            s.wf(),
            s.src@ == input@,
            rest_start <= s.n,
            forall|j: int|
                rest_start <= j < s.n ==> crate::tokenizer::spec_is_whitespace(
                    #[trigger] input@[j],
                ),
            s.n == input@.len() || !crate::tokenizer::spec_is_whitespace(input@[s.n as int]),
        decreases s.src@.len() - s.n,
    {
        let ws = match s.peek() {
            Some(c) => crate::tokenizer::is_whitespace(c),
            None => false,
        };
        if !ws {
            break ;
        }
        s.next();
    }
    if !s.is_empty() {
        proof {
            assert(!spec_all_whitespace(input@, rest_start));
        }
        return Err(DriverError::ExtraInput);
    }
    if !had_tokens {
        return Err(DriverError::EmptyInput);
    }
    proof {
        if complete {
            assert(spec_all_whitespace(input@, rest_start));
        }
    }
    Ok(printed)
}

// ---------------------------------------------------------------------------
// Round-trip laws
// ---------------------------------------------------------------------------
/// With compression off, every token prints back exactly the bytes it was
/// lexed from.
pub proof fn lemma_print_token_uncompressed(src: Seq<u8>, i: int)
    requires
        0 <= i < src.len(),
    ensures
        (spec_next_token(src, i, CompressMode::Off) is Ok ==> spec_print_token(
            spec_next_token(src, i, CompressMode::Off)->Ok_0.0,
        ) == src.subrange(i, spec_next_token(src, i, CompressMode::Off)->Ok_0.1)),
{
    broadcast use vstd::utf8::char_u32_cast;

    reveal(spec_next_token);
    let c = src[i];
    if spec_next_token(src, i, CompressMode::Off) is Ok {
        let t = spec_next_token(src, i, CompressMode::Off)->Ok_0.0;
        let end = spec_next_token(src, i, CompressMode::Off)->Ok_0.1;
        if crate::tokenizer::spec_is_whitespace(c) {
            assert(t == TokenModel::Whitespace(c as char));
            assert(((c as char) as u32) == c as u32);
            assert(spec_print_token(t) =~= src.subrange(i, i + 1));
        } else if c == 0x2D || crate::tokenizer::spec_is_digit(c) {
            assert(spec_print_token(t) =~= src.subrange(i, end));
        } else if c == 0x22 {
            assert(spec_print_token(t) =~= src.subrange(i, end));
        } else if c == 0x6E {
            assert(end == i + 4 && src[i + 1] == 0x75 && src[i + 2] == 0x6C && src[i + 3]
                == 0x6C);
            assert(spec_print_token(t) =~= src.subrange(i, end));
        } else if c == 0x74 {
            assert(end == i + 4 && src[i + 1] == 0x72 && src[i + 2] == 0x75 && src[i + 3]
                == 0x65);
            assert(spec_print_token(t) =~= src.subrange(i, end));
        } else if c == 0x66 {
            assert(end == i + 5 && src[i + 1] == 0x61 && src[i + 2] == 0x6C && src[i + 3] == 0x73
                && src[i + 4] == 0x65);
            assert(spec_print_token(t) =~= src.subrange(i, end));
        } else {
            assert(spec_print_token(t) =~= src.subrange(i, end));
        }
    }
}

/// With compression off, printing the tokens of `src[i..]` reproduces
/// `src[i..]` exactly, provided tokenization is clean.
pub proof fn lemma_print_tokens_reproduce(src: Seq<u8>, i: int)
    requires
        0 <= i <= src.len(),
        spec_tokenize_err(src, i, CompressMode::Off) is None,
    ensures
        spec_print_tokens(spec_tokens(src, i, CompressMode::Off)) == src.subrange(
            i,
            src.len() as int,
        ),
    decreases src.len() - i,
{
    reveal_with_fuel(spec_print_tokens, 2);
    if i == src.len() {
        assert(spec_tokens(src, i, CompressMode::Off) =~= Seq::<TokenModel>::empty());
        assert(spec_print_tokens(Seq::<TokenModel>::empty()) =~= src.subrange(
            i,
            src.len() as int,
        ));
    } else {
        crate::tokenizer::lemma_next_token_advances(src, i, CompressMode::Off);
        match spec_next_token(src, i, CompressMode::Off) {
            Ok(p) => {
                let t = p.0;
                let end = p.1;
                let rest = spec_tokens(src, end, CompressMode::Off);
                assert(spec_tokens(src, i, CompressMode::Off) == seq![t] + rest);
                assert((seq![t] + rest)[0] == t);
                assert((seq![t] + rest).drop_first() == rest);
                lemma_print_token_uncompressed(src, i);
                lemma_print_tokens_reproduce(src, end);
                assert(spec_print_tokens(seq![t] + rest) == spec_print_token(t)
                    + spec_print_tokens(rest));
                assert(src.subrange(i, end) + src.subrange(end, src.len() as int) =~= src.subrange(
                    i,
                    src.len() as int,
                ));
            }
            Err(_) => {
                assert(false);
            }
        }
    }
}

/// Round trip: printing the uncompressed tokenization of a document
/// reproduces the document byte for byte.
pub proof fn lemma_print_tokenize_identity(src: Seq<u8>)
    requires
        spec_tokenize_err(src, 0, CompressMode::Off) is None,
    ensures
        spec_print_tokens(spec_tokens(src, 0, CompressMode::Off)) == src,
{
    lemma_print_tokens_reproduce(src, 0);
    assert(src.subrange(0, src.len() as int) =~= src);
}

/// Round trip the other way: a token sequence obtained by tokenizing a
/// document survives printing and re-tokenizing unchanged (compression
/// off).
pub proof fn lemma_tokenize_print_tokenize(src: Seq<u8>)
    requires
        spec_tokenize_err(src, 0, CompressMode::Off) is None,
    ensures
        spec_tokens(
            spec_print_tokens(spec_tokens(src, 0, CompressMode::Off)),
            0,
            CompressMode::Off,
        ) == spec_tokens(src, 0, CompressMode::Off),
{
    lemma_print_tokenize_identity(src);
}

/// Promoting a token to an owned one (which leaves its value unchanged,
/// as `Token::into_owned` ensures) cannot change what it prints: printing
/// depends on the token's value alone.
pub proof fn lemma_owned_token_prints_identically(t: TokenModel, owned: TokenModel)
    requires
        owned == t,
    ensures
        spec_print_token(owned) == spec_print_token(t),
{
}

/// A `Spaces` token holds between 1 and 255 bytes of whitespace and stops
/// exactly where the whitespace run ends (or at the cap, leaving the rest
/// of the run to start the next token).
pub proof fn lemma_spaces_cap(src: Seq<u8>, i: int, mode: CompressMode)
    requires
        0 <= i < src.len(),
    ensures
        (spec_next_token(src, i, mode) is Ok && spec_next_token(src, i, mode)->Ok_0.0 is Spaces
            ==> {
            let p = spec_next_token(src, i, mode)->Ok_0;
            let n = p.0->Spaces_0 as int;
            &&& 1 <= n <= 255
            &&& p.1 == i + n
            &&& (forall|j: int| i <= j < p.1 ==> crate::tokenizer::spec_is_whitespace(src[j]))
            &&& (n < 255 ==> p.1 == src.len() || !crate::tokenizer::spec_is_whitespace(
                src[p.1],
            ))
        }),
{
    reveal(spec_next_token);
    crate::tokenizer::lemma_skip_whitespace(src, i);
    if mode.spec_applies(src[i]) {
        let run = crate::tokenizer::spec_skip_whitespace(src, i) - i;
        let count = if run > 255 {
            255int
        } else {
            run
        };
        assert(1 <= count <= 255);
        assert(spec_next_token(src, i, mode) == Ok::<(TokenModel, int), TokenizeErrorModel>(
            (TokenModel::Spaces(count as u8), i + count),
        ));
        assert(count as u8 as int == count);
    }
}

} // verus!
