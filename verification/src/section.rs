//! Cursors over immutable input: `ByteSection` over a byte slice (the
//! tokenizer's window) and `Section` over the characters of a `&str`.
//!
//! A cursor holds a readable offset into its source; advancing never moves
//! the offset past the end of the source, and the source itself is never
//! modified.

use vstd::prelude::*;

verus! {

/// A cursor over an immutable byte slice.  `n` is the current offset and
/// `src` the underlying bytes; `n <= src.len()` always holds for a cursor
/// built with `new` and advanced only through the methods here.
#[derive(Debug)]
pub struct ByteSection<'a> {
    pub n: usize,
    pub src: &'a [u8],
}

impl<'a> ByteSection<'a> {
    /// The cursor's sole invariant: the offset lies within the source.
    pub open spec fn wf(&self) -> bool {
        self.n <= self.src@.len()
    }

    /// The bytes not yet consumed.
    pub open spec fn remaining(&self) -> Seq<u8> {
        self.src@.subrange(self.n as int, self.src@.len() as int)
    }

    pub fn new(buf: &'a [u8]) -> (s: ByteSection<'a>)
        ensures
            s.wf(),
            s.n == 0,
            s.src@ == buf@,
    {
        ByteSection { n: 0, src: buf }
    }

    /// The byte at the current offset, without advancing.
    pub fn peek(&self) -> (r: Option<u8>)
        requires
            self.wf(),
        ensures
            r == if self.n < self.src@.len() {
                Some(self.src@[self.n as int])
            } else {
                None::<u8>
            },
    {
        if self.n < self.src.len() {
            Some(self.src[self.n])
        } else {
            None
        }
    }

    /// The byte at the current offset, advancing past it; `None` at the end
    /// of the source (the offset then stays put).
    pub fn next(&mut self) -> (r: Option<u8>)
        requires
            old(self).wf(),
        ensures
            final(self).wf(),
            final(self).src@ == old(self).src@,
            r == if old(self).n < old(self).src@.len() {
                Some(old(self).src@[old(self).n as int])
            } else {
                None::<u8>
            },
            final(self).n == if old(self).n < old(self).src@.len() {
                old(self).n + 1
            } else {
                old(self).n as int
            },
    {
        if self.n < self.src.len() {
            let c = self.src[self.n];
            self.n = self.n + 1;
            Some(c)
        } else {
            None
        }
    }

    /// Advances past the next byte exactly when it equals `target`.
    pub fn check_next(&mut self, target: u8) -> (r: bool)
        requires
            old(self).wf(),
        ensures
            final(self).wf(),
            final(self).src@ == old(self).src@,
            r == (old(self).n < old(self).src@.len() && old(self).src@[old(self).n as int]
                == target),
            final(self).n == if r {
                old(self).n + 1
            } else {
                old(self).n as int
            },
    {
        if self.n < self.src.len() && self.src[self.n] == target {
            self.n = self.n + 1;
            true
        } else {
            false
        }
    }

    /// Advances past the next byte exactly when `f` accepts it.
    pub fn check_next_pattern<F: Fn(u8) -> bool>(&mut self, f: F) -> (r: bool)
        requires
            old(self).wf(),
            forall|c: u8| #[trigger] f.requires((c,)),
        ensures
            final(self).wf(),
            final(self).src@ == old(self).src@,
            r ==> old(self).n < old(self).src@.len() && call_ensures(
                f,
                (old(self).src@[old(self).n as int],),
                true,
            ) && final(self).n == old(self).n + 1,
            !r ==> final(self).n == old(self).n && (old(self).n < old(self).src@.len()
                ==> call_ensures(f, (old(self).src@[old(self).n as int],), false)),
    {
        if self.n < self.src.len() && f(self.src[self.n]) {
            self.n = self.n + 1;
            true
        } else {
            false
        }
    }

    /// The next `min(n, remaining)` bytes as a borrowed sub-slice, advancing
    /// past them.
    pub fn take(&mut self, n: usize) -> (r: &'a [u8])
        requires
            old(self).wf(),
        ensures
            final(self).wf(),
            final(self).src@ == old(self).src@,
            final(self).n == if old(self).n + n <= old(self).src@.len() {
                old(self).n + n
            } else {
                old(self).src@.len() as int
            },
            r@ == old(self).src@.subrange(old(self).n as int, final(self).n as int),
    {
        let remaining = self.src.len() - self.n;
        let step = if n <= remaining {
            n
        } else {
            remaining
        };
        let end = self.n + step;
        let result = vstd::slice::slice_subrange(self.src, self.n, end);
        self.n = end;
        result
    }

    /// Advances to the first byte from the current offset on which `f`
    /// returns true, or to the end of the source; returns the new offset.
    pub fn skip_until<F: Fn(u8) -> bool>(&mut self, f: F) -> (r: usize)
        requires
            old(self).wf(),
            forall|c: u8| #[trigger] f.requires((c,)),
        ensures
            final(self).wf(),
            final(self).src@ == old(self).src@,
            old(self).n <= final(self).n,
            r == final(self).n,
            forall|i: int|
                old(self).n <= i < final(self).n ==> call_ensures(
                    f,
                    (old(self).src@[i],),
                    false,
                ),
            final(self).n < final(self).src@.len() ==> call_ensures(
                f,
                (final(self).src@[final(self).n as int],),
                true,
            ),
    {
        loop
            invariant
                self.wf(),
                self.src@ == old(self).src@,
                old(self).n <= self.n,
                forall|c: u8| #[trigger] f.requires((c,)),
                forall|i: int|
                    old(self).n <= i < self.n ==> call_ensures(f, (old(self).src@[i],), false),
            decreases self.src@.len() - self.n,
        {
            if self.n >= self.src.len() {
                return self.n;
            }
            let c = self.src[self.n];
            if f(c) {
                return self.n;
            }
            self.n = self.n + 1;
        }
    }

    pub fn is_empty(&self) -> (r: bool)
        requires
            self.wf(),
        ensures
            r == (self.n == self.src@.len()),
    {
        self.n == self.src.len()
    }
}

/// A cursor over the characters of a string slice.  `n` counts characters,
/// not bytes — the contracts index the string's character sequence, and
/// `offset`, `new_with_offset`, `before` and `after` all speak in that
/// unit (on ASCII text the two units coincide).
#[derive(Clone, Debug)]
pub struct Section<'a> {
    pub n: usize,
    pub s: &'a str,
}

impl<'a> Section<'a> {
    pub open spec fn wf(&self) -> bool {
        self.n <= self.s@.len()
    }

    pub open spec fn spec_offset(&self) -> int {
        self.n as int
    }

    pub open spec fn chars(&self) -> Seq<char> {
        self.s@
    }

    pub fn new(s: &'a str) -> (r: Self)
        ensures
            r.wf(),
            r.chars() == s@,
            r.spec_offset() == 0,
    {
        Section { s, n: 0 }
    }

    /// A cursor positioned `n` characters (not bytes) into `s`.
    pub fn new_with_offset(s: &'a str, n: usize) -> (r: Self)
        requires
            n <= s@.len(),
        ensures
            r.wf(),
            r.chars() == s@,
            r.spec_offset() == n,
    {
        Section { s, n }
    }

    /// The character at the current offset, without advancing.
    pub fn peek(&self) -> (r: Option<char>)
        requires
            self.wf(),
        ensures
            r == if self.spec_offset() < self.chars().len() {
                Some(self.chars()[self.spec_offset()])
            } else {
                None::<char>
            },
    {
        if self.n < self.s.unicode_len() {
            Some(self.s.get_char(self.n))
        } else {
            None
        }
    }

    /// The character at the current offset, advancing past it.
    pub fn next(&mut self) -> (r: Option<char>)
        requires
            old(self).wf(),
        ensures
            final(self).wf(),
            final(self).chars() == old(self).chars(),
            r == if old(self).spec_offset() < old(self).chars().len() {
                Some(old(self).chars()[old(self).spec_offset()])
            } else {
                None::<char>
            },
            final(self).spec_offset() == if old(self).spec_offset() < old(self).chars().len() {
                old(self).spec_offset() + 1
            } else {
                old(self).spec_offset()
            },
    {
        if self.n < self.s.unicode_len() {
            let c = self.s.get_char(self.n);
            self.n = self.n + 1;
            Some(c)
        } else {
            None
        }
    }

    /// Advances past the next character exactly when it equals `target`.
    pub fn check_next(&mut self, target: char) -> (r: bool)
        requires
            old(self).wf(),
        ensures
            final(self).wf(),
            final(self).chars() == old(self).chars(),
            r == (old(self).spec_offset() < old(self).chars().len() && old(self).chars()[old(
                self,
            ).spec_offset()] == target),
            final(self).spec_offset() == if r {
                old(self).spec_offset() + 1
            } else {
                old(self).spec_offset()
            },
    {
        if self.n < self.s.unicode_len() && self.s.get_char(self.n) == target {
            self.n = self.n + 1;
            true
        } else {
            false
        }
    }

    /// Advances past the next character exactly when `f` accepts it.
    pub fn check_next_pattern<F: Fn(char) -> bool>(&mut self, f: F) -> (r: bool)
        requires
            old(self).wf(),
            forall|c: char| #[trigger] f.requires((c,)),
        ensures
            final(self).wf(),
            final(self).chars() == old(self).chars(),
            r ==> old(self).spec_offset() < old(self).chars().len() && call_ensures(
                f,
                (old(self).chars()[old(self).spec_offset()],),
                true,
            ) && final(self).spec_offset() == old(self).spec_offset() + 1,
            !r ==> final(self).spec_offset() == old(self).spec_offset() && (old(
                self,
            ).spec_offset() < old(self).chars().len() ==> call_ensures(
                f,
                (old(self).chars()[old(self).spec_offset()],),
                false,
            )),
    {
        if self.n < self.s.unicode_len() && f(self.s.get_char(self.n)) {
            self.n = self.n + 1;
            true
        } else {
            false
        }
    }

    /// Advances past up to `n` characters; returns how many were consumed.
    pub fn skip(&mut self, n: usize) -> (r: usize)
        requires
            old(self).wf(),
            old(self).spec_offset() + n <= usize::MAX,
        ensures
            final(self).wf(),
            final(self).chars() == old(self).chars(),
            final(self).spec_offset() == if old(self).spec_offset() + n <= old(
                self,
            ).chars().len() {
                old(self).spec_offset() + n
            } else {
                old(self).chars().len() as int
            },
            r == final(self).spec_offset() - old(self).spec_offset(),
    {
        let len = self.s.unicode_len();
        let end = if self.n + n <= len {
            self.n + n
        } else {
            len
        };
        let r = end - self.n;
        self.n = end;
        r
    }

    /// The current offset, in characters (not bytes: this cursor addresses
    /// its text by characters throughout).
    pub fn offset(&self) -> (r: usize)
        ensures
            r == self.spec_offset(),
    {
        self.n
    }

    /// The characters not yet consumed.
    pub fn after(&self) -> (r: &'a str)
        requires
            self.wf(),
        ensures
            r@ == self.chars().subrange(self.spec_offset(), self.chars().len() as int),
    {
        let len = self.s.unicode_len();
        self.s.substring_char(self.n, len)
    }

    /// The characters consumed so far.
    pub fn before(&self) -> (r: &'a str)
        requires
            self.wf(),
        ensures
            r@ == self.chars().subrange(0, self.spec_offset()),
    {
        self.s.substring_char(0, self.n)
    }

    /// Same as `before`: the consumed prefix.
    pub fn as_ref(&self) -> (r: &'a str)
        requires
            self.wf(),
        ensures
            r@ == self.chars().subrange(0, self.spec_offset()),
    {
        self.before()
    }
}

} // verus!
