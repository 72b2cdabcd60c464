//! A streaming JSON toolkit: a restartable byte-level tokenizer, a pushdown
//! grammar validator, and a chunked driver that combines them with a path
//! stack to deliver visitor events over documents of any size.

pub mod driver;
pub mod section;
pub mod tokenizer;
pub mod utf8;
pub mod validator;
pub mod visitor;

use std::borrow::Cow;
use vstd::prelude::*;

verus! {

/// The six JSON value categories, used both as a compact type tag and as a
/// map key by consumers.
#[derive(Hash, PartialEq, Eq, Structural, Debug, Copy, Clone)]
pub enum JsonType {
    Array,
    Object,
    String,
    Number,
    Bool,
    Null,
}

/// One step of a JSON path: an array index or an object key.  The key is
/// stored as text, borrowed from the token buffer or owned after promotion.
#[derive(Hash, PartialEq, Eq, Debug)]
pub enum JsonPathSegment<'a> {
    Index(usize),
    Key(Cow<'a, str>),
}

/// Mathematical model of a path segment.
pub enum PathSegModel {
    Index(int),
    Key(Seq<char>),
}

impl<'a> View for JsonPathSegment<'a> {
    type V = PathSegModel;

    open spec fn view(&self) -> PathSegModel {
        match self {
            JsonPathSegment::Index(i) => PathSegModel::Index(*i as int),
            JsonPathSegment::Key(k) => PathSegModel::Key(k@),
        }
    }
}

impl<'a> DeepView for JsonPathSegment<'a> {
    type V = PathSegModel;

    open spec fn deep_view(&self) -> PathSegModel {
        self.view()
    }
}

impl<'a> Clone for JsonPathSegment<'a> {
    fn clone(&self) -> (r: Self)
        ensures
            r@ == self@,
    {
        match self {
            JsonPathSegment::Index(i) => JsonPathSegment::Index(*i),
            JsonPathSegment::Key(k) => JsonPathSegment::Key(
                match k {
                    Cow::Borrowed(s) => Cow::Borrowed(*s),
                    Cow::Owned(s) => Cow::Owned(s.clone()),
                },
            ),
        }
    }
}

impl<'a> JsonPathSegment<'a> {
    /// The key text, if this segment is an object key.
    pub fn as_key(&self) -> (r: Option<Cow<'a, str>>)
        ensures
            match self@ {
                PathSegModel::Key(s) => r matches Some(c) && c@ == s,
                PathSegModel::Index(_) => r is None,
            },
    {
        match self {
            JsonPathSegment::Key(c) => Some(
                match c {
                    Cow::Borrowed(s) => Cow::Borrowed(*s),
                    Cow::Owned(s) => Cow::Owned(s.clone()),
                },
            ),
            JsonPathSegment::Index(_) => None,
        }
    }

    /// The array index, if this segment is one.
    pub fn as_index(&self) -> (r: Option<usize>)
        ensures
            match self@ {
                PathSegModel::Index(i) => r matches Some(n) && n == i,
                PathSegModel::Key(_) => r is None,
            },
    {
        match self {
            JsonPathSegment::Key(_) => None,
            JsonPathSegment::Index(index) => Some(*index),
        }
    }

    /// A mutable borrow of the key text, if this segment is an object key.
    pub fn as_key_mut(&mut self) -> (r: Option<&mut Cow<'a, str>>)
        ensures
            match r {
                Some(k) => old(self)@ is Key && k@ == old(self)@->Key_0 && final(self)@
                    == PathSegModel::Key(final(k)@),
                None => old(self)@ is Index && final(self)@ == old(self)@,
            },
    {
        match self {
            JsonPathSegment::Key(k) => Some(k),
            JsonPathSegment::Index(_) => None,
        }
    }

    /// A mutable borrow of the index, if this segment is one.
    pub fn as_index_mut(&mut self) -> (r: Option<&mut usize>)
        ensures
            match r {
                Some(i) => old(self)@ is Index && *i == old(self)@->Index_0 && final(self)@
                    == PathSegModel::Index(*final(i) as int),
                None => old(self)@ is Key && final(self)@ == old(self)@,
            },
    {
        match self {
            JsonPathSegment::Key(_) => None,
            JsonPathSegment::Index(i) => Some(i),
        }
    }

    /// Replaces the key text of a key segment; leaves an index segment
    /// unchanged.  Returns true exactly when the segment was a key.
    pub fn set_key(&mut self, new_key: Cow<'a, str>) -> (r: bool)
        ensures
            match old(self)@ {
                PathSegModel::Key(_) => r && final(self)@ == PathSegModel::Key(new_key@),
                PathSegModel::Index(_) => !r && final(self)@ == old(self)@,
            },
    {
        match self {
            JsonPathSegment::Key(k) => {
                *k = new_key;
                true
            }
            JsonPathSegment::Index(_) => false,
        }
    }

    /// Replaces the index of an index segment; leaves a key segment
    /// unchanged.  Returns true exactly when the segment was an index.
    pub fn set_index(&mut self, new_index: usize) -> (r: bool)
        ensures
            match old(self)@ {
                PathSegModel::Index(_) => r && final(self)@ == PathSegModel::Index(new_index as int),
                PathSegModel::Key(_) => !r && final(self)@ == old(self)@,
            },
    {
        match self {
            JsonPathSegment::Key(_) => false,
            JsonPathSegment::Index(i) => {
                *i = new_index;
                true
            }
        }
    }

    pub fn is_index(&self) -> (r: bool)
        ensures
            r == (self@ is Index),
    {
        match self {
            JsonPathSegment::Index(_) => true,
            JsonPathSegment::Key(_) => false,
        }
    }

    pub fn is_key(&self) -> (r: bool)
        ensures
            r == (self@ is Key),
    {
        !self.is_index()
    }
}

/// The character of one decimal digit.
pub open spec fn spec_digit_char(d: int) -> char
    recommends
        0 <= d <= 9,
{
    ((0x30 + d) as u32) as char
}

/// The decimal digits of a non-negative number, most significant first.
pub open spec fn spec_decimal(n: int) -> Seq<char>
    recommends
        n >= 0,
    decreases n,
{
    if n < 10 {
        seq![spec_digit_char(n)]
    } else {
        spec_decimal(n / 10).push(spec_digit_char(n % 10))
    }
}

/// How one segment displays: an index as decimal digits, a key as its
/// text (verbatim, quotes included).
pub open spec fn spec_display_segment(seg: PathSegModel) -> Seq<char> {
    match seg {
        PathSegModel::Index(i) => spec_decimal(i),
        PathSegModel::Key(k) => k,
    }
}

/// How a path displays: `@`, then `.` and the segment for each segment.
pub open spec fn spec_display_path(segs: Seq<PathSegModel>) -> Seq<char>
    decreases segs.len(),
{
    if segs.len() == 0 {
        seq!['@']
    } else {
        spec_display_path(segs.drop_last()) + seq!['.'] + spec_display_segment(segs.last())
    }
}

fn digit_str(d: u8) -> (r: &'static str)
    requires
        d < 10,
    ensures
        r@ == seq![spec_digit_char(d as int)],
{
    proof {
        reveal_strlit("0");
        reveal_strlit("1");
        reveal_strlit("2");
        reveal_strlit("3");
        reveal_strlit("4");
        reveal_strlit("5");
        reveal_strlit("6");
        reveal_strlit("7");
        reveal_strlit("8");
        reveal_strlit("9");
    }
    let r = match d {
        0 => "0",
        1 => "1",
        2 => "2",
        3 => "3",
        4 => "4",
        5 => "5",
        6 => "6",
        7 => "7",
        8 => "8",
        _ => "9",
    };
    proof {
        broadcast use vstd::utf8::char_u32_cast;

        assert(r@ =~= seq![spec_digit_char(d as int)]);
    }
    r
}

/// Appends the decimal digits of `n`.
fn push_decimal(out: &mut String, n: usize)
    ensures
        final(out)@ == old(out)@ + spec_decimal(n as int),
    decreases n,
{
    if n >= 10 {
        push_decimal(out, n / 10);
        out.append(digit_str((n % 10) as u8));
        proof {
            assert(out@ =~= old(out)@ + spec_decimal(n as int));
        }
    } else {
        out.append(digit_str(n as u8));
        proof {
            assert(out@ =~= old(out)@ + spec_decimal(n as int));
        }
    }
}

fn cow_str_slice<'x, 'a>(c: &'x Cow<'a, str>) -> (r: &'x str)
    ensures
        r@ == c@,
{
    match c {
        Cow::Borrowed(s) => s,
        Cow::Owned(st) => st.as_str(),
    }
}

/// An ordered sequence of path segments naming one location in a document.
#[derive(Hash, PartialEq, Eq, Debug)]
pub struct JsonPath<'a> {
    pub segments: Vec<JsonPathSegment<'a>>,
}

impl<'a> View for JsonPath<'a> {
    type V = Seq<PathSegModel>;

    open spec fn view(&self) -> Seq<PathSegModel> {
        self.segments.deep_view()
    }
}

impl<'a> JsonPath<'a> {
    pub fn new(segments: Vec<JsonPathSegment<'a>>) -> (r: Self)
        ensures
            r@ == segments.deep_view(),
    {
        JsonPath { segments }
    }

    pub fn empty() -> (r: Self)
        ensures
            r@ == Seq::<PathSegModel>::empty(),
    {
        JsonPath { segments: Vec::new() }
    }

    pub fn len(&self) -> (r: usize)
        ensures
            r == self@.len(),
    {
        self.segments.len()
    }

    pub fn is_empty(&self) -> (r: bool)
        ensures
            r == (self@.len() == 0),
    {
        self.segments.len() == 0
    }

    /// Appends a segment at the end of the path.
    pub fn push(&mut self, segment: JsonPathSegment<'a>)
        ensures
            final(self)@ == old(self)@.push(segment@),
    {
        self.segments.push(segment);
        proof {
            assert(self@ =~= old(self)@.push(segment@));
        }
    }

    /// Removes and returns the last segment, if any.
    pub fn pop(&mut self) -> (r: Option<JsonPathSegment<'a>>)
        ensures
            match r {
                Some(seg) => old(self)@.len() > 0 && seg@ == old(self)@.last() && final(self)@
                    == old(self)@.drop_last(),
                None => old(self)@.len() == 0 && final(self)@ == old(self)@,
            },
    {
        let r = self.segments.pop();
        proof {
            if old(self)@.len() > 0 {
                assert(self@ =~= old(self)@.drop_last());
            } else {
                assert(self@ =~= old(self)@);
            }
        }
        r
    }

    /// The last segment, if any.
    pub fn last(&self) -> (r: Option<&JsonPathSegment<'a>>)
        ensures
            match r {
                Some(seg) => self@.len() > 0 && seg@ == self@.last(),
                None => self@.len() == 0,
            },
    {
        self.segments.last()
    }

    /// The first segment, if any.
    pub fn first(&self) -> (r: Option<&JsonPathSegment<'a>>)
        ensures
            match r {
                Some(seg) => self@.len() > 0 && seg@ == self@[0],
                None => self@.len() == 0,
            },
    {
        self.segments.first()
    }

    /// Read-only access to the segment vector.
    pub fn segments(&self) -> (r: &Vec<JsonPathSegment<'a>>)
        ensures
            r.deep_view() == self@,
    {
        &self.segments
    }

    /// The display form of the path: `@` followed by `.segment` for each
    /// segment, indexes in decimal and keys verbatim.
    pub fn display_string(&self) -> (r: String)
        ensures
            r@ == spec_display_path(self@),
    {
        let mut out = String::new();
        proof {
            reveal_strlit("@");
            assert(out@ + "@"@ =~= spec_display_path(self@.take(0)));
        }
        out.append("@");
        let mut i: usize = 0;
        while i < self.segments.len()
            invariant
                i <= self.segments.len(),
                out@ == spec_display_path(self@.take(i as int)),
            decreases self.segments.len() - i,
        {
            proof {
                reveal_strlit(".");
            }
            out.append(".");
            match &self.segments[i] {
                JsonPathSegment::Index(n) => {
                    push_decimal(&mut out, *n);
                }
                JsonPathSegment::Key(k) => {
                    out.append(cow_str_slice(k));
                }
            }
            i = i + 1;
            proof {
                assert(self@.take(i as int).drop_last() =~= self@.take(i - 1));
                assert(self@.take(i as int).last() == self@[i - 1]);
                assert(out@ =~= spec_display_path(self@.take(i as int)));
            }
        }
        proof {
            assert(self@.take(self.segments.len() as int) =~= self@);
        }
        out
    }

    /// The path one level up: everything but the last segment.  The parent
    /// of the empty path is the empty path.
    pub fn parent(&self) -> (r: Self)
        ensures
            r@ == if self@.len() == 0 {
                self@
            } else {
                self@.drop_last()
            },
    {
        let mut segments = self.segments.clone();
        proof {
            assert forall|i: int| 0 <= i < segments@.len() implies #[trigger] segments@[i]@
                == self.segments@[i]@ by {
                assert(cloned(self.segments[i], segments[i]));
            }
            assert(segments.deep_view() =~= self@);
        }
        segments.pop();
        proof {
            if self@.len() == 0 {
                assert(segments.deep_view() =~= self@);
            } else {
                assert(segments.deep_view() =~= self@.drop_last());
            }
        }
        JsonPath { segments }
    }
}

} // verus!
