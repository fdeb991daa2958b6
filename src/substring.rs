use std::ops::Range;
use std::rc::Rc;
use vstd::prelude::*;
use vstd::std_specs::cmp::PartialEqSpec;
use vstd::string::*;
use vstd::utf8::*;

verus! {

broadcast use vstd::utf8::group_utf8_lib;

/// The UTF-8 bytes of a text.
pub open spec fn text_bytes(text: Seq<char>) -> Seq<u8> {
    encode_utf8(text)
}

/// `[start, end)` lies within `text` and cuts no character in two.
pub open spec fn valid_window(text: Seq<char>, start: int, end: int) -> bool {
    &&& 0 <= start <= end <= text_bytes(text).len()
    &&& is_char_boundary(text_bytes(text), start)
    &&& is_char_boundary(text_bytes(text), end)
}

/// The bytes of `text` in `[start, end)`.
pub open spec fn window(text: Seq<char>, start: int, end: int) -> Seq<u8> {
    text_bytes(text).subrange(start, end)
}

/// Which requirement on a window a range breaks.
#[derive(Debug, Clone, Copy, PartialEq, Eq, Structural)]
pub enum RangeFault {
    /// The range ends before it starts.
    EndBeforeStart,
    /// The start lies past the end of the buffer.
    StartOutOfBounds,
    /// The end lies past the end of the buffer.
    EndOutOfBounds,
    /// The start falls inside the encoding of a character.
    StartNotCharBoundary,
    /// The end falls inside the encoding of a character.
    EndNotCharBoundary,
}

/// A range refused when constructing an `RcSubstring`: the requirement it
/// breaks, the range itself and the byte length of the buffer.
#[derive(Debug, Clone, Copy, PartialEq, Eq, Structural)]
pub struct InvalidRange {
    pub fault: RangeFault,
    pub start: usize,
    pub end: usize,
    pub len: usize,
}

/// The first requirement, in the order start <= end, start <= length,
/// end <= length, character boundaries, that `[start, end)` breaks in `text`.
pub open spec fn range_fault(text: Seq<char>, start: int, end: int) -> Option<RangeFault> {
    let len = text_bytes(text).len() as int;
    if start > end {
        Some(RangeFault::EndBeforeStart)
    } else if start > len {
        Some(RangeFault::StartOutOfBounds)
    } else if end > len {
        Some(RangeFault::EndOutOfBounds)
    } else if !is_char_boundary(text_bytes(text), start) {
        Some(RangeFault::StartNotCharBoundary)
    } else if !is_char_boundary(text_bytes(text), end) {
        Some(RangeFault::EndNotCharBoundary)
    } else {
        None
    }
}

/// A shared, immutable window into a reference-counted `String`.
///
/// The view co-owns the buffer, so it stays readable after every other handle
/// to the buffer is dropped. Its content is the bytes of the buffer in its
/// range, re-read on every access; equality compares that content alone.
#[derive(Debug)]
pub struct RcSubstring {
    rcstring: Rc<String>,
    range: Range<usize>,
}

impl RcSubstring {
    /// The whole text of the shared buffer.
    pub closed spec fn text(&self) -> Seq<char> {
        self.rcstring@
    }

    /// First byte offset of the window.
    pub closed spec fn start(&self) -> int {
        self.range.start as int
    }

    /// Byte offset just past the window.
    pub closed spec fn end(&self) -> int {
        self.range.end as int
    }

    /// The window lies in the buffer on character boundaries.
    pub open spec fn wf(&self) -> bool {
        valid_window(self.text(), self.start(), self.end())
    }

    /// Every view is well formed, from construction on.
    #[verifier::type_invariant]
    spec fn inv(&self) -> bool {
        self.wf()
    }

    /// Construct a view of `range` in `rcstring`, sharing the buffer.
    ///
    /// The range is not checked at run time: each verified caller proves it
    /// valid instead. A caller outside verification that passes a bad range
    /// gets a view whose first read fails in `str`'s own slicing. Use
    /// `try_new` to have every range checked when the view is built.
    pub fn new(rcstring: Rc<String>, range: Range<usize>) -> (r: Self)
        requires
            valid_window(rcstring@, range.start as int, range.end as int),
        ensures
            r.wf(),
            r.text() == rcstring@,
            r.start() == range.start,
            r.end() == range.end,
            r@ == window(rcstring@, range.start as int, range.end as int),
    {
        RcSubstring { rcstring, range }
    }

    /// Construct a view of `range` in `rcstring`, checking the range at run
    /// time and reporting the first requirement it breaks.
    ///
    /// A range inside the buffer on character boundaries always gives a view
    /// of exactly those bytes. A range that ends before it starts, or that
    /// starts or ends past the buffer, is always refused.
    pub fn try_new(rcstring: Rc<String>, range: Range<usize>) -> (r: Result<Self, InvalidRange>)
        ensures
            range_fault(rcstring@, range.start as int, range.end as int) is None
                <==> valid_window(rcstring@, range.start as int, range.end as int),
            match r {
                Ok(v) => {
                    &&& range_fault(rcstring@, range.start as int, range.end as int) is None
                    &&& v.wf()
                    &&& v.text() == rcstring@
                    &&& v.start() == range.start
                    &&& v.end() == range.end
                    &&& v@ == window(rcstring@, range.start as int, range.end as int)
                },
                Err(e) => {
                    &&& range_fault(rcstring@, range.start as int, range.end as int) == Some(e.fault)
                    &&& e.start == range.start
                    &&& e.end == range.end
                    &&& e.len == text_bytes(rcstring@).len()
                },
            },
            valid_window(rcstring@, range.start as int, range.end as int) ==> r is Ok
                && r->Ok_0@ == window(rcstring@, range.start as int, range.end as int),
            range.start > range.end ==> r is Err && r->Err_0.fault == RangeFault::EndBeforeStart,
            range.start > text_bytes(rcstring@).len() || range.end > text_bytes(rcstring@).len()
                ==> r is Err,
    {
        let s = rcstring.as_str();
        let len = s.as_bytes().len();
        let fault = if range.start > range.end {
            Some(RangeFault::EndBeforeStart)
        } else if range.start > len {
            Some(RangeFault::StartOutOfBounds)
        } else if range.end > len {
            Some(RangeFault::EndOutOfBounds)
        } else if !s.is_char_boundary(range.start) {
            Some(RangeFault::StartNotCharBoundary)
        } else if !s.is_char_boundary(range.end) {
            Some(RangeFault::EndNotCharBoundary)
        } else {
            None
        };
        match fault {
            Some(fault) => Err(InvalidRange { fault, start: range.start, end: range.end, len }),
            None => Ok(RcSubstring { rcstring, range }),
        }
    }

    /// Byte length of the window.
    pub fn len(&self) -> (r: usize)
        ensures
            r == self@.len(),
    {
        proof {
            use_type_invariant(self);
        }
        self.range.end - self.range.start
    }

    /// The windowed text.
    pub fn as_str(&self) -> (r: &str)
        ensures
            r.spec_bytes() == self@,
            r@ == decode_utf8(self@),
    {
        proof {
            use_type_invariant(self);
        }
        str_window(self.rcstring.as_str(), self.range.start, self.range.end)
    }

    /// The windowed text as bytes.
    pub fn as_bytes(&self) -> (r: &[u8])
        ensures
            r@ == self@,
    {
        self.as_str().as_bytes()
    }

    /// Bytes `[from, to)` of the window, offsets counted from its start.
    pub fn slice(&self, from: usize, to: usize) -> (r: &str)
        requires
            from <= to <= self@.len(),
            is_char_boundary(self@, from as int),
            is_char_boundary(self@, to as int),
        ensures
            r.spec_bytes() == self@.subrange(from as int, to as int),
    {
        proof {
            use_type_invariant(self);
        }
        str_window(self.as_str(), from, to)
    }

    /// An owned copy of the windowed text, as it is displayed.
    pub fn to_string(&self) -> (r: String)
        ensures
            text_bytes(r@) == self@,
    {
        self.as_str().to_owned()
    }
}

impl PartialEq for RcSubstring {
    fn eq(&self, other: &RcSubstring) -> (r: bool) {
        bytes_equal(self.as_bytes(), other.as_bytes())
    }
}

impl vstd::std_specs::cmp::PartialEqSpecImpl for RcSubstring {
    open spec fn obeys_eq_spec() -> bool {
        true
    }

    open spec fn eq_spec(&self, other: &RcSubstring) -> bool {
        self@ == other@
    }
}

impl<'a> PartialEq<&'a str> for RcSubstring {
    fn eq(&self, other: &&'a str) -> (r: bool) {
        bytes_equal(self.as_bytes(), other.as_bytes())
    }
}

impl<'a> vstd::std_specs::cmp::PartialEqSpecImpl<&'a str> for RcSubstring {
    open spec fn obeys_eq_spec() -> bool {
        true
    }

    open spec fn eq_spec(&self, other: &&'a str) -> bool {
        self@ == other.spec_bytes()
    }
}

impl<'a> PartialEq<RcSubstring> for &'a str {
    fn eq(&self, other: &RcSubstring) -> (r: bool) {
        bytes_equal(self.as_bytes(), other.as_bytes())
    }
}

impl<'a> vstd::std_specs::cmp::PartialEqSpecImpl<RcSubstring> for &'a str {
    open spec fn obeys_eq_spec() -> bool {
        true
    }

    open spec fn eq_spec(&self, other: &RcSubstring) -> bool {
        self.spec_bytes() == other@
    }
}

impl std::ops::Deref for RcSubstring {
    type Target = str;

    fn deref(&self) -> (r: &str)
        ensures
            r.spec_bytes() == self@,
            r@ == decode_utf8(self@),
    {
        self.as_str()
    }
}

impl AsRef<str> for RcSubstring {
    fn as_ref(&self) -> (r: &str)
        ensures
            <str as StringSliceAdditionalSpecFns>::spec_bytes(r) == self@,
            <str as View>::view(r) == decode_utf8(self@),
    {
        self.as_str()
    }
}

impl AsRef<[u8]> for RcSubstring {
    fn as_ref(&self) -> (r: &[u8])
        ensures
            <[u8] as View>::view(r) == self@,
    {
        self.as_bytes()
    }
}

/// Whether two byte slices hold the same bytes.
fn bytes_equal(a: &[u8], b: &[u8]) -> (r: bool)
    ensures
        r == (a@ == b@),
{
    if a.len() != b.len() {
        return false;
    }
    let mut i: usize = 0;
    while i < a.len()
        invariant
            a@.len() == b@.len(),
            0 <= i <= a@.len(),
            forall|j: int| 0 <= j < i ==> a@[j] == b@[j],
        decreases a@.len() - i,
    {
        if a[i] != b[i] {
            return false;
        }
        i = i + 1;
    }
    assert(a@ =~= b@);
    true
}

impl View for RcSubstring {
    type V = Seq<u8>;

    open spec fn view(&self) -> Seq<u8> {
        window(self.text(), self.start(), self.end())
    }
}

/// Cutting valid UTF-8 at a boundary `from` leaves a tail on which `to`, a
/// later boundary, stays a boundary at `to - from`.
proof fn lemma_tail_boundary(bytes: Seq<u8>, from: int, to: int)
    requires
        valid_utf8(bytes),
        0 <= from <= to <= bytes.len(),
        is_char_boundary(bytes, from),
        is_char_boundary(bytes, to),
    ensures
        valid_utf8(bytes.subrange(from, bytes.len() as int)),
        is_char_boundary(bytes.subrange(from, bytes.len() as int), to - from),
{
    let n = bytes.len() as int;
    let tail = bytes.subrange(from, n);
    valid_utf8_split(bytes, from);
    if to < n {
        is_char_boundary_iff_not_is_continuation_byte(bytes, to);
        is_char_boundary_iff_not_is_continuation_byte(tail, to - from);
    } else {
        is_char_boundary_start_end_of_seq(tail);
    }
}

/// The bytes of a valid window are valid UTF-8.
proof fn lemma_window_valid(text: Seq<char>, start: int, end: int)
    requires
        valid_window(text, start, end),
    ensures
        valid_utf8(window(text, start, end)),
{
    let bytes = text_bytes(text);
    let tail = bytes.subrange(start, bytes.len() as int);
    lemma_tail_boundary(bytes, start, end);
    valid_utf8_split(tail, end - start);
    assert(tail.subrange(0, end - start) =~= window(text, start, end));
}

/// Equality of views, and of a view and a string, is reflexive and symmetric,
/// and a view equals a string exactly when the view's text is that string.
pub proof fn lemma_content_equality(v: RcSubstring, w: RcSubstring, s: &str)
    requires
        v.wf(),
        w.wf(),
    ensures
        v.eq_spec(&v),
        v.eq_spec(&w) == w.eq_spec(&v),
        <RcSubstring as PartialEqSpec<&str>>::eq_spec(&v, &s)
            == <&str as PartialEqSpec<RcSubstring>>::eq_spec(&s, &v),
        <RcSubstring as PartialEqSpec<&str>>::eq_spec(&v, &s) == (decode_utf8(v@) == s@),
{
    lemma_window_valid(v.text(), v.start(), v.end());
    decode_utf8_encode_utf8(v@);
    encode_utf8_decode_utf8(s@);
}

/// A view over an empty range holds no bytes and equals the empty string.
pub proof fn lemma_empty_window(v: RcSubstring, s: &str)
    requires
        v.wf(),
        v.start() == v.end(),
        s@.len() == 0,
    ensures
        v@.len() == 0,
        <RcSubstring as PartialEqSpec<&str>>::eq_spec(&v, &s),
{
    assert(v@ =~= s.spec_bytes());
}

/// Bytes `[from, to)` of `s`, both offsets on character boundaries.
fn str_window(s: &str, from: usize, to: usize) -> (r: &str)
    requires
        from <= to <= s.spec_bytes().len(),
        is_char_boundary(s.spec_bytes(), from as int),
        is_char_boundary(s.spec_bytes(), to as int),
    ensures
        r.spec_bytes() == s.spec_bytes().subrange(from as int, to as int),
{
    let ghost bytes = s.spec_bytes();
    let (_, tail) = s.split_at(from);
    proof {
        lemma_tail_boundary(bytes, from as int, to as int);
    }
    let (mid, _) = tail.split_at(to - from);
    proof {
        assert(mid.spec_bytes() =~= bytes.subrange(from as int, to as int));
    }
    mid
}

} // verus!
