use vstd::prelude::*;
use vstd::string::StringSliceAdditionalSpecFns;

verus! {

/// A located piece of the source: the bytes `start..end` of the input.
#[derive(Clone, Copy, PartialEq, Eq, Structural, Debug)]
pub struct Span {
    pub start: usize,
    pub end: usize,
}

/// The span covering the bytes `start..end`.
pub open spec fn span_of(start: int, end: int) -> Span {
    Span { start: start as usize, end: end as usize }
}

impl Span {
    /// The bytes of `src` that the span covers.
    pub open spec fn text_of(self, src: Seq<u8>) -> Seq<u8> {
        src.subrange(self.start as int, self.end as int)
    }

    /// The span lies inside a source of `len` bytes.
    pub open spec fn within(self, len: int) -> bool {
        self.start <= self.end <= len
    }
}

/// The offset where the line holding offset `i` starts.
pub open spec fn line_start(s: Seq<u8>, i: int) -> int
    decreases i,
{
    if i <= 0 {
        0
    } else if s[i - 1] == 10 {
        i
    } else {
        line_start(s, i - 1)
    }
}

/// How many newlines stand before offset `i`.
pub open spec fn newlines_before(s: Seq<u8>, i: int) -> int
    decreases i,
{
    if i <= 0 {
        0
    } else {
        newlines_before(s, i - 1) + if s[i - 1] == 10 { 1int } else { 0int }
    }
}

impl Span {
    /// The bytes of `source` that the span covers.
    pub fn text(&self, source: &str) -> (r: Vec<u8>)
        requires
            self.within(source.spec_bytes().len() as int),
        ensures
            r@ == self.text_of(source.spec_bytes()),
    {
        let s = source.as_bytes();
        let mut out: Vec<u8> = Vec::new();
        let mut j: usize = self.start;
        while j < self.end
            invariant
                self.start <= j <= self.end <= s@.len(),
                out@ == s@.subrange(self.start as int, j as int),
            decreases self.end - j,
        {
            out.push(s[j]);
            j = j + 1;
            assert(out@ =~= s@.subrange(self.start as int, j as int));
        }
        out
    }

    /// The line, counted from 1, on which the span starts.
    pub fn line(&self, source: &str) -> (r: usize)
        requires
            self.start <= source.spec_bytes().len(),
            self.start < usize::MAX,
        ensures
            r == newlines_before(source.spec_bytes(), self.start as int) + 1,
    {
        let s = source.as_bytes();
        let mut n: usize = 0;
        let mut j: usize = 0;
        while j < self.start
            invariant
                j <= self.start <= s@.len(),
                self.start < usize::MAX,
                n == newlines_before(s@, j as int),
                n <= j,
            decreases self.start - j,
        {
            if s[j] == 10 {
                n = n + 1;
            }
            j = j + 1;
        }
        n + 1
    }

    /// The column, counted in bytes from 1, at which the span starts.
    pub fn column(&self, source: &str) -> (r: usize)
        requires
            self.start <= source.spec_bytes().len(),
            self.start < usize::MAX,
        ensures
            r == self.start - line_start(source.spec_bytes(), self.start as int) + 1,
    {
        let s = source.as_bytes();
        let mut j: usize = self.start;
        while j > 0 && s[j - 1] != 10
            invariant
                j <= self.start <= s@.len(),
                line_start(s@, j as int) == line_start(s@, self.start as int),
            decreases j,
        {
            j = j - 1;
        }
        self.start - j + 1
    }
}

} // verus!
