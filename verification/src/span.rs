//! Source positions and spans.
//!
//! A [`Span`] is a half-open byte range `[lo, hi)` into a single source file.
//! Byte offsets are stored as `u32`.

use vstd::prelude::*;

verus! {

/// A half-open byte range `[lo, hi)` into the source file.
#[derive(Clone, Copy, Debug, PartialEq, Eq, Hash)]
pub struct Span {
    /// Inclusive start byte offset.
    pub lo: u32,
    /// Exclusive end byte offset.
    pub hi: u32,
}

/// The smallest span covering two spans.
pub open spec fn covering(a: Span, b: Span) -> Span {
    Span {
        lo: if a.lo <= b.lo {
            a.lo
        } else {
            b.lo
        },
        hi: if a.hi >= b.hi {
            a.hi
        } else {
            b.hi
        },
    }
}

impl Span {
    /// Whether the span is well-formed (`lo <= hi`).
    pub open spec fn wf(self) -> bool {
        self.lo <= self.hi
    }

    /// Creates a span from raw byte offsets. `lo` must not exceed `hi`.
    pub fn new(lo: u32, hi: u32) -> (s: Span)
        requires
            lo <= hi,
        ensures
            s.lo == lo,
            s.hi == hi,
    {
        Span { lo, hi }
    }

    /// A zero-length sentinel span, used where a real location is unavailable
    /// (e.g. compiler-synthesised nodes). Never points into real source text.
    pub fn dummy() -> (s: Span)
        ensures
            s.lo == 0,
            s.hi == 0,
    {
        Span { lo: 0, hi: 0 }
    }

    /// The number of bytes covered by the span.
    pub fn len(&self) -> (n: u32)
        requires
            self.wf(),
        ensures
            n == self.hi - self.lo,
    {
        self.hi - self.lo
    }

    /// Whether the span covers no bytes.
    pub fn is_empty(&self) -> (b: bool)
        ensures
            b == (self.lo == self.hi),
    {
        self.lo == self.hi
    }

    /// Returns the smallest span covering both `self` and `other`: from the
    /// smaller start to the larger end, well formed when either input is.
    pub fn to(self, other: Span) -> (s: Span)
        ensures
            s == covering(self, other),
            s.lo == (if self.lo <= other.lo { self.lo } else { other.lo }),
            s.hi == (if self.hi >= other.hi { self.hi } else { other.hi }),
            self.wf() || other.wf() ==> s.wf(),
    {
        let lo = if self.lo <= other.lo { self.lo } else { other.lo };
        let hi = if self.hi >= other.hi { self.hi } else { other.hi };
        Span { lo, hi }
    }

    /// A zero-length span pointing at the start of `self`.
    pub fn shrink_to_lo(self) -> (s: Span)
        ensures
            s.lo == self.lo,
            s.hi == self.lo,
    {
        Span::new(self.lo, self.lo)
    }

    /// A zero-length span pointing at the end of `self`.
    pub fn shrink_to_hi(self) -> (s: Span)
        ensures
            s.lo == self.hi,
            s.hi == self.hi,
    {
        Span::new(self.hi, self.hi)
    }

    /// The byte range as a `usize` pair, for slicing into source text.
    pub fn range(&self) -> (r: std::ops::Range<usize>)
        ensures
            r.start == self.lo as usize,
            r.end == self.hi as usize,
    {
        (self.lo as usize)..(self.hi as usize)
    }
}

/// A value paired with its source span.
#[derive(Clone, Copy, Debug, PartialEq, Eq, Hash)]
pub struct Spanned<T> {
    pub node: T,
    pub span: Span,
}

impl<T> Spanned<T> {
    pub fn new(node: T, span: Span) -> (s: Spanned<T>)
        ensures
            s.node == node,
            s.span == span,
    {
        Spanned { node, span }
    }

    /// Applies `f` to the contained value, preserving the span.
    pub fn map<U, F: FnOnce(T) -> U>(self, f: F) -> (s: Spanned<U>)
        requires
            f.requires((self.node,)),
        ensures
            f.ensures((self.node,), s.node),
            s.span == self.span,
    {
        Spanned { node: f(self.node), span: self.span }
    }
}

} // verus!
