//! The source file and line index used for diagnostics.
//!
//! A [`SourceFile`] owns the program text and a precomputed table of line-start
//! byte offsets. The table is built once and lets us translate a byte offset to
//! a `line:column` by binary search.

use vstd::prelude::*;
use vstd::string::*;
use vstd::utf8::*;

use crate::span::Span;
use crate::text::{chars_of, str_get};

verus! {

/// A 1-based line/column location within a source file.
///
/// Columns are counted in Unicode scalar values (`char`s), not bytes.
#[derive(Clone, Copy, Debug, PartialEq, Eq)]
pub struct Location {
    /// 1-based line number.
    pub line: u32,
    /// 1-based column number, counted in characters.
    pub column: u32,
}

/// The byte offsets at which lines start, within the first `n` bytes of `b`:
/// `0`, then one past every newline byte.
pub open spec fn line_starts_upto(b: Seq<u8>, n: nat) -> Seq<int>
    decreases n,
{
    if n == 0 {
        seq![0int]
    } else {
        let prev = line_starts_upto(b, (n - 1) as nat);
        if b[n - 1] == 10u8 {
            prev.push(n as int)
        } else {
            prev
        }
    }
}

/// The number of newline bytes among the first `n` bytes.
pub open spec fn newlines(b: Seq<u8>, n: nat) -> nat
    decreases n,
{
    if n == 0 {
        0
    } else {
        newlines(b, (n - 1) as nat) + if b[n - 1] == 10u8 {
            1nat
        } else {
            0nat
        }
    }
}

/// A text has one line more than it has newline bytes.
pub proof fn lemma_line_count(b: Seq<u8>, n: nat)
    ensures
        line_starts_upto(b, n).len() == 1 + newlines(b, n),
    decreases n,
{
    if n > 0 {
        lemma_line_count(b, (n - 1) as nat);
    }
}

/// The byte offset at which the line holding byte `off` starts.
pub open spec fn line_start_at(b: Seq<u8>, off: nat) -> int {
    line_starts_upto(b, off).last()
}

/// Removes trailing `\n` and `\r` bytes.
pub open spec fn trim_line_end(b: Seq<u8>) -> Seq<u8>
    decreases b.len(),
{
    if b.len() > 0 && (b.last() == 10u8 || b.last() == 13u8) {
        trim_line_end(b.drop_last())
    } else {
        b
    }
}

/// An owned source file: its display name, full text, and line index.
#[derive(Debug, Clone)]
pub struct SourceFile {
    name: String,
    src: String,
    /// Byte offset of the first character of each line. Always starts with `0`.
    line_starts: Vec<u32>,
}

proof fn lemma_line_starts_props(b: Seq<u8>, n: nat)
    requires
        n <= b.len(),
    ensures
        1 <= line_starts_upto(b, n).len() <= n + 1,
        line_starts_upto(b, n)[0] == 0,
        forall|i: int| 0 <= i < line_starts_upto(b, n).len() ==> 0 <= #[trigger] line_starts_upto(b, n)[i] <= n,
        forall|i: int, j: int|
            0 <= i < j < line_starts_upto(b, n).len() ==> line_starts_upto(b, n)[i] < line_starts_upto(b, n)[j],
        forall|i: int| 1 <= i < line_starts_upto(b, n).len() ==> b[#[trigger] line_starts_upto(b, n)[i] - 1] == 10u8,
    decreases n,
{
    if n > 0 {
        lemma_line_starts_props(b, (n - 1) as nat);
    }
}

/// The line starts up to `m` extend those up to `off` with offsets beyond `off`.
proof fn lemma_line_starts_extend(b: Seq<u8>, off: nat, m: nat)
    requires
        off <= m <= b.len(),
    ensures
        line_starts_upto(b, off).len() <= line_starts_upto(b, m).len(),
        line_starts_upto(b, m).take(line_starts_upto(b, off).len() as int) == line_starts_upto(b, off),
        forall|i: int|
            line_starts_upto(b, off).len() <= i < line_starts_upto(b, m).len() ==> #[trigger] line_starts_upto(b, m)[i] > off,
    decreases m,
{
    if m > off {
        lemma_line_starts_extend(b, off, (m - 1) as nat);
        lemma_line_starts_props(b, (m - 1) as nat);
        lemma_line_starts_props(b, off);
        let k = line_starts_upto(b, off).len() as int;
        let prev = line_starts_upto(b, (m - 1) as nat);
        assert(prev.push(m as int).take(k) =~= prev.take(k));
    }
}

/// In valid UTF-8, the position just after an ASCII byte that starts a
/// character is again a character boundary.
pub proof fn lemma_boundary_after_ascii(bytes: Seq<u8>, i: int)
    requires
        valid_utf8(bytes),
        0 <= i < bytes.len(),
        is_char_boundary(bytes, i),
        bytes[i] < 0x80u8,
    ensures
        is_char_boundary(bytes, i + 1),
    decreases bytes.len(),
{
    reveal_with_fuel(is_char_boundary, 2);
    if i == 0 {
        assert(length_of_first_scalar(bytes) == 1);
    } else {
        let rest = pop_first_scalar(bytes);
        let l = length_of_first_scalar(bytes);
        assert(is_char_boundary(rest, i - l));
        assert(rest.len() < bytes.len()) by {
            assert(1 <= l <= 4);
        }
        assert(rest =~= bytes.subrange(l, bytes.len() as int));
        assert(rest[i - l] == bytes[i]);
        lemma_boundary_after_ascii(rest, i - l);
    }
}

/// Every line start is a character boundary.
proof fn lemma_line_start_boundary(b: Seq<u8>, off: nat)
    requires
        valid_utf8(b),
        off <= b.len(),
    ensures
        is_char_boundary(b, line_start_at(b, off)),
    decreases off,
{
    if off == 0 {
        is_char_boundary_start_end_of_seq(b);
    } else {
        let prev = line_starts_upto(b, (off - 1) as nat);
        if b[off - 1] == 10u8 {
            lemma_line_starts_props(b, (off - 1) as nat);
            is_char_boundary_iff_not_is_continuation_byte(b, off - 1);
            lemma_boundary_after_ascii(b, off - 1);
        } else {
            lemma_line_start_boundary(b, (off - 1) as nat);
        }
    }
}

/// Every entry of the line index is a character boundary.
proof fn lemma_line_starts_boundaries(b: Seq<u8>)
    requires
        valid_utf8(b),
    ensures
        forall|i: int| 0 <= i < line_starts_upto(b, b.len()).len() ==> is_char_boundary(b, #[trigger] line_starts_upto(b, b.len())[i]),
{
    lemma_line_starts_props(b, b.len());
    let l = line_starts_upto(b, b.len());
    assert forall|i: int| 0 <= i < l.len() implies is_char_boundary(b, #[trigger] l[i]) by {
        if i == 0 {
            is_char_boundary_start_end_of_seq(b);
        } else {
            is_char_boundary_iff_not_is_continuation_byte(b, l[i] - 1);
            lemma_boundary_after_ascii(b, l[i] - 1);
        }
    }
}

/// Every character takes at least one byte.
pub proof fn lemma_encode_len_ge(chars: Seq<char>)
    ensures
        encode_utf8(chars).len() >= chars.len(),
    decreases chars.len(),
{
    if chars.len() > 0 {
        lemma_encode_len_ge(chars.drop_first());
    }
}

impl SourceFile {
    /// The text of the file, as characters.
    pub closed spec fn spec_text(&self) -> Seq<char> {
        self.src@
    }

    /// The display name, as characters.
    pub closed spec fn spec_name(&self) -> Seq<char> {
        self.name@
    }

    /// The UTF-8 bytes of the file.
    pub open spec fn spec_bytes(&self) -> Seq<u8> {
        encode_utf8(self.spec_text())
    }

    /// The line index matches the text.
    pub closed spec fn wf(&self) -> bool {
        &&& encode_utf8(self.src@).len() < u32::MAX
        &&& self.line_starts@.len() == line_starts_upto(encode_utf8(self.src@), encode_utf8(self.src@).len()).len()
        &&& forall|i: int| 0 <= i < self.line_starts@.len() ==>
            self.line_starts@[i] as int == #[trigger] line_starts_upto(encode_utf8(self.src@), encode_utf8(self.src@).len())[i]
    }

    /// A well-formed file holds fewer than `u32::MAX` bytes.
    pub proof fn lemma_wf_len(&self)
        requires
            self.wf(),
        ensures
            self.spec_bytes().len() < u32::MAX,
    {
    }

    /// Builds a source file from a display `name` and its `src` text.
    pub fn new(name: &str, src: &str) -> (f: SourceFile)
        requires
            src.spec_bytes().len() < u32::MAX,
        ensures
            f.wf(),
            f.spec_name() == name@,
            f.spec_text() == src@,
    {
        let bytes = src.as_bytes();
        let mut starts: Vec<u32> = Vec::new();
        starts.push(0);
        let mut idx: usize = 0;
        while idx < bytes.len()
            invariant
                idx <= bytes@.len(),
                bytes@ == src.spec_bytes(),
                bytes@.len() < u32::MAX,
                starts@.len() == line_starts_upto(bytes@, idx as nat).len(),
                forall|i: int| 0 <= i < starts@.len() ==> starts@[i] as int == #[trigger] line_starts_upto(bytes@, idx as nat)[i],
            decreases bytes@.len() - idx,
        {
            if bytes[idx] == 10u8 {
                starts.push((idx + 1) as u32);
            }
            idx = idx + 1;
        }
        let f = SourceFile { name: name.to_owned(), src: src.to_owned(), line_starts: starts };
        f
    }

    /// The display name (typically a path) used in diagnostics.
    pub fn name(&self) -> (r: &str)
        ensures
            r@ == self.spec_name(),
    {
        self.name.as_str()
    }

    /// The full source text.
    pub fn text(&self) -> (r: &str)
        ensures
            r@ == self.spec_text(),
    {
        self.src.as_str()
    }

    /// The text covered by `span`, or `""` when the span does not lie on
    /// character boundaries within the source (only synthetic spans do).
    pub fn snippet(&self, span: Span) -> (r: &str)
        ensures
            (span.lo <= span.hi && span.hi <= self.spec_bytes().len() && is_char_boundary(
                self.spec_bytes(),
                span.lo as int,
            ) && is_char_boundary(self.spec_bytes(), span.hi as int)) ==> r.spec_bytes()
                == self.spec_bytes().subrange(span.lo as int, span.hi as int),
            !(span.lo <= span.hi && span.hi <= self.spec_bytes().len() && is_char_boundary(
                self.spec_bytes(),
                span.lo as int,
            ) && is_char_boundary(self.spec_bytes(), span.hi as int)) ==> r@ == Seq::<char>::empty(),
    {
        match str_get(self.src.as_str(), span.lo as usize, span.hi as usize) {
            Some(t) => t,
            None => {
                proof {
                    reveal_strlit("");
                }
                ""
            },
        }
    }

    /// Translates a byte offset to a 1-based [`Location`].
    ///
    /// Offsets past the end of the file clamp to the final position. The line
    /// is one more than the number of newlines before the offset; the column is
    /// one more than the number of characters between the line's start and the
    /// offset.
    pub fn location(&self, offset: u32) -> (loc: Location)
        requires
            self.wf(),
            offset >= self.spec_bytes().len() || is_char_boundary(self.spec_bytes(), offset as int),
        ensures
            ({
                let off: nat = if offset >= self.spec_bytes().len() {
                    self.spec_bytes().len()
                } else {
                    offset as nat
                };
                &&& loc.line == line_starts_upto(self.spec_bytes(), off).len()
                &&& loc.column == 1 + decode_utf8(
                    self.spec_bytes().subrange(line_start_at(self.spec_bytes(), off), off as int),
                ).len()
            }),
    {
        let ghost b = encode_utf8(self.src@);
        let len = self.src.as_str().len();
        let clamped: u32 = if offset as usize >= len { len as u32 } else { offset };
        let ghost off: nat = clamped as nat;
        proof {
            lemma_line_starts_props(b, b.len());
            lemma_line_starts_extend(b, off, b.len());
            lemma_line_starts_props(b, off);
        }
        // Binary search for the last line start <= clamped.
        let n = self.line_starts.len();
        let mut lo: usize = 0;
        let mut hi: usize = n;
        while hi - lo > 1
            invariant
                0 <= lo < hi <= n,
                n == self.line_starts@.len(),
                self.line_starts@[lo as int] <= clamped,
                hi < n ==> self.line_starts@[hi as int] > clamped,
                forall|i: int| 0 <= i < self.line_starts@.len() ==>
                    self.line_starts@[i] as int == #[trigger] line_starts_upto(b, b.len())[i],
                forall|i: int, j: int|
                    0 <= i < j < line_starts_upto(b, b.len()).len() ==> line_starts_upto(b, b.len())[i] < line_starts_upto(b, b.len())[j],
            decreases hi - lo,
        {
            let mid = lo + (hi - lo) / 2;
            if self.line_starts[mid] <= clamped {
                lo = mid;
            } else {
                hi = mid;
            }
        }
        let line_idx = lo;
        let line_start = self.line_starts[line_idx];
        proof {
            let p = line_starts_upto(b, off);
            let l = line_starts_upto(b, b.len());
            assert(line_idx + 1 == p.len()) by {
                if line_idx + 1 < p.len() {
                    assert(l.take(p.len() as int)[line_idx + 1] == p[line_idx + 1]);
                }
                if line_idx + 1 > p.len() {
                    assert(l[p.len() - 1] == p[p.len() - 1]);
                    assert(l[line_idx as int] > off);
                }
            }
            assert(l.take(p.len() as int)[line_idx as int] == p[line_idx as int]);
            encode_utf8_valid_utf8(self.src@);
            lemma_line_start_boundary(b, off);
            is_char_boundary_start_end_of_seq(b);
        }
        let column: u32 = match str_get(self.src.as_str(), line_start as usize, clamped as usize) {
            Some(t) => {
                let cs = chars_of(t);
                proof {
                    encode_utf8_decode_utf8(t@);
                    lemma_encode_len_ge(t@);
                    assert(t.spec_bytes() == encode_utf8(t@));
                }
                (cs.len() + 1) as u32
            },
            None => 1,
        };
        assert(off == (if offset >= self.spec_bytes().len() { self.spec_bytes().len() } else { offset as nat }));
        assert(b == self.spec_bytes());
        assert(line_idx + 1 == line_starts_upto(b, off).len());
        assert(line_start as int == line_start_at(b, off));
        assert(column == 1 + decode_utf8(b.subrange(line_start_at(b, off), off as int)).len());
        Location { line: (line_idx + 1) as u32, column }
    }

    /// Returns the full text of the 1-based `line`, without its terminator
    /// (`""` for a line number outside the file).
    pub fn line_text(&self, line: u32) -> (r: &str)
        requires
            self.wf(),
        ensures
            (line == 0 || line > line_starts_upto(self.spec_bytes(), self.spec_bytes().len()).len())
                ==> r@ == Seq::<char>::empty(),
            ({
                let l = line_starts_upto(self.spec_bytes(), self.spec_bytes().len());
                (1 <= line <= l.len()) ==> r.spec_bytes() == trim_line_end(
                    self.spec_bytes().subrange(
                        l[line - 1],
                        if line < l.len() { l[line as int] } else { self.spec_bytes().len() as int },
                    ),
                )
            }),
    {
        let ghost b = encode_utf8(self.src@);
        let ghost l = line_starts_upto(b, b.len());
        if line == 0 || line as usize > self.line_starts.len() {
            proof {
                reveal_strlit("");
            }
            return "";
        }
        proof {
            lemma_line_starts_props(b, b.len());
        }
        let text = self.src.as_str();
        let bytes = text.as_bytes();
        let start = self.line_starts[(line - 1) as usize] as usize;
        let end: usize = if (line as usize) < self.line_starts.len() {
            self.line_starts[line as usize] as usize
        } else {
            bytes.len()
        };
        assert(start as int == l[line - 1]);
        assert((line as usize) < self.line_starts.len() ==> end as int == l[line as int]);
        let mut e = end;
        while e > start && (bytes[e - 1] == 10u8 || bytes[e - 1] == 13u8)
            invariant
                bytes@ == b,
                start <= e <= end <= b.len(),
                e < end ==> (b[e as int] == 10u8 || b[e as int] == 13u8),
                trim_line_end(b.subrange(start as int, end as int)) == trim_line_end(
                    b.subrange(start as int, e as int),
                ),
            decreases e,
        {
            assert(b.subrange(start as int, e as int).drop_last() =~= b.subrange(
                start as int,
                (e - 1) as int,
            ));
            e = e - 1;
        }
        proof {
            encode_utf8_valid_utf8(self.src@);
            lemma_line_starts_boundaries(b);
            is_char_boundary_start_end_of_seq(b);
            if e < end {
                is_char_boundary_iff_not_is_continuation_byte(b, e as int);
            }
            assert(trim_line_end(b.subrange(start as int, e as int)) == b.subrange(start as int, e as int));
        }
        match str_get(text, start, e) {
            Some(t) => t,
            None => {
                proof {
                    reveal_strlit("");
                }
                ""
            },
        }
    }

    /// The number of lines in the file (always at least 1).
    pub fn line_count(&self) -> (n: u32)
        requires
            self.wf(),
        ensures
            n == line_starts_upto(self.spec_bytes(), self.spec_bytes().len()).len(),
            n == 1 + newlines(self.spec_bytes(), self.spec_bytes().len()),
            n >= 1,
    {
        proof {
            lemma_line_count(self.spec_bytes(), self.spec_bytes().len());
            lemma_line_starts_props(encode_utf8(self.src@), encode_utf8(self.src@).len());
        }
        self.line_starts.len() as u32
    }
}

} // verus!
