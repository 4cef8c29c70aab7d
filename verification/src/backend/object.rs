//! A textual object format for compiled [`Program`]s.
//!
//! [`to_text`] serializes a program to a compact, line-oriented assembly
//! text, and [`from_text`] parses it back, so a program can be compiled once
//! and run later without recompiling from source. The format is a header
//! line naming the entry point, then for each function a header line, its
//! string constants (quoted, escaped) and its instructions, one per line.
//!
//! The text is read as lines (split at `\n`, a `\r` before it dropped), and
//! each line as words separated by white space.

use vstd::prelude::*;
use vstd::string::*;

use crate::backend::bytecode::{Chunk, Op, Program};
use crate::lexer::{is_whitespace, spec_whitespace};
use crate::sema::types::{builtin_name, Builtin};
use crate::parser::print::{bool_text, signed_text};
use crate::text::{cat3, chars_of, decimal, spec_digit, push_char, push_decimal, push_signed, push_str};

verus! {

// ---- lines, words and trimming ----

/// The index of the first `\n` at or after `i`, or the length.
pub open spec fn line_end(s: Seq<char>, i: nat) -> nat
    decreases s.len() - i,
{
    if i >= s.len() || s[i as int] == '\n' {
        i
    } else {
        line_end(s, i + 1)
    }
}

pub proof fn lemma_line_end(s: Seq<char>, i: nat)
    ensures
        i <= line_end(s, i),
        i <= s.len() ==> line_end(s, i) <= s.len(),
        line_end(s, i) < s.len() ==> s[line_end(s, i) as int] == '\n',
        forall|j: int| i <= j < line_end(s, i) ==> s[j] != '\n',
    decreases s.len() - i,
{
    if i < s.len() && s[i as int] != '\n' {
        lemma_line_end(s, i + 1);
    }
}

/// A line without the `\r` of a `\r\n` ending.
pub open spec fn strip_cr(l: Seq<char>) -> Seq<char> {
    if l.len() > 0 && l.last() == '\r' {
        l.drop_last()
    } else {
        l
    }
}

/// The lines of a text from index `i` on.
pub open spec fn lines_from(s: Seq<char>, i: nat) -> Seq<Seq<char>>
    decreases s.len() - i,
{
    if i >= s.len() {
        Seq::empty()
    } else {
        let k = line_end(s, i);
        proof {
            lemma_line_end(s, i);
        }
        if k >= s.len() {
            seq![s.subrange(i as int, s.len() as int)]
        } else {
            seq![strip_cr(s.subrange(i as int, k as int))] + lines_from(s, k + 1)
        }
    }
}

/// The lines of a text (`str::lines`): split at each `\n`, a `\r` before
/// it dropped; a final `\n` ends the last line rather than starting an empty
/// one.
pub open spec fn lines_of(s: Seq<char>) -> Seq<Seq<char>> {
    lines_from(s, 0)
}

/// How many leading characters remain once trailing white space is dropped
/// from the first `n`.
pub open spec fn kept_len(s: Seq<char>, n: nat) -> nat
    decreases n,
{
    if n > 0 && n <= s.len() && spec_whitespace(s[n - 1]) {
        kept_len(s, (n - 1) as nat)
    } else {
        n
    }
}

/// The text without its trailing white space.
pub open spec fn trim_end(s: Seq<char>) -> Seq<char> {
    s.take(kept_len(s, s.len()) as int)
}

/// The text without leading and trailing white space.
pub open spec fn trim(s: Seq<char>) -> Seq<char> {
    let t = trim_end(s);
    t.skip(skip_space(t, 0) as int)
}

/// The first index at or after `i` that is not white space, or the length.
pub open spec fn skip_space(s: Seq<char>, i: nat) -> nat
    decreases s.len() - i,
{
    if i >= s.len() || !spec_whitespace(s[i as int]) {
        i
    } else {
        skip_space(s, i + 1)
    }
}

/// The first index at or after `i` that is white space, or the length.
pub open spec fn skip_word(s: Seq<char>, i: nat) -> nat
    decreases s.len() - i,
{
    if i >= s.len() || spec_whitespace(s[i as int]) {
        i
    } else {
        skip_word(s, i + 1)
    }
}

pub proof fn lemma_skip_space(s: Seq<char>, i: nat)
    ensures
        i <= skip_space(s, i),
        i <= s.len() ==> skip_space(s, i) <= s.len(),
        skip_space(s, i) < s.len() ==> !spec_whitespace(s[skip_space(s, i) as int]),
        forall|j: int| i <= j < skip_space(s, i) ==> spec_whitespace(s[j]),
    decreases s.len() - i,
{
    if i < s.len() && spec_whitespace(s[i as int]) {
        lemma_skip_space(s, i + 1);
    }
}

pub proof fn lemma_skip_word(s: Seq<char>, i: nat)
    ensures
        i <= skip_word(s, i),
        i <= s.len() ==> skip_word(s, i) <= s.len(),
        skip_word(s, i) < s.len() ==> spec_whitespace(s[skip_word(s, i) as int]),
        forall|j: int| i <= j < skip_word(s, i) ==> !spec_whitespace(s[j]),
    decreases s.len() - i,
{
    if i < s.len() && !spec_whitespace(s[i as int]) {
        lemma_skip_word(s, i + 1);
    }
}

/// The words of a text from index `i` on (`str::split_whitespace`): the
/// maximal runs of characters that are not white space.
pub open spec fn words_from(s: Seq<char>, i: nat) -> Seq<Seq<char>>
    decreases s.len() - i,
{
    let a = skip_space(s, i);
    if a >= s.len() {
        Seq::empty()
    } else {
        let b = skip_word(s, a);
        proof {
            lemma_skip_space(s, i);
            lemma_skip_word(s, a);
            lemma_skip_word_moves(s, a);
        }
        seq![s.subrange(a as int, b as int)] + words_from(s, b)
    }
}

pub proof fn lemma_skip_word_moves(s: Seq<char>, a: nat)
    requires
        a < s.len(),
        !spec_whitespace(s[a as int]),
    ensures
        a < skip_word(s, a),
{
    lemma_skip_word(s, a + 1);
}

/// The words of a text.
pub open spec fn words(s: Seq<char>) -> Seq<Seq<char>> {
    words_from(s, 0)
}

// ---- numbers ----

/// Whether a character is an ASCII digit.
pub open spec fn is_digit(c: char) -> bool {
    '0' <= c <= '9'
}

/// The value of a string of decimal digits.
pub open spec fn digits_value(d: Seq<char>) -> nat
    decreases d.len(),
{
    if d.len() == 0 {
        0
    } else {
        digits_value(d.drop_last()) * 10 + (d.last() as nat - '0' as nat) as nat
    }
}

/// Whether every character is a digit.
pub open spec fn all_digits(d: Seq<char>) -> bool {
    forall|i: int| 0 <= i < d.len() ==> is_digit(#[trigger] d[i])
}

/// The unsigned number a word spells, at most `max` (`str::parse` for an
/// unsigned integer type): an optional `+`, then one or more digits.
pub open spec fn parse_nat(t: Seq<char>, max: nat) -> Option<nat> {
    let d = if t.len() > 0 && t[0] == '+' {
        t.skip(1)
    } else {
        t
    };
    if d.len() > 0 && all_digits(d) && digits_value(d) <= max {
        Some(digits_value(d))
    } else {
        None
    }
}

/// The `i64` a word spells (`str::parse::<i64>`): an optional sign, then one
/// or more digits, in range.
pub open spec fn parse_int(t: Seq<char>) -> Option<i64> {
    if t.len() > 0 && t[0] == '-' {
        let d = t.skip(1);
        if d.len() > 0 && all_digits(d) && digits_value(d) <= 0x8000_0000_0000_0000 {
            Some((-(digits_value(d) as int)) as i64)
        } else {
            None
        }
    } else {
        match parse_nat(t, i64::MAX as nat) {
            Some(v) => Some(v as i64),
            None => None,
        }
    }
}


// ---- executable text scanning ----

/// The characters `v[lo..hi]` as a vector.
fn slice_chars(v: &Vec<char>, lo: usize, hi: usize) -> (r: Vec<char>)
    requires
        lo <= hi <= v@.len(),
    ensures
        r@ == v@.subrange(lo as int, hi as int),
{
    let mut r: Vec<char> = Vec::new();
    let mut i: usize = lo;
    while i < hi
        invariant
            lo <= i <= hi <= v@.len(),
            r@ == v@.subrange(lo as int, i as int),
        decreases hi - i,
    {
        r.push(v[i]);
        assert(v@.subrange(lo as int, i + 1) =~= v@.subrange(lo as int, i as int).push(v@[i as int]));
        i = i + 1;
    }
    r
}

/// A string holding the given characters.
fn string_of(v: &Vec<char>) -> (s: String)
    ensures
        s@ == v@,
{
    let mut s = String::new();
    let mut i: usize = 0;
    while i < v.len()
        invariant
            i <= v@.len(),
            s@ == v@.take(i as int),
        decreases v@.len() - i,
    {
        push_char(&mut s, v[i]);
        assert(v@.take(i + 1) =~= v@.take(i as int).push(v@[i as int]));
        i = i + 1;
    }
    assert(v@.take(v@.len() as int) =~= v@);
    s
}

/// The views of a list of character vectors.
pub open spec fn views(v: Seq<Vec<char>>) -> Seq<Seq<char>> {
    v.map_values(|l: Vec<char>| l@)
}

/// Splits a text into lines: [`lines_of`].
fn split_lines(cs: &Vec<char>) -> (ls: Vec<Vec<char>>)
    ensures
        views(ls@) == lines_of(cs@),
{
    let n = cs.len();
    let mut out: Vec<Vec<char>> = Vec::new();
    let mut start: usize = 0;
    while start < n
        invariant
            n == cs@.len(),
            start <= n,
            views(out@) + lines_from(cs@, start as nat) == lines_of(cs@),
        decreases n - start,
    {
        let mut k: usize = start;
        while k < n && cs[k] != '\n'
            invariant
                start <= k <= n,
                n == cs@.len(),
                line_end(cs@, k as nat) == line_end(cs@, start as nat),
            decreases n - k,
        {
            k = k + 1;
        }
        let ghost rest = lines_from(cs@, start as nat);
        let mut line = slice_chars(cs, start, k);
        if k < n {
            let len = line.len();
            if len > 0 && line[len - 1] == '\r' {
                line.pop();
                assert(line@ =~= strip_cr(cs@.subrange(start as int, k as int)));
            }
            assert(rest == seq![strip_cr(cs@.subrange(start as int, k as int))] + lines_from(cs@, (k + 1) as nat));
            let ghost before = out@;
            out.push(line);
            proof {
                assert(views(out@) =~= views(before).push(line@));
                assert(views(out@) + lines_from(cs@, (k + 1) as nat) =~= views(before) + rest);
            }
            start = k + 1;
        } else {
            assert(rest == seq![cs@.subrange(start as int, n as int)]);
            let ghost before = out@;
            out.push(line);
            proof {
                assert(views(out@) =~= views(before).push(line@));
                assert(views(out@) + lines_from(cs@, n as nat) =~= views(before) + rest);
            }
            start = n;
        }
    }
    assert(views(out@) + lines_from(cs@, start as nat) =~= views(out@));
    out
}

/// Splits a text into words: [`words`].
fn split_words(cs: &Vec<char>) -> (ws: Vec<Vec<char>>)
    ensures
        views(ws@) == words(cs@),
{
    let n = cs.len();
    let mut out: Vec<Vec<char>> = Vec::new();
    let mut i: usize = 0;
    loop
        invariant
            n == cs@.len(),
            i <= n,
            views(out@) + words_from(cs@, i as nat) == words(cs@),
        decreases n - i,
    {
        let ghost rest = words_from(cs@, i as nat);
        let mut a: usize = i;
        while a < n && is_whitespace(cs[a])
            invariant
                i <= a <= n,
                n == cs@.len(),
                skip_space(cs@, a as nat) == skip_space(cs@, i as nat),
            decreases n - a,
        {
            a = a + 1;
        }
        if a >= n {
            assert(rest == Seq::<Seq<char>>::empty());
            assert(views(out@) =~= views(out@) + rest);
            return out;
        }
        let mut b: usize = a;
        while b < n && !is_whitespace(cs[b])
            invariant
                a <= b <= n,
                n == cs@.len(),
                skip_word(cs@, b as nat) == skip_word(cs@, a as nat),
            decreases n - b,
        {
            b = b + 1;
        }
        proof {
            lemma_skip_word_moves(cs@, a as nat);
        }
        let w = slice_chars(cs, a, b);
        assert(rest == seq![cs@.subrange(a as int, b as int)] + words_from(cs@, b as nat));
        let ghost before = out@;
        out.push(w);
        proof {
            assert(views(out@) =~= views(before).push(w@));
            assert(views(out@) + words_from(cs@, b as nat) =~= views(before) + rest);
        }
        i = b;
    }
}

/// The characters of a line without trailing white space: [`trim_end`].
fn trim_end_chars(cs: &Vec<char>) -> (r: Vec<char>)
    ensures
        r@ == trim_end(cs@),
{
    let mut n = cs.len();
    while n > 0 && is_whitespace(cs[n - 1])
        invariant
            n <= cs@.len(),
            kept_len(cs@, n as nat) == kept_len(cs@, cs@.len()),
        decreases n,
    {
        n = n - 1;
    }
    slice_chars(cs, 0, n)
}

/// The characters of a line without leading or trailing white space:
/// [`trim`].
fn trim_chars(cs: &Vec<char>) -> (r: Vec<char>)
    ensures
        r@ == trim(cs@),
{
    let t = trim_end_chars(cs);
    let n = t.len();
    let mut a: usize = 0;
    while a < n && is_whitespace(t[a])
        invariant
            a <= n,
            n == t@.len(),
            skip_space(t@, a as nat) == skip_space(t@, 0),
        decreases n - a,
    {
        a = a + 1;
    }
    let r = slice_chars(&t, a, n);
    assert(r@ =~= t@.skip(a as int));
    r
}


/// Appending a digit multiplies the value by ten and adds the digit.
proof fn lemma_digits_push(d: Seq<char>, k: int)
    requires
        0 <= k < d.len(),
    ensures
        digits_value(d.take(k + 1)) == digits_value(d.take(k)) * 10 + (d[k] as nat - '0' as nat) as nat,
{
    assert(d.take(k + 1).drop_last() =~= d.take(k));
}

/// Whether one more digit keeps a value within `max`.
proof fn lemma_fits(v: int, dig: int, max: int)
    by (nonlinear_arith)
    requires
        0 <= v,
        0 <= dig <= max,
    ensures
        (v * 10 + dig <= max) <==> (v <= (max - dig) / 10),
{
}

/// The value of the digits `t[from..]`, if they are one or more digits
/// worth at most `max`.
fn digits_from(t: &Vec<char>, from: usize, max: u64) -> (r: Option<u64>)
    requires
        from <= t@.len(),
    ensures
        ({
            let d = t@.skip(from as int);
            r == (if d.len() > 0 && all_digits(d) && digits_value(d) <= max {
                Some(digits_value(d) as u64)
            } else {
                None
            })
        }),
{
    let ghost d = t@.skip(from as int);
    let n = t.len();
    if from >= n {
        return None;
    }
    let mut v: u64 = 0;
    let mut big = false;
    let mut i: usize = from;
    while i < n
        invariant
            from <= i <= n,
            n == t@.len(),
            d == t@.skip(from as int),
            all_digits(d.take(i - from)),
            big <==> digits_value(d.take(i - from)) > max,
            !big ==> v == digits_value(d.take(i - from)),
        decreases n - i,
    {
        let c = t[i];
        if c < '0' || c > '9' {
            proof {
                assert(!is_digit(d[i - from]));
                assert(!all_digits(d));
            }
            return None;
        }
        let dig = (c as u32 - '0' as u32) as u64;
        proof {
            lemma_digits_push(d, i - from);
            assert(d.take(i - from + 1) =~= d.take(i - from).push(c));
        }
        if !big {
            if dig > max {
                big = true;
            } else {
                proof {
                    lemma_fits(v as int, dig as int, max as int);
                }
                if v > (max - dig) / 10 {
                    big = true;
                } else {
                    v = v * 10 + dig;
                }
            }
        }
        i = i + 1;
    }
    proof {
        assert(d.take(n - from) =~= d);
    }
    if big {
        None
    } else {
        Some(v)
    }
}

/// The unsigned number a word spells, at most `max`: [`parse_nat`].
fn parse_nat_chars(t: &Vec<char>, max: u64) -> (r: Option<u64>)
    ensures
        r matches Some(v) ==> parse_nat(t@, max as nat) == Some(v as nat),
        r is None ==> parse_nat(t@, max as nat) is None,
{
    if t.len() > 0 && t[0] == '+' {
        digits_from(t, 1, max)
    } else {
        let r = digits_from(t, 0, max);
        assert(t@.skip(0) =~= t@);
        r
    }
}

/// The `i64` a word spells: [`parse_int`].
fn parse_int_chars(t: &Vec<char>) -> (r: Option<i64>)
    ensures
        r == parse_int(t@),
{
    if t.len() > 0 && t[0] == '-' {
        match digits_from(t, 1, 0x8000_0000_0000_0000) {
            Some(m) => {
                if m == 0x8000_0000_0000_0000 {
                    assert((-(m as int)) as i64 == i64::MIN);
                    Some(i64::MIN)
                } else {
                    Some(-(m as i64))
                }
            },
            None => None,
        }
    } else {
        match parse_nat_chars(t, 0x7fff_ffff_ffff_ffff) {
            Some(v) => Some(v as i64),
            None => None,
        }
    }
}


// ---- quoted strings ----

/// How a character is written inside a quoted constant.
pub open spec fn escape_char(c: char) -> Seq<char> {
    if c == '"' {
        seq!['\\', '"']
    } else if c == '\\' {
        seq!['\\', '\\']
    } else if c == '\n' {
        seq!['\\', 'n']
    } else if c == '\t' {
        seq!['\\', 't']
    } else if c == '\r' {
        seq!['\\', 'r']
    } else {
        seq![c]
    }
}

/// A text with each character escaped.
pub open spec fn escaped(s: Seq<char>) -> Seq<char>
    decreases s.len(),
{
    if s.len() == 0 {
        Seq::empty()
    } else {
        escaped(s.drop_last()) + escape_char(s.last())
    }
}

/// A constant in double quotes, escaped.
pub open spec fn quoted(s: Seq<char>) -> Seq<char> {
    seq!['"'] + escaped(s) + seq!['"']
}

/// Quotes a string constant with escapes the reader understands.
fn quote(s: &str) -> (r: String)
    ensures
        r@ == quoted(s@),
{
    let cs = chars_of(s);
    let mut out = String::new();
    push_char(&mut out, '"');
    let mut i: usize = 0;
    while i < cs.len()
        invariant
            i <= cs@.len(),
            cs@ == s@,
            out@ == seq!['"'] + escaped(s@.take(i as int)),
        decreases cs@.len() - i,
    {
        let c = cs[i];
        let ghost before = out@;
        if c == '"' {
            push_char(&mut out, '\\');
            push_char(&mut out, '"');
        } else if c == '\\' {
            push_char(&mut out, '\\');
            push_char(&mut out, '\\');
        } else if c == '\n' {
            push_char(&mut out, '\\');
            push_char(&mut out, 'n');
        } else if c == '\t' {
            push_char(&mut out, '\\');
            push_char(&mut out, 't');
        } else if c == '\r' {
            push_char(&mut out, '\\');
            push_char(&mut out, 'r');
        } else {
            push_char(&mut out, c);
        }
        proof {
            assert(s@.take(i + 1).drop_last() =~= s@.take(i as int));
            assert(out@ =~= before + escape_char(c));
        }
        i = i + 1;
    }
    push_char(&mut out, '"');
    assert(s@.take(cs@.len() as int) =~= s@);
    out
}

/// The character an escape `\c` stands for.
pub open spec fn unescape_char(c: char) -> char {
    if c == 'n' {
        '\n'
    } else if c == 't' {
        '\t'
    } else if c == 'r' {
        '\r'
    } else {
        c
    }
}

/// The text an escaped body stands for, from index `i` on.
pub open spec fn unescape_from(s: Seq<char>, i: nat) -> Result<Seq<char>, Seq<char>>
    decreases s.len() - i,
{
    if i >= s.len() {
        Ok(Seq::empty())
    } else if s[i as int] == '\\' {
        if i + 1 >= s.len() {
            Err("dangling escape"@)
        } else {
            match unescape_from(s, i + 2) {
                Ok(r) => Ok(seq![unescape_char(s[i + 1 as int])] + r),
                Err(e) => Err(e),
            }
        }
    } else {
        match unescape_from(s, i + 1) {
            Ok(r) => Ok(seq![s[i as int]] + r),
            Err(e) => Err(e),
        }
    }
}

/// The constant a quoted word stands for.
pub open spec fn unquoted(t: Seq<char>) -> Result<Seq<char>, Seq<char>> {
    if t.len() >= 2 && t[0] == '"' && t.last() == '"' {
        unescape_from(t.subrange(1, t.len() - 1), 0)
    } else {
        Err("unquoted string"@)
    }
}

/// `acc` put before the text of a result.
pub open spec fn prefixed(acc: Seq<char>, r: Result<Seq<char>, Seq<char>>) -> Result<Seq<char>, Seq<char>> {
    match r {
        Ok(t) => Ok(acc + t),
        Err(e) => Err(e),
    }
}

/// Parses a quoted, escaped string constant: [`unquoted`].
fn unquote(t: &Vec<char>) -> (r: Result<String, String>)
    ensures
        r matches Ok(s) ==> unquoted(t@) == Ok::<Seq<char>, Seq<char>>(s@),
        r matches Err(e) ==> unquoted(t@) == Err::<Seq<char>, Seq<char>>(e@),
{
    proof {
        reveal_strlit("unquoted string");
        reveal_strlit("dangling escape");
    }
    let n = t.len();
    if n < 2 || t[0] != '"' || t[n - 1] != '"' {
        return Err("unquoted string".to_owned());
    }
    let body = slice_chars(t, 1, n - 1);
    let m = body.len();
    assert(unquoted(t@) == unescape_from(body@, 0));
    let mut out = String::new();
    let mut i: usize = 0;
    while i < m
        invariant
            i <= m,
            m == body@.len(),
            prefixed(out@, unescape_from(body@, i as nat)) == unescape_from(body@, 0),
            unquoted(t@) == unescape_from(body@, 0),
        decreases m - i,
    {
        let c = body[i];
        if c == '\\' {
            if i + 1 >= m {
                assert(unescape_from(body@, i as nat) == Err::<Seq<char>, Seq<char>>("dangling escape"@));
                return Err("dangling escape".to_owned());
            }
            let e = body[i + 1];
            let u = if e == 'n' {
                '\n'
            } else if e == 't' {
                '\t'
            } else if e == 'r' {
                '\r'
            } else {
                e
            };
            let ghost before = out@;
            push_char(&mut out, u);
            proof {
                match unescape_from(body@, (i + 2) as nat) {
                    Ok(rest) => assert(out@ + rest =~= before + (seq![u] + rest)),
                    Err(_) => {},
                }
            }
            i = i + 2;
        } else {
            let ghost before = out@;
            push_char(&mut out, c);
            proof {
                match unescape_from(body@, (i + 1) as nat) {
                    Ok(rest) => assert(out@ + rest =~= before + (seq![c] + rest)),
                    Err(_) => {},
                }
            }
            i = i + 1;
        }
    }
    assert(out@ + Seq::<char>::empty() =~= out@);
    Ok(out)
}


// ---- float literals ----

/// ASCII lower-casing of one character.
pub open spec fn ascii_lower(c: char) -> char {
    if 'A' <= c <= 'Z' {
        ((c as u32) + 32) as char
    } else {
        c
    }
}

/// Whether a word is `w` (lower case), ignoring ASCII case.
pub open spec fn same_word(r: Seq<char>, w: Seq<char>) -> bool {
    r.len() == w.len() && forall|i: int| 0 <= i < r.len() ==> ascii_lower(#[trigger] r[i]) == w[i]
}

/// The number of `.` in a text.
pub open spec fn dot_count(m: Seq<char>) -> nat
    decreases m.len(),
{
    if m.len() == 0 {
        0
    } else {
        dot_count(m.drop_last()) + if m.last() == '.' {
            1nat
        } else {
            0nat
        }
    }
}

/// The index of the first `e` or `E` at or after `i`, or the length.
pub open spec fn exp_start(r: Seq<char>, i: nat) -> nat
    decreases r.len() - i,
{
    if i >= r.len() || r[i as int] == 'e' || r[i as int] == 'E' {
        i
    } else {
        exp_start(r, i + 1)
    }
}

/// A mantissa: digits with at most one `.`, and at least one digit.
pub open spec fn mantissa_ok(m: Seq<char>) -> bool {
    &&& forall|i: int| 0 <= i < m.len() ==> is_digit(#[trigger] m[i]) || m[i] == '.'
    &&& exists|i: int| 0 <= i < m.len() && is_digit(#[trigger] m[i])
    &&& dot_count(m) <= 1
}

/// An exponent: nothing, or `e`/`E`, an optional sign, and one or more
/// digits.
pub open spec fn exponent_ok(e: Seq<char>) -> bool {
    e.len() == 0 || {
        let d = if e.len() > 1 && (e[1] == '+' || e[1] == '-') {
            e.skip(2)
        } else {
            e.skip(1)
        };
        (e[0] == 'e' || e[0] == 'E') && d.len() > 0 && all_digits(d)
    }
}

/// Whether a word is a floating-point literal the `f64` reader accepts: an
/// optional sign, then `inf`, `infinity` or `nan` in any case, or a decimal
/// number with an optional exponent.
pub open spec fn float_syntax(t: Seq<char>) -> bool {
    let r = if t.len() > 0 && (t[0] == '+' || t[0] == '-') {
        t.skip(1)
    } else {
        t
    };
    let k = exp_start(r, 0);
    same_word(r, "inf"@) || same_word(r, "infinity"@) || same_word(r, "nan"@) || (mantissa_ok(r.take(k as int))
        && exponent_ok(r.skip(k as int)))
}

fn lower_char(c: char) -> (r: char)
    ensures
        r == ascii_lower(c),
{
    if 'A' <= c && c <= 'Z' {
        ((c as u32 + 32) as u8) as char
    } else {
        c
    }
}

/// Whether `r[from..]` is the word `w`, ignoring ASCII case.
fn is_word(r: &Vec<char>, from: usize, w: &str) -> (b: bool)
    requires
        from <= r@.len(),
    ensures
        b == same_word(r@.skip(from as int), w@),
{
    let wc = chars_of(w);
    let n = r.len() - from;
    if n != wc.len() {
        return false;
    }
    let mut i: usize = 0;
    while i < n
        invariant
            i <= n,
            from + n == r.len(),
            n == r@.len() - from,
            n == wc@.len(),
            wc@ == w@,
            forall|j: int| 0 <= j < i ==> ascii_lower(r@[from + j]) == w@[j],
        decreases n - i,
    {
        if lower_char(r[from + i]) != wc[i] {
            assert(ascii_lower(r@.skip(from as int)[i as int]) != w@[i as int]);
            return false;
        }
        i = i + 1;
    }
    assert forall|j: int| 0 <= j < n implies ascii_lower(#[trigger] r@.skip(from as int)[j]) == w@[j] by {
        assert(r@.skip(from as int)[j] == r@[from + j]);
    }
    true
}

/// Whether a word is a floating-point literal: [`float_syntax`].
fn is_float_literal(t: &Vec<char>) -> (b: bool)
    ensures
        b == float_syntax(t@),
{
    proof {
        reveal_strlit("inf");
        reveal_strlit("infinity");
        reveal_strlit("nan");
    }
    let from: usize = if t.len() > 0 && (t[0] == '+' || t[0] == '-') {
        1
    } else {
        0
    };
    let ghost r = t@.skip(from as int);
    assert(from == 0 ==> r =~= t@);
    if is_word(t, from, "inf") || is_word(t, from, "infinity") || is_word(t, from, "nan") {
        return true;
    }
    let n = t.len();
    // The mantissa runs to the first `e` or `E`.
    let mut k: usize = from;
    let mut digits = false;
    let mut dots: usize = 0;
    let mut chars_ok = true;
    while k < n && t[k] != 'e' && t[k] != 'E'
        invariant
            from <= k <= n,
            n == t@.len(),
            r == t@.skip(from as int),
            exp_start(r, (k - from) as nat) == exp_start(r, 0),
            chars_ok <==> forall|i: int| 0 <= i < k - from ==> is_digit(#[trigger] r[i]) || r[i] == '.',
            digits <==> exists|i: int| 0 <= i < k - from && is_digit(#[trigger] r[i]),
            dots as nat == dot_count(r.take(k - from)),
            dots <= k - from,
        decreases n - k,
    {
        let c = t[k];
        let ghost before = r.take(k - from);
        proof {
            assert(r[k - from] == c);
            assert(r.take(k - from + 1).drop_last() =~= before);
        }
        if '0' <= c && c <= '9' {
            digits = true;
        } else if c == '.' {
            dots = dots + 1;
        } else {
            chars_ok = false;
        }
        k = k + 1;
    }
    let ghost m = r.take(k - from);
    assert(exp_start(r, (k - from) as nat) == (k - from) as nat);
    proof {
        if chars_ok {
            assert forall|i: int| 0 <= i < m.len() implies is_digit(#[trigger] m[i]) || m[i] == '.' by {
                assert(m[i] == r[i]);
            }
        } else {
            let i = choose|i: int| 0 <= i < k - from && !(is_digit(#[trigger] r[i]) || r[i] == '.');
            assert(m[i] == r[i]);
            assert(!(is_digit(m[i]) || m[i] == '.'));
        }
    }
    let mantissa = chars_ok && digits && dots <= 1;
    proof {
        if digits {
            let i = choose|i: int| 0 <= i < k - from && is_digit(#[trigger] r[i]);
            assert(is_digit(m[i]));
        }
        if exists|i: int| 0 <= i < m.len() && is_digit(#[trigger] m[i]) {
            let i = choose|i: int| 0 <= i < m.len() && is_digit(#[trigger] m[i]);
            assert(is_digit(r[i]));
        }
    }
    assert(m.len() == k - from);
    assert(chars_ok == (forall|i: int| 0 <= i < m.len() ==> is_digit(#[trigger] m[i]) || m[i] == '.'));
    assert(digits == (exists|i: int| 0 <= i < m.len() && is_digit(#[trigger] m[i])));
    assert((dots <= 1) == (dot_count(m) <= 1));
    assert(mantissa == mantissa_ok(m));
    // The exponent: `e`/`E`, an optional sign, and one or more digits.
    let ghost e = r.skip(k - from);
    let exponent = if k >= n {
        assert(e.len() == 0);
        true
    } else {
        let mut d: usize = k + 1;
        if d < n && (t[d] == '+' || t[d] == '-') {
            d = d + 1;
        }
        let ghost ds = t@.skip(d as int);
        assert(ds =~= if e.len() > 1 && (e[1] == '+' || e[1] == '-') {
            e.skip(2)
        } else {
            e.skip(1)
        });
        if d >= n {
            false
        } else {
            let mut j: usize = d;
            let mut all = true;
            while j < n
                invariant
                    d <= j <= n,
                    n == t@.len(),
                    ds == t@.skip(d as int),
                    all <==> forall|i: int| 0 <= i < j - d ==> is_digit(#[trigger] ds[i]),
                decreases n - j,
            {
                if t[j] < '0' || t[j] > '9' {
                    all = false;
                }
                assert(ds[j - d] == t@[j as int]);
                j = j + 1;
            }
            all
        }
    };
    assert(exponent == exponent_ok(e));
    mantissa && exponent
}


// ---- writing ----

/// Words joined by single spaces.
pub open spec fn joined(ws: Seq<Seq<char>>) -> Seq<char>
    decreases ws.len(),
{
    if ws.len() == 0 {
        Seq::empty()
    } else if ws.len() == 1 {
        ws[0]
    } else {
        joined(ws.drop_last()) + " "@ + ws.last()
    }
}

/// The mnemonic word of an instruction.
pub open spec fn op_mnemonic(op: Op) -> Seq<char> {
    match op {
        Op::PushInt(_) => "push_int"@,
        Op::PushFloat(_) => "push_float"@,
        Op::PushBool(_) => "push_bool"@,
        Op::PushUnit => "push_unit"@,
        Op::PushStr(_) => "push_str"@,
        Op::LoadLocal(_) => "load_local"@,
        Op::StoreLocal(_) => "store_local"@,
        Op::Pop => "pop"@,
        Op::AddInt => "add_int"@,
        Op::SubInt => "sub_int"@,
        Op::MulInt => "mul_int"@,
        Op::DivInt => "div_int"@,
        Op::RemInt => "rem_int"@,
        Op::NegInt => "neg_int"@,
        Op::AddFloat => "add_float"@,
        Op::SubFloat => "sub_float"@,
        Op::MulFloat => "mul_float"@,
        Op::DivFloat => "div_float"@,
        Op::RemFloat => "rem_float"@,
        Op::NegFloat => "neg_float"@,
        Op::LtInt => "lt_int"@,
        Op::LeInt => "le_int"@,
        Op::GtInt => "gt_int"@,
        Op::GeInt => "ge_int"@,
        Op::LtFloat => "lt_float"@,
        Op::LeFloat => "le_float"@,
        Op::GtFloat => "gt_float"@,
        Op::GeFloat => "ge_float"@,
        Op::ConcatStr => "concat_str"@,
        Op::MakeArray(_) => "make_array"@,
        Op::Index => "index"@,
        Op::SetIndex => "set_index"@,
        Op::ArrayLen => "array_len"@,
        Op::Eq => "eq"@,
        Op::Ne => "ne"@,
        Op::NotBool => "not_bool"@,
        Op::Jump(_) => "jump"@,
        Op::JumpIfFalse(_) => "jump_if_false"@,
        Op::Call { .. } => "call"@,
        Op::CallBuiltin { .. } => "call_builtin"@,
        Op::Return => "return"@,
    }
}

/// The operand words of an instruction.
pub open spec fn op_operands(op: Op) -> Seq<Seq<char>> {
    match op {
        Op::PushInt(v) => seq![signed_text(v)],
        Op::PushFloat(t) => seq![t@],
        Op::PushBool(b) => seq![bool_text(b)],
        Op::PushStr(k) => seq![decimal(k as nat)],
        Op::LoadLocal(n) => seq![decimal(n as nat)],
        Op::StoreLocal(n) => seq![decimal(n as nat)],
        Op::MakeArray(n) => seq![decimal(n as nat)],
        Op::Jump(t) => seq![decimal(t as nat)],
        Op::JumpIfFalse(t) => seq![decimal(t as nat)],
        Op::Call { func, argc } => seq![decimal(func as nat), decimal(argc as nat)],
        Op::CallBuiltin { builtin, argc } => seq![builtin_name(builtin), decimal(argc as nat)],
        _ => Seq::empty(),
    }
}

/// The words of an instruction's line.
pub open spec fn op_words(op: Op) -> Seq<Seq<char>> {
    seq![op_mnemonic(op)] + op_operands(op)
}

/// The line of a string constant.
pub open spec fn const_line(c: Seq<char>) -> Seq<char> {
    "  const "@ + quoted(c)
}

/// The line of an instruction.
pub open spec fn op_line(op: Op) -> Seq<char> {
    "  "@ + joined(op_words(op))
}

/// The words of a function's header line.
pub open spec fn chunk_header_words(c: Chunk) -> Seq<Seq<char>> {
    seq![
        "fn"@,
        c.name@,
        "params="@ + decimal(c.n_params as nat),
        "locals="@ + decimal(c.n_locals as nat),
        "consts="@ + decimal(c.consts@.len()),
        "code="@ + decimal(c.code@.len()),
    ]
}

/// The lines of one function: its header, one line per string constant,
/// one line per instruction.
pub open spec fn chunk_lines(c: Chunk) -> Seq<Seq<char>> {
    seq![joined(chunk_header_words(c))] + c.consts@.map_values(|k: String| const_line(k@))
        + c.code@.map_values(|op: Op| op_line(op))
}

/// The lines of a list of functions, one after another.
pub open spec fn chunks_lines(fs: Seq<Chunk>) -> Seq<Seq<char>>
    decreases fs.len(),
{
    if fs.len() == 0 {
        Seq::empty()
    } else {
        chunk_lines(fs[0]) + chunks_lines(fs.skip(1))
    }
}

/// The words of the object's first line.
pub open spec fn object_header_words(main: usize) -> Seq<Seq<char>> {
    seq!["lumen-obj"@, "1"@, "main="@ + decimal(main as nat)]
}

/// The lines of a program's object text.
pub open spec fn object_lines(p: &Program) -> Seq<Seq<char>> {
    seq![joined(object_header_words(p.main))] + chunks_lines(p.functions@)
}

/// Lines, each ended by `\n`.
pub open spec fn unlines(ls: Seq<Seq<char>>) -> Seq<char>
    decreases ls.len(),
{
    if ls.len() == 0 {
        Seq::empty()
    } else {
        unlines(ls.drop_last()) + ls.last() + "\n"@
    }
}

/// The object text of a program.
pub open spec fn object_text(p: &Program) -> Seq<char> {
    unlines(object_lines(p))
}

pub proof fn lemma_unlines_one(x: Seq<char>)
    ensures
        unlines(seq![x]) == x + "\n"@,
{
    assert(seq![x].drop_last() =~= Seq::<Seq<char>>::empty());
    assert(unlines(Seq::<Seq<char>>::empty()) == Seq::<char>::empty());
    assert(unlines(seq![x]) == unlines(seq![x].drop_last()) + seq![x].last() + "\n"@);
    assert(Seq::<char>::empty() + x + "\n"@ =~= x + "\n"@);
}

pub proof fn lemma_unlines_append(a: Seq<Seq<char>>, b: Seq<Seq<char>>)
    ensures
        unlines(a + b) == unlines(a) + unlines(b),
    decreases b.len(),
{
    if b.len() == 0 {
        assert(a + b =~= a);
    } else {
        lemma_unlines_append(a, b.drop_last());
        assert((a + b).drop_last() =~= a + b.drop_last());
    }
}

pub proof fn lemma_chunks_lines_push(fs: Seq<Chunk>, c: Chunk)
    ensures
        chunks_lines(fs.push(c)) == chunks_lines(fs) + chunk_lines(c),
    decreases fs.len(),
{
    if fs.len() == 0 {
        assert(fs.push(c).skip(1) =~= Seq::<Chunk>::empty());
        assert(fs.push(c)[0] == c);
        assert(chunks_lines(Seq::<Chunk>::empty()) == Seq::<Seq<char>>::empty());
        assert(chunks_lines(fs) == Seq::<Seq<char>>::empty());
        assert(chunks_lines(fs.push(c)) =~= chunk_lines(c) + Seq::<Seq<char>>::empty());
    } else {
        lemma_chunks_lines_push(fs.skip(1), c);
        assert(fs.push(c).skip(1) =~= fs.skip(1).push(c));
        assert(fs.push(c)[0] == fs[0]);
        assert(chunks_lines(fs.push(c)) =~= chunks_lines(fs) + chunk_lines(c));
    }
}


pub proof fn lemma_joined_push(ws: Seq<Seq<char>>, w: Seq<char>)
    requires
        ws.len() >= 1,
    ensures
        joined(ws.push(w)) == joined(ws) + " "@ + w,
{
    assert(ws.push(w).drop_last() =~= ws);
}

/// The mnemonic of an instruction: [`op_mnemonic`].
fn mnemonic(op: &Op) -> (s: &'static str)
    ensures
        s@ == op_mnemonic(*op),
{
    match op {
        Op::PushInt(_) => "push_int",
        Op::PushFloat(_) => "push_float",
        Op::PushBool(_) => "push_bool",
        Op::PushUnit => "push_unit",
        Op::PushStr(_) => "push_str",
        Op::LoadLocal(_) => "load_local",
        Op::StoreLocal(_) => "store_local",
        Op::Pop => "pop",
        Op::AddInt => "add_int",
        Op::SubInt => "sub_int",
        Op::MulInt => "mul_int",
        Op::DivInt => "div_int",
        Op::RemInt => "rem_int",
        Op::NegInt => "neg_int",
        Op::AddFloat => "add_float",
        Op::SubFloat => "sub_float",
        Op::MulFloat => "mul_float",
        Op::DivFloat => "div_float",
        Op::RemFloat => "rem_float",
        Op::NegFloat => "neg_float",
        Op::LtInt => "lt_int",
        Op::LeInt => "le_int",
        Op::GtInt => "gt_int",
        Op::GeInt => "ge_int",
        Op::LtFloat => "lt_float",
        Op::LeFloat => "le_float",
        Op::GtFloat => "gt_float",
        Op::GeFloat => "ge_float",
        Op::ConcatStr => "concat_str",
        Op::MakeArray(_) => "make_array",
        Op::Index => "index",
        Op::SetIndex => "set_index",
        Op::ArrayLen => "array_len",
        Op::Eq => "eq",
        Op::Ne => "ne",
        Op::NotBool => "not_bool",
        Op::Jump(_) => "jump",
        Op::JumpIfFalse(_) => "jump_if_false",
        Op::Call { .. } => "call",
        Op::CallBuiltin { .. } => "call_builtin",
        Op::Return => "return",
    }
}

/// Appends one instruction's line: [`op_line`].
fn push_op_line(out: &mut String, op: &Op)
    ensures
        final(out)@ == old(out)@ + op_line(*op),
{
    proof {
        reveal_strlit("  ");
        reveal_strlit(" ");
        reveal_strlit("\n");
        reveal_strlit("true");
        reveal_strlit("false");
    }
    let ghost start = out@;
    let ghost m = op_mnemonic(*op);
    let ghost ws = op_words(*op);
    push_str(out, "  ");
    push_str(out, mnemonic(op));
    let ghost after_m = out@;
    match op {
        Op::PushInt(v) => {
            push_str(out, " ");
            push_signed(out, *v);
            proof {
                lemma_joined_push(seq![m], signed_text(*v));
                assert(ws =~= seq![m].push(signed_text(*v)));
            }
        },
        Op::PushFloat(t) => {
            push_str(out, " ");
            push_str(out, t.as_str());
            proof {
                lemma_joined_push(seq![m], t@);
                assert(ws =~= seq![m].push(t@));
            }
        },
        Op::PushBool(b) => {
            push_str(out, " ");
            push_str(out, if *b { "true" } else { "false" });
            proof {
                lemma_joined_push(seq![m], bool_text(*b));
                assert(ws =~= seq![m].push(bool_text(*b)));
            }
        },
        Op::PushStr(n) | Op::LoadLocal(n) | Op::StoreLocal(n) | Op::MakeArray(n) => {
            push_str(out, " ");
            push_decimal(out, *n as u64);
            proof {
                lemma_joined_push(seq![m], decimal(*n as nat));
                assert(ws =~= seq![m].push(decimal(*n as nat)));
            }
        },
        Op::Jump(t) | Op::JumpIfFalse(t) => {
            push_str(out, " ");
            push_decimal(out, *t as u64);
            proof {
                lemma_joined_push(seq![m], decimal(*t as nat));
                assert(ws =~= seq![m].push(decimal(*t as nat)));
            }
        },
        Op::Call { func, argc } => {
            push_str(out, " ");
            push_decimal(out, *func as u64);
            push_str(out, " ");
            push_decimal(out, *argc as u64);
            proof {
                lemma_joined_push(seq![m], decimal(*func as nat));
                lemma_joined_push(seq![m, decimal(*func as nat)], decimal(*argc as nat));
                assert(seq![m].push(decimal(*func as nat)) =~= seq![m, decimal(*func as nat)]);
                assert(ws =~= seq![m, decimal(*func as nat)].push(decimal(*argc as nat)));
            }
        },
        Op::CallBuiltin { builtin, argc } => {
            push_str(out, " ");
            push_str(out, builtin.name());
            push_str(out, " ");
            push_decimal(out, *argc as u64);
            proof {
                lemma_joined_push(seq![m], builtin_name(*builtin));
                lemma_joined_push(seq![m, builtin_name(*builtin)], decimal(*argc as nat));
                assert(seq![m].push(builtin_name(*builtin)) =~= seq![m, builtin_name(*builtin)]);
                assert(ws =~= seq![m, builtin_name(*builtin)].push(decimal(*argc as nat)));
            }
        },
        _ => {
            assert(ws =~= seq![m]);
        },
    }
    assert(out@ =~= start + op_line(*op));
}


/// Appends a function's header words, joined.
fn push_chunk_header(out: &mut String, chunk: &Chunk)
    ensures
        final(out)@ == old(out)@ + joined(chunk_header_words(*chunk)),
{
    proof {
        reveal_strlit("fn");
        reveal_strlit(" ");
    }
    let ghost start = out@;
    let ghost hw = chunk_header_words(*chunk);
    push_str(out, "fn");
    push_str(out, " ");
    push_str(out, chunk.name.as_str());
    proof {
        lemma_joined_push(seq!["fn"@], chunk.name@);
        assert(out@ =~= start + joined(seq!["fn"@].push(chunk.name@)));
    }
    let ghost w2 = seq!["fn"@, chunk.name@];
    assert(seq!["fn"@].push(chunk.name@) =~= w2);
    push_str(out, " ");
    push_str(out, "params=");
    push_decimal(out, chunk.n_params as u64);
    proof {
        lemma_joined_push(w2, hw[2]);
        assert(out@ =~= start + joined(w2.push(hw[2])));
    }
    let ghost w3 = w2.push(hw[2]);
    push_str(out, " ");
    push_str(out, "locals=");
    push_decimal(out, chunk.n_locals as u64);
    proof {
        lemma_joined_push(w3, hw[3]);
        assert(out@ =~= start + joined(w3.push(hw[3])));
    }
    let ghost w4 = w3.push(hw[3]);
    push_str(out, " ");
    push_str(out, "consts=");
    push_decimal(out, chunk.consts.len() as u64);
    proof {
        lemma_joined_push(w4, hw[4]);
        assert(out@ =~= start + joined(w4.push(hw[4])));
    }
    let ghost w5 = w4.push(hw[4]);
    push_str(out, " ");
    push_str(out, "code=");
    push_decimal(out, chunk.code.len() as u64);
    proof {
        lemma_joined_push(w5, hw[5]);
        assert(w5.push(hw[5]) =~= hw);
        assert(out@ =~= start + joined(hw));
    }
}

/// Appends one function's lines.
fn push_chunk(out: &mut String, chunk: &Chunk)
    ensures
        final(out)@ == old(out)@ + unlines(chunk_lines(*chunk)),
{
    let ghost start = out@;
    push_chunk_header(out, chunk);
    push_str(out, "\n");
    let ghost mut acc: Seq<Seq<char>> = seq![joined(chunk_header_words(*chunk))];
    proof {
        lemma_unlines_one(joined(chunk_header_words(*chunk)));
    }
    assert(out@ =~= start + unlines(acc));
    let mut i: usize = 0;
    while i < chunk.consts.len()
        invariant
            i <= chunk.consts@.len(),
            acc == seq![joined(chunk_header_words(*chunk))] + chunk.consts@.take(i as int).map_values(
                |k: String| const_line(k@),
            ),
            out@ == start + unlines(acc),
        decreases chunk.consts@.len() - i,
    {
        push_str(out, "  const ");
        let q = quote(chunk.consts[i].as_str());
        push_str(out, q.as_str());
        push_str(out, "\n");
        proof {
            let l = const_line(chunk.consts@[i as int]@);
            assert(acc.push(l).drop_last() =~= acc);
            assert(out@ =~= start + unlines(acc.push(l)));
            acc = acc.push(l);
            assert(acc =~= seq![joined(chunk_header_words(*chunk))] + chunk.consts@.take(i + 1).map_values(
                |k: String| const_line(k@),
            ));
        }
        i = i + 1;
    }
    assert(chunk.consts@.take(chunk.consts@.len() as int) =~= chunk.consts@);
    let ghost head = acc;
    let mut j: usize = 0;
    while j < chunk.code.len()
        invariant
            j <= chunk.code@.len(),
            acc == head + chunk.code@.take(j as int).map_values(|op: Op| op_line(op)),
            out@ == start + unlines(acc),
        decreases chunk.code@.len() - j,
    {
        push_op_line(out, &chunk.code[j]);
        push_str(out, "\n");
        proof {
            let l = op_line(chunk.code@[j as int]);
            assert(acc.push(l).drop_last() =~= acc);
            assert(out@ =~= start + unlines(acc.push(l)));
            acc = acc.push(l);
            assert(acc =~= head + chunk.code@.take(j + 1).map_values(|op: Op| op_line(op)));
        }
        j = j + 1;
    }
    assert(chunk.code@.take(chunk.code@.len() as int) =~= chunk.code@);
    assert(acc =~= chunk_lines(*chunk));
}

/// Serializes a program to object text: [`object_text`].
pub fn to_text(program: &Program) -> (s: String)
    ensures
        s@ == object_text(program),
{
    proof {
        reveal_strlit("lumen-obj");
        reveal_strlit("1");
        reveal_strlit(" ");
    }
    let mut out = String::new();
    push_str(&mut out, "lumen-obj");
    push_str(&mut out, " ");
    push_str(&mut out, "1");
    push_str(&mut out, " ");
    push_str(&mut out, "main=");
    push_decimal(&mut out, program.main as u64);
    let ghost h = joined(object_header_words(program.main));
    proof {
        let hw = object_header_words(program.main);
        lemma_joined_push(seq![hw[0]], hw[1]);
        assert(seq![hw[0]].push(hw[1]) =~= seq![hw[0], hw[1]]);
        lemma_joined_push(seq![hw[0], hw[1]], hw[2]);
        assert(seq![hw[0], hw[1]].push(hw[2]) =~= hw);
        assert(out@ =~= h);
    }
    push_str(&mut out, "\n");
    proof {
        lemma_unlines_one(h);
        assert(out@ =~= unlines(seq![h]));
    }
    let mut k: usize = 0;
    while k < program.functions.len()
        invariant
            k <= program.functions@.len(),
            out@ == unlines(seq![h] + chunks_lines(program.functions@.take(k as int))),
        decreases program.functions@.len() - k,
    {
        let ghost before = seq![h] + chunks_lines(program.functions@.take(k as int));
        push_chunk(&mut out, &program.functions[k]);
        proof {
            let c = program.functions@[k as int];
            lemma_unlines_append(before, chunk_lines(c));
            lemma_chunks_lines_push(program.functions@.take(k as int), c);
            assert(program.functions@.take(k as int).push(c) =~= program.functions@.take(k + 1));
            assert(before + chunk_lines(c) =~= seq![h] + chunks_lines(program.functions@.take(k + 1)));
        }
        k = k + 1;
    }
    assert(program.functions@.take(program.functions@.len() as int) =~= program.functions@);
    out
}

// ---- reading ----

/// Whether `w` begins with `p`.
pub open spec fn has_prefix(w: Seq<char>, p: Seq<char>) -> bool {
    w.len() >= p.len() && w.take(p.len() as int) == p
}

/// The value of the first word at or after `i` that starts with `main=`,
/// without that prefix.
pub open spec fn main_field(ws: Seq<Seq<char>>, i: nat) -> Option<Seq<char>>
    decreases ws.len() - i,
{
    if i >= ws.len() {
        None
    } else if has_prefix(ws[i as int], "main="@) {
        Some(ws[i as int].skip(5))
    } else {
        main_field(ws, i + 1)
    }
}

/// The index of the first `=` at or after `i`, or the length.
pub open spec fn eq_index(w: Seq<char>, i: nat) -> nat
    decreases w.len() - i,
{
    if i >= w.len() || w[i as int] == '=' {
        i
    } else {
        eq_index(w, i + 1)
    }
}

/// The parameter, local, constant and instruction counts of a header line.
pub struct HeaderCounts {
    pub params: nat,
    pub locals: nat,
    pub consts: nat,
    pub code: nat,
}

/// The counts given by the `key=value` words from index `i` on, later
/// keys overriding earlier ones, or the first error.
pub open spec fn header_fields(ws: Seq<Seq<char>>, i: nat, acc: HeaderCounts) -> Result<HeaderCounts, Seq<char>>
    decreases ws.len() - i,
{
    if i >= ws.len() {
        Ok(acc)
    } else {
        let w = ws[i as int];
        let e = eq_index(w, 0);
        if e >= w.len() {
            Err("malformed key=value"@)
        } else {
            match parse_nat(w.skip(e + 1 as int), usize::MAX as nat) {
                None => Err("invalid count"@),
                Some(n) => {
                    let k = w.take(e as int);
                    if k == "params"@ {
                        header_fields(ws, i + 1, HeaderCounts { params: n, ..acc })
                    } else if k == "locals"@ {
                        header_fields(ws, i + 1, HeaderCounts { locals: n, ..acc })
                    } else if k == "consts"@ {
                        header_fields(ws, i + 1, HeaderCounts { consts: n, ..acc })
                    } else if k == "code"@ {
                        header_fields(ws, i + 1, HeaderCounts { code: n, ..acc })
                    } else {
                        Err("unknown header field `"@ + k + "`"@)
                    }
                },
            }
        }
    }
}

/// A function header line read: its name and counts, or the error.
pub open spec fn fn_header(line: Seq<char>) -> Result<(Seq<char>, HeaderCounts), Seq<char>> {
    let ws = words(line);
    if ws.len() == 0 || ws[0] != "fn"@ {
        Err("expected `fn`, got: "@ + line)
    } else if ws.len() < 2 {
        Err("missing function name"@)
    } else {
        match header_fields(ws, 2, HeaderCounts { params: 0, locals: 0, consts: 0, code: 0 }) {
            Ok(c) => Ok((ws[1], c)),
            Err(e) => Err(e),
        }
    }
}

/// The error of a numeric operand at index `i`: missing, or not a number
/// up to `max`.
pub open spec fn operand_error(ws: Seq<Seq<char>>, i: int, max: nat, missing: Seq<char>, bad: Seq<char>) -> Option<Seq<char>> {
    if ws.len() <= i {
        Some(missing)
    } else if parse_nat(ws[i], max) is None {
        Some(bad)
    } else {
        None
    }
}

/// The mnemonics of the instructions without operands (`push_bool` reads
/// its operand leniently and is not among them).
pub open spec fn plain_mnemonic(m: Seq<char>) -> bool {
    m == "push_unit"@ || m == "pop"@ || m == "add_int"@ || m == "sub_int"@ || m == "mul_int"@ || m
        == "div_int"@ || m == "rem_int"@ || m == "neg_int"@ || m == "add_float"@ || m == "sub_float"@
        || m == "mul_float"@ || m == "div_float"@ || m == "rem_float"@ || m == "neg_float"@ || m
        == "lt_int"@ || m == "le_int"@ || m == "gt_int"@ || m == "ge_int"@ || m == "lt_float"@ || m
        == "le_float"@ || m == "gt_float"@ || m == "ge_float"@ || m == "concat_str"@ || m == "index"@
        || m == "set_index"@ || m == "array_len"@ || m == "eq"@ || m == "ne"@ || m == "not_bool"@
        || m == "return"@
}

/// Why the words of an instruction line spell no instruction, if they do
/// not.
pub open spec fn op_error(ws: Seq<Seq<char>>) -> Option<Seq<char>> {
    let u32_max = u32::MAX as nat;
    let usize_max = usize::MAX as nat;
    if ws.len() == 0 {
        Some("empty instruction"@)
    } else {
        let m = ws[0];
        if m == "push_int"@ {
            if ws.len() < 2 {
                Some("missing int"@)
            } else if parse_int(ws[1]) is None {
                Some("bad int"@)
            } else {
                None
            }
        } else if m == "push_float"@ {
            if ws.len() < 2 {
                Some("missing float"@)
            } else if !float_syntax(ws[1]) {
                Some("bad float"@)
            } else {
                None
            }
        } else if m == "push_bool"@ {
            None
        } else if m == "push_str"@ {
            operand_error(ws, 1, u32_max, "missing idx"@, "bad u32"@)
        } else if m == "load_local"@ || m == "store_local"@ || m == "make_array"@ {
            operand_error(ws, 1, u32_max, "missing n"@, "bad u32"@)
        } else if m == "jump"@ || m == "jump_if_false"@ {
            operand_error(ws, 1, usize_max, "missing target"@, "bad usize"@)
        } else if m == "call"@ {
            if operand_error(ws, 1, usize_max, "missing func"@, "bad usize"@) is Some {
                operand_error(ws, 1, usize_max, "missing func"@, "bad usize"@)
            } else {
                operand_error(ws, 2, u32_max, "missing argc"@, "bad u32"@)
            }
        } else if m == "call_builtin"@ {
            if ws.len() < 2 {
                Some("missing builtin"@)
            } else if forall|b: Builtin| builtin_name(b) != ws[1] {
                Some("unknown builtin `"@ + ws[1] + "`"@)
            } else {
                operand_error(ws, 2, u32_max, "missing argc"@, "bad u32"@)
            }
        } else if plain_mnemonic(m) {
            None
        } else {
            Some("unknown instruction `"@ + m + "`"@)
        }
    }
}

/// The argument count an operand word gives: the `u32` it spells, cut to
/// its low eight bits.
pub open spec fn argc_of(w: Seq<char>) -> Option<u8> {
    match parse_nat(w, u32::MAX as nat) {
        Some(n) => Some((n % 256) as u8),
        None => None,
    }
}

/// Whether the words of an instruction line spell `op`.
pub open spec fn op_spelled(ws: Seq<Seq<char>>, op: Op) -> bool {
    &&& ws.len() > 0
    &&& ws[0] == op_mnemonic(op)
    &&& match op {
        Op::PushInt(v) => ws.len() > 1 && parse_int(ws[1]) == Some(v),
        Op::PushFloat(t) => ws.len() > 1 && t@ == ws[1],
        Op::PushBool(b) => b == (ws.len() > 1 && ws[1] == "true"@),
        Op::PushStr(k) => ws.len() > 1 && parse_nat(ws[1], u32::MAX as nat) == Some(k as nat),
        Op::LoadLocal(k) => ws.len() > 1 && parse_nat(ws[1], u32::MAX as nat) == Some(k as nat),
        Op::StoreLocal(k) => ws.len() > 1 && parse_nat(ws[1], u32::MAX as nat) == Some(k as nat),
        Op::MakeArray(k) => ws.len() > 1 && parse_nat(ws[1], u32::MAX as nat) == Some(k as nat),
        Op::Jump(t) => ws.len() > 1 && parse_nat(ws[1], usize::MAX as nat) == Some(t as nat),
        Op::JumpIfFalse(t) => ws.len() > 1 && parse_nat(ws[1], usize::MAX as nat) == Some(t as nat),
        Op::Call { func, argc } => ws.len() > 2 && parse_nat(ws[1], usize::MAX as nat) == Some(func as nat)
            && argc_of(ws[2]) == Some(argc),
        Op::CallBuiltin { builtin, argc } => ws.len() > 2 && builtin_name(builtin) == ws[1] && argc_of(ws[2])
            == Some(argc),
        _ => true,
    }
}

/// The string constants of the `n` lines from `pos` on, or the first error.
pub open spec fn read_consts(ls: Seq<Seq<char>>, pos: nat, n: nat) -> Result<Seq<Seq<char>>, Seq<char>>
    decreases n,
{
    if n == 0 {
        Ok(Seq::empty())
    } else if pos >= ls.len() {
        Err("unexpected end in consts"@)
    } else {
        let l = trim(ls[pos as int]);
        if !has_prefix(l, "const "@) {
            Err("expected const line"@)
        } else {
            match unquoted(l.skip(6)) {
                Err(e) => Err(e),
                Ok(c) => match read_consts(ls, pos + 1, (n - 1) as nat) {
                    Ok(rest) => Ok(seq![c] + rest),
                    Err(e) => Err(e),
                },
            }
        }
    }
}

/// The words of the `n` instruction lines from `pos` on, or the first error.
pub open spec fn read_code(ls: Seq<Seq<char>>, pos: nat, n: nat) -> Result<Seq<Seq<Seq<char>>>, Seq<char>>
    decreases n,
{
    if n == 0 {
        Ok(Seq::empty())
    } else if pos >= ls.len() {
        Err("unexpected end in code"@)
    } else {
        let ws = words(trim(ls[pos as int]));
        match op_error(ws) {
            Some(e) => Err(e),
            None => match read_code(ls, pos + 1, (n - 1) as nat) {
                Ok(rest) => Ok(seq![ws] + rest),
                Err(e) => Err(e),
            },
        }
    }
}

pub proof fn lemma_read_consts_lines(ls: Seq<Seq<char>>, pos: nat, n: nat)
    ensures
        read_consts(ls, pos, n) is Ok ==> pos + n <= ls.len() || n == 0,
        read_consts(ls, pos, n) matches Ok(cs) ==> cs.len() == n,
    decreases n,
{
    if n > 0 && pos < ls.len() {
        lemma_read_consts_lines(ls, pos + 1, (n - 1) as nat);
    }
}

pub proof fn lemma_read_code_lines(ls: Seq<Seq<char>>, pos: nat, n: nat)
    ensures
        read_code(ls, pos, n) is Ok ==> pos + n <= ls.len() || n == 0,
        read_code(ls, pos, n) matches Ok(cs) ==> cs.len() == n,
    decreases n,
{
    if n > 0 && pos < ls.len() {
        lemma_read_code_lines(ls, pos + 1, (n - 1) as nat);
    }
}

/// What the text says of one function: its name, counts, string constants
/// and the words of each instruction line.
pub struct ChunkPlan {
    pub name: Seq<char>,
    pub params: nat,
    pub locals: nat,
    pub consts: Seq<Seq<char>>,
    pub code: Seq<Seq<Seq<char>>>,
}

/// The functions described by the lines from `pos` on, or the first error;
/// lines that are empty once trailing white space is dropped are skipped.
pub open spec fn read_chunks(ls: Seq<Seq<char>>, pos: nat) -> Result<Seq<ChunkPlan>, Seq<char>>
    decreases ls.len() - pos,
{
    if pos >= ls.len() {
        Ok(Seq::empty())
    } else {
        let line = trim_end(ls[pos as int]);
        if line.len() == 0 {
            read_chunks(ls, pos + 1)
        } else {
            match fn_header(line) {
                Err(e) => Err(e),
                Ok((name, h)) => match read_consts(ls, pos + 1, h.consts) {
                    Err(e) => Err(e),
                    Ok(consts) => match read_code(ls, pos + 1 + h.consts, h.code) {
                        Err(e) => Err(e),
                        Ok(code) => {
                            proof {
                                lemma_read_consts_lines(ls, pos + 1, h.consts);
                                lemma_read_code_lines(ls, pos + 1 + h.consts, h.code);
                            }
                            let plan = ChunkPlan {
                                name,
                                params: h.params,
                                locals: h.locals,
                                consts,
                                code,
                            };
                            match read_chunks(ls, pos + 1 + h.consts + h.code) {
                                Ok(rest) => Ok(seq![plan] + rest),
                                Err(e) => Err(e),
                            }
                        },
                    },
                },
            }
        }
    }
}

/// An object text read: its entry index and functions, or the first error.
pub open spec fn read_object(t: Seq<char>) -> Result<(nat, Seq<ChunkPlan>), Seq<char>> {
    let ls = lines_of(t);
    if ls.len() == 0 {
        Err("empty object"@)
    } else {
        match main_field(words(ls[0]), 0) {
            None => Err("missing main= in header"@),
            Some(v) => match parse_nat(v, usize::MAX as nat) {
                None => Err("invalid main index"@),
                Some(m) => match read_chunks(ls, 1) {
                    Ok(cs) => Ok((m, cs)),
                    Err(e) => Err(e),
                },
            },
        }
    }
}

/// Whether a function is the one a plan describes.
pub open spec fn chunk_fits(c: Chunk, p: ChunkPlan) -> bool {
    &&& c.name@ == p.name
    &&& c.n_params == p.params
    &&& c.n_locals == p.locals
    &&& c.consts@.len() == p.consts.len()
    &&& forall|i: int| 0 <= i < p.consts.len() ==> (#[trigger] c.consts@[i])@ == p.consts[i]
    &&& c.code@.len() == p.code.len()
    &&& forall|i: int| 0 <= i < p.code.len() ==> op_spelled(p.code[i], #[trigger] c.code@[i])
}


/// Whether a word is exactly `s`.
fn word_is(w: &Vec<char>, s: &str) -> (b: bool)
    ensures
        b == (w@ == s@),
{
    let sc = chars_of(s);
    if w.len() != sc.len() {
        return false;
    }
    let mut i: usize = 0;
    while i < w.len()
        invariant
            i <= w@.len(),
            w@.len() == sc@.len(),
            sc@ == s@,
            forall|j: int| 0 <= j < i ==> w@[j] == sc@[j],
        decreases w@.len() - i,
    {
        if w[i] != sc[i] {
            return false;
        }
        i = i + 1;
    }
    assert(w@ =~= sc@);
    true
}

/// Whether a word begins with `p`: [`has_prefix`].
fn starts_with(w: &Vec<char>, p: &str) -> (b: bool)
    ensures
        b == has_prefix(w@, p@),
{
    let pc = chars_of(p);
    if w.len() < pc.len() {
        return false;
    }
    let mut i: usize = 0;
    while i < pc.len()
        invariant
            i <= pc@.len() <= w@.len(),
            pc@ == p@,
            forall|j: int| 0 <= j < i ==> w@[j] == pc@[j],
        decreases pc@.len() - i,
    {
        if w[i] != pc[i] {
            assert(w@.take(p@.len() as int)[i as int] != p@[i as int]);
            return false;
        }
        i = i + 1;
    }
    assert(w@.take(p@.len() as int) =~= p@);
    true
}

/// The value of the first `main=` word: [`main_field`].
fn find_main(ws: &Vec<Vec<char>>) -> (r: Option<Vec<char>>)
    ensures
        r matches Some(v) ==> main_field(views(ws@), 0) == Some(v@),
        r is None ==> main_field(views(ws@), 0) is None,
{
    let ghost vs = views(ws@);
    let mut i: usize = 0;
    while i < ws.len()
        invariant
            i <= ws@.len(),
            vs == views(ws@),
            main_field(vs, i as nat) == main_field(vs, 0),
        decreases ws@.len() - i,
    {
        assert(vs[i as int] == ws@[i as int]@);
        proof {
            reveal_strlit("main=");
        }
        if starts_with(&ws[i], "main=") {
            let v = slice_chars(&ws[i], 5, ws[i].len());
            assert(v@ =~= vs[i as int].skip(5));
            return Some(v);
        }
        i = i + 1;
    }
    None
}

/// The index of the first `=` in a word: [`eq_index`].
fn eq_pos(w: &Vec<char>) -> (r: usize)
    ensures
        r as nat == eq_index(w@, 0),
        r <= w@.len(),
{
    let mut i: usize = 0;
    while i < w.len() && w[i] != '='
        invariant
            i <= w@.len(),
            eq_index(w@, i as nat) == eq_index(w@, 0),
        decreases w@.len() - i,
    {
        i = i + 1;
    }
    i
}


/// A function header line read by [`parse_fn_header`].
struct FnHeader {
    name: String,
    params: usize,
    locals: usize,
    consts: usize,
    code: usize,
}

/// The counts of a header as read.
pub open spec fn counts(params: usize, locals: usize, consts: usize, code: usize) -> HeaderCounts {
    HeaderCounts { params: params as nat, locals: locals as nat, consts: consts as nat, code: code as nat }
}

/// Reads a function header line: [`fn_header`].
fn parse_fn_header(line: &Vec<char>) -> (r: Result<FnHeader, String>)
    ensures
        r matches Ok(h) ==> fn_header(line@) == Ok::<(Seq<char>, HeaderCounts), Seq<char>>(
            (h.name@, counts(h.params, h.locals, h.consts, h.code)),
        ),
        r matches Err(e) ==> fn_header(line@) == Err::<(Seq<char>, HeaderCounts), Seq<char>>(e@),
{
    let ws = split_words(line);
    let ghost vs = views(ws@);
    assert(vs.len() == ws@.len());
    if ws.len() == 0 || !word_is(&ws[0], "fn") {
        proof {
            if ws@.len() > 0 {
                assert(vs[0] == ws@[0]@);
            }
        }
        let l = string_of(line);
        let mut msg = "expected `fn`, got: ".to_owned();
        push_str(&mut msg, l.as_str());
        return Err(msg);
    }
    assert(vs[0] == ws@[0]@);
    if ws.len() < 2 {
        return Err("missing function name".to_owned());
    }
    let name = string_of(&ws[1]);
    assert(vs[1] == ws@[1]@);
    let mut params: usize = 0;
    let mut locals: usize = 0;
    let mut consts: usize = 0;
    let mut code: usize = 0;
    let mut i: usize = 2;
    while i < ws.len()
        invariant
            2 <= i <= ws@.len(),
            vs == views(ws@),
            vs == words(line@),
            vs[0] == "fn"@,
            header_fields(vs, i as nat, counts(params, locals, consts, code)) == header_fields(
                vs,
                2,
                HeaderCounts { params: 0, locals: 0, consts: 0, code: 0 },
            ),
        decreases ws@.len() - i,
    {
        let w = &ws[i];
        assert(vs[i as int] == w@);
        let e = eq_pos(w);
        if e >= w.len() {
            return Err("malformed key=value".to_owned());
        }
        let v = slice_chars(w, e + 1, w.len());
        assert(v@ =~= w@.skip(e + 1 as int));
        let n: usize = match parse_nat_chars(&v, usize::MAX as u64) {
            None => {
                return Err("invalid count".to_owned());
            },
            Some(n) => n as usize,
        };
        let k = slice_chars(w, 0, e);
        assert(k@ =~= w@.take(e as int));
        if word_is(&k, "params") {
            params = n;
        } else if word_is(&k, "locals") {
            locals = n;
        } else if word_is(&k, "consts") {
            consts = n;
        } else if word_is(&k, "code") {
            code = n;
        } else {
            let ks = string_of(&k);
            return Err(cat3("unknown header field `", ks.as_str(), "`"));
        }
        i = i + 1;
    }
    Ok(FnHeader { name, params, locals, consts, code })
}


/// The instruction without operands a mnemonic names, if any.
fn plain_op(m: &Vec<char>) -> (r: Option<Op>)
    ensures
        r matches Some(op) ==> plain_mnemonic(m@) && op_mnemonic(op) == m@ && forall|ws: Seq<Seq<char>>|
            ws.len() > 0 && ws[0] == m@ ==> #[trigger] op_spelled(ws, op),
        r is None ==> !plain_mnemonic(m@),
{
    if word_is(m, "push_unit") {
        Some(Op::PushUnit)
    } else if word_is(m, "pop") {
        Some(Op::Pop)
    } else if word_is(m, "add_int") {
        Some(Op::AddInt)
    } else if word_is(m, "sub_int") {
        Some(Op::SubInt)
    } else if word_is(m, "mul_int") {
        Some(Op::MulInt)
    } else if word_is(m, "div_int") {
        Some(Op::DivInt)
    } else if word_is(m, "rem_int") {
        Some(Op::RemInt)
    } else if word_is(m, "neg_int") {
        Some(Op::NegInt)
    } else if word_is(m, "add_float") {
        Some(Op::AddFloat)
    } else if word_is(m, "sub_float") {
        Some(Op::SubFloat)
    } else if word_is(m, "mul_float") {
        Some(Op::MulFloat)
    } else if word_is(m, "div_float") {
        Some(Op::DivFloat)
    } else if word_is(m, "rem_float") {
        Some(Op::RemFloat)
    } else if word_is(m, "neg_float") {
        Some(Op::NegFloat)
    } else if word_is(m, "lt_int") {
        Some(Op::LtInt)
    } else if word_is(m, "le_int") {
        Some(Op::LeInt)
    } else if word_is(m, "gt_int") {
        Some(Op::GtInt)
    } else if word_is(m, "ge_int") {
        Some(Op::GeInt)
    } else if word_is(m, "lt_float") {
        Some(Op::LtFloat)
    } else if word_is(m, "le_float") {
        Some(Op::LeFloat)
    } else if word_is(m, "gt_float") {
        Some(Op::GtFloat)
    } else if word_is(m, "ge_float") {
        Some(Op::GeFloat)
    } else if word_is(m, "concat_str") {
        Some(Op::ConcatStr)
    } else if word_is(m, "index") {
        Some(Op::Index)
    } else if word_is(m, "set_index") {
        Some(Op::SetIndex)
    } else if word_is(m, "array_len") {
        Some(Op::ArrayLen)
    } else if word_is(m, "eq") {
        Some(Op::Eq)
    } else if word_is(m, "ne") {
        Some(Op::Ne)
    } else if word_is(m, "not_bool") {
        Some(Op::NotBool)
    } else if word_is(m, "return") {
        Some(Op::Return)
    } else {
        None
    }
}

/// A numeric operand at index `i`, at most `max`, with its error messages.
fn operand(ws: &Vec<Vec<char>>, i: usize, max: u64, missing: &str, bad: &str) -> (r: Result<u64, String>)
    ensures
        r matches Ok(v) ==> operand_error(views(ws@), i as int, max as nat, missing@, bad@) is None
            && parse_nat(views(ws@)[i as int], max as nat) == Some(v as nat),
        r matches Err(e) ==> operand_error(views(ws@), i as int, max as nat, missing@, bad@) == Some(e@),
{
    if ws.len() <= i {
        return Err(missing.to_owned());
    }
    assert(views(ws@)[i as int] == ws@[i as int]@);
    match parse_nat_chars(&ws[i], max) {
        Some(v) => Ok(v),
        None => Err(bad.to_owned()),
    }
}

/// Reads the words of an instruction line: [`op_error`], [`op_spelled`].
fn parse_op(ws: &Vec<Vec<char>>) -> (r: Result<Op, String>)
    ensures
        r matches Ok(op) ==> op_error(views(ws@)) is None && op_spelled(views(ws@), op),
        r matches Err(e) ==> op_error(views(ws@)) == Some(e@),
{
    let ghost vs = views(ws@);
    if ws.len() == 0 {
        return Err("empty instruction".to_owned());
    }
    let m = &ws[0];
    assert(vs[0] == m@);
    proof {
        if ws@.len() > 1 {
            assert(vs[1] == ws@[1]@);
        }
        if ws@.len() > 2 {
            assert(vs[2] == ws@[2]@);
        }
    }
    if word_is(m, "push_int") {
        if ws.len() < 2 {
            return Err("missing int".to_owned());
        }
        match parse_int_chars(&ws[1]) {
            Some(v) => Ok(Op::PushInt(v)),
            None => Err("bad int".to_owned()),
        }
    } else if word_is(m, "push_float") {
        if ws.len() < 2 {
            return Err("missing float".to_owned());
        }
        if is_float_literal(&ws[1]) {
            Ok(Op::PushFloat(string_of(&ws[1])))
        } else {
            Err("bad float".to_owned())
        }
    } else if word_is(m, "push_bool") {
        proof {
            reveal_strlit("true");
        }
        let b = ws.len() > 1 && word_is(&ws[1], "true");
        Ok(Op::PushBool(b))
    } else if word_is(m, "push_str") {
        let k = operand(ws, 1, u32::MAX as u64, "missing idx", "bad u32")?;
        Ok(Op::PushStr(k as u32))
    } else if word_is(m, "load_local") {
        let k = operand(ws, 1, u32::MAX as u64, "missing n", "bad u32")?;
        Ok(Op::LoadLocal(k as u32))
    } else if word_is(m, "store_local") {
        let k = operand(ws, 1, u32::MAX as u64, "missing n", "bad u32")?;
        Ok(Op::StoreLocal(k as u32))
    } else if word_is(m, "make_array") {
        let k = operand(ws, 1, u32::MAX as u64, "missing n", "bad u32")?;
        Ok(Op::MakeArray(k as u32))
    } else if word_is(m, "jump") {
        let t = operand(ws, 1, usize::MAX as u64, "missing target", "bad usize")?;
        Ok(Op::Jump(t as usize))
    } else if word_is(m, "jump_if_false") {
        let t = operand(ws, 1, usize::MAX as u64, "missing target", "bad usize")?;
        Ok(Op::JumpIfFalse(t as usize))
    } else if word_is(m, "call") {
        let func = operand(ws, 1, usize::MAX as u64, "missing func", "bad usize")?;
        let argc = operand(ws, 2, u32::MAX as u64, "missing argc", "bad u32")?;
        Ok(Op::Call { func: func as usize, argc: (argc % 256) as u8 })
    } else if word_is(m, "call_builtin") {
        if ws.len() < 2 {
            return Err("missing builtin".to_owned());
        }
        let name = string_of(&ws[1]);
        match Builtin::from_name(name.as_str()) {
            None => Err(cat3("unknown builtin `", name.as_str(), "`")),
            Some(builtin) => {
                let argc = operand(ws, 2, u32::MAX as u64, "missing argc", "bad u32")?;
                Ok(Op::CallBuiltin { builtin, argc: (argc % 256) as u8 })
            },
        }
    } else {
        match plain_op(m) {
            Some(op) => Ok(op),
            None => {
                let ms = string_of(m);
                Err(cat3("unknown instruction `", ms.as_str(), "`"))
            },
        }
    }
}


/// `done` put before the items of a result.
pub open spec fn then_seq<A>(done: Seq<A>, r: Result<Seq<A>, Seq<char>>) -> Result<Seq<A>, Seq<char>> {
    match r {
        Ok(rest) => Ok(done + rest),
        Err(e) => Err(e),
    }
}

/// The string constants of `n` lines from `pos` on: [`read_consts`].
fn read_const_lines(ls: &Vec<Vec<char>>, pos: usize, n: usize) -> (r: Result<Vec<String>, String>)
    ensures
        r matches Ok(v) ==> (read_consts(views(ls@), pos as nat, n as nat) matches Ok(cs) && v@.len()
            == cs.len() && forall|i: int| 0 <= i < cs.len() ==> (#[trigger] v@[i])@ == cs[i]),
        r matches Err(e) ==> read_consts(views(ls@), pos as nat, n as nat) == Err::<Seq<Seq<char>>, Seq<char>>(
            e@,
        ),
{
    let ghost lv = views(ls@);
    let mut out: Vec<String> = Vec::new();
    let ghost mut got: Seq<Seq<char>> = Seq::empty();
    let mut j: usize = 0;
    let mut p: usize = pos;
    while j < n
        invariant
            j <= n,
            p == pos + j,
            lv == views(ls@),
            read_consts(lv, pos as nat, n as nat) == then_seq(got, read_consts(lv, p as nat, (n - j) as nat)),
            out@.len() == got.len(),
            forall|i: int| 0 <= i < got.len() ==> (#[trigger] out@[i])@ == got[i],
        decreases n - j,
    {
        if p >= ls.len() {
            return Err("unexpected end in consts".to_owned());
        }
        assert(lv[p as int] == ls@[p as int]@);
        let l = trim_chars(&ls[p]);
        proof {
            reveal_strlit("const ");
        }
        if !starts_with(&l, "const ") {
            return Err("expected const line".to_owned());
        }
        let body = slice_chars(&l, 6, l.len());
        assert(body@ =~= l@.skip(6));
        let c = unquote(&body)?;
        proof {
            match read_consts(lv, (p + 1) as nat, (n - j - 1) as nat) {
                Ok(rest) => assert(got + (seq![c@] + rest) =~= got.push(c@) + rest),
                Err(_) => {},
            }
            got = got.push(c@);
        }
        out.push(c);
        j = j + 1;
        p = p + 1;
    }
    assert(got + Seq::<Seq<char>>::empty() =~= got);
    Ok(out)
}

/// The instructions of `n` lines from `pos` on: [`read_code`].
fn read_code_lines(ls: &Vec<Vec<char>>, pos: usize, n: usize) -> (r: Result<Vec<Op>, String>)
    ensures
        r matches Ok(v) ==> (read_code(views(ls@), pos as nat, n as nat) matches Ok(wss) && v@.len()
            == wss.len() && forall|i: int| 0 <= i < wss.len() ==> op_spelled(wss[i], #[trigger] v@[i])),
        r matches Err(e) ==> read_code(views(ls@), pos as nat, n as nat) == Err::<Seq<Seq<Seq<char>>>, Seq<char>>(
            e@,
        ),
{
    let ghost lv = views(ls@);
    let mut out: Vec<Op> = Vec::new();
    let ghost mut got: Seq<Seq<Seq<char>>> = Seq::empty();
    let mut j: usize = 0;
    let mut p: usize = pos;
    while j < n
        invariant
            j <= n,
            p == pos + j,
            lv == views(ls@),
            read_code(lv, pos as nat, n as nat) == then_seq(got, read_code(lv, p as nat, (n - j) as nat)),
            out@.len() == got.len(),
            forall|i: int| 0 <= i < got.len() ==> op_spelled(got[i], #[trigger] out@[i]),
        decreases n - j,
    {
        if p >= ls.len() {
            return Err("unexpected end in code".to_owned());
        }
        assert(lv[p as int] == ls@[p as int]@);
        let l = trim_chars(&ls[p]);
        let ws = split_words(&l);
        let op = parse_op(&ws)?;
        proof {
            let w = views(ws@);
            match read_code(lv, (p + 1) as nat, (n - j - 1) as nat) {
                Ok(rest) => assert(got + (seq![w] + rest) =~= got.push(w) + rest),
                Err(_) => {},
            }
            got = got.push(w);
        }
        out.push(op);
        j = j + 1;
        p = p + 1;
    }
    assert(got + Seq::<Seq<Seq<char>>>::empty() =~= got);
    Ok(out)
}


/// Whether `q` is the program a text describes.
pub open spec fn read_as(t: Seq<char>, q: &Program) -> bool {
    &&& read_object(t) matches Ok((m, plans))
    &&& q.main == m
    &&& q.functions@.len() == plans.len()
    &&& forall|i: int| 0 <= i < plans.len() ==> chunk_fits(#[trigger] q.functions@[i], plans[i])
}

/// The result a read gives once the entry index is known.
pub open spec fn with_main(m: nat, r: Result<Seq<ChunkPlan>, Seq<char>>) -> Result<(nat, Seq<ChunkPlan>), Seq<char>> {
    match r {
        Ok(cs) => Ok((m, cs)),
        Err(e) => Err(e),
    }
}

/// Parses object text back into a program: [`read_object`]. On success
/// each function is the one its plan describes.
pub fn from_text(text: &str) -> (r: Result<Program, String>)
    ensures
        r matches Ok(p) ==> read_as(text@, &p),
        r matches Err(e) ==> read_object(text@) == Err::<(nat, Seq<ChunkPlan>), Seq<char>>(e@),
{
    let cs = chars_of(text);
    let ls = split_lines(&cs);
    let ghost lv = views(ls@);
    if ls.len() == 0 {
        return Err("empty object".to_owned());
    }
    assert(lv[0] == ls@[0]@);
    let hw = split_words(&ls[0]);
    let v = match find_main(&hw) {
        None => {
            return Err("missing main= in header".to_owned());
        },
        Some(v) => v,
    };
    let main: usize = match parse_nat_chars(&v, usize::MAX as u64) {
        None => {
            return Err("invalid main index".to_owned());
        },
        Some(m) => m as usize,
    };
    let mut functions: Vec<Chunk> = Vec::new();
    let ghost mut plans: Seq<ChunkPlan> = Seq::empty();
    let mut pos: usize = 1;
    while pos < ls.len()
        invariant
            1 <= pos <= ls@.len(),
            lv == views(ls@),
            read_object(text@) == with_main(main as nat, read_chunks(lv, 1)),
            read_chunks(lv, 1) == then_seq(plans, read_chunks(lv, pos as nat)),
            functions@.len() == plans.len(),
            forall|i: int| 0 <= i < plans.len() ==> chunk_fits(#[trigger] functions@[i], plans[i]),
        decreases ls@.len() - pos,
    {
        assert(lv[pos as int] == ls@[pos as int]@);
        let line = trim_end_chars(&ls[pos]);
        if line.len() == 0 {
            pos = pos + 1;
        } else {
            let header = parse_fn_header(&line)?;
            let consts = read_const_lines(&ls, pos + 1, header.consts)?;
            proof {
                lemma_read_consts_lines(lv, (pos + 1) as nat, header.consts as nat);
            }
            let p2 = pos + 1 + header.consts;
            let code = read_code_lines(&ls, p2, header.code)?;
            proof {
                lemma_read_code_lines(lv, p2 as nat, header.code as nat);
            }
            let p3 = p2 + header.code;
            let ghost plan = match read_consts(lv, (pos + 1) as nat, header.consts as nat) {
                Ok(cv) => match read_code(lv, p2 as nat, header.code as nat) {
                    Ok(wss) => ChunkPlan {
                        name: header.name@,
                        params: header.params as nat,
                        locals: header.locals as nat,
                        consts: cv,
                        code: wss,
                    },
                    Err(_) => arbitrary(),
                },
                Err(_) => arbitrary(),
            };
            let chunk = Chunk {
                name: header.name,
                n_locals: header.locals,
                n_params: header.params,
                code,
                consts,
            };
            proof {
                assert(chunk_fits(chunk, plan));
                match read_chunks(lv, p3 as nat) {
                    Ok(rest) => assert(plans + (seq![plan] + rest) =~= plans.push(plan) + rest),
                    Err(_) => {},
                }
                plans = plans.push(plan);
            }
            functions.push(chunk);
            pos = p3;
        }
    }
    assert(plans + Seq::<ChunkPlan>::empty() =~= plans);
    Ok(Program { functions, main })
}


// ---- reading back what was written ----

/// Whether a word survives being written and split again: not empty, and
/// without white space.
pub open spec fn plain_word(w: Seq<char>) -> bool {
    w.len() > 0 && forall|i: int| 0 <= i < w.len() ==> !spec_whitespace(#[trigger] w[i])
}

proof fn lemma_digit_value(k: nat)
    requires
        k < 10,
    ensures
        is_digit(spec_digit(k)),
        spec_digit(k) as nat - '0' as nat == k,
{
}

pub proof fn lemma_decimal(n: nat)
    ensures
        decimal(n).len() > 0,
        all_digits(decimal(n)),
        digits_value(decimal(n)) == n,
        plain_word(decimal(n)),
    decreases n,
{
    let d = decimal(n);
    if n >= 10 {
        lemma_decimal(n / 10);
        let p = decimal(n / 10);
        assert(d == p.push(spec_digit(n % 10)));
        assert(d.drop_last() =~= p);
        lemma_digit_value(n % 10);
        assert(digits_value(d) == digits_value(p) * 10 + (spec_digit(n % 10) as nat - '0' as nat) as nat);
        assert forall|i: int| 0 <= i < d.len() implies is_digit(#[trigger] d[i]) by {
            if i < p.len() {
                assert(d[i] == p[i]);
            }
        }
    } else {
        lemma_digit_value(n);
        assert(d.drop_last() =~= Seq::<char>::empty());
        assert(digits_value(d) == digits_value(d.drop_last()) * 10 + (d.last() as nat - '0' as nat) as nat);
    }
    assert forall|i: int| 0 <= i < d.len() implies !spec_whitespace(#[trigger] d[i]) by {
        assert(is_digit(d[i]));
    }
}

pub proof fn lemma_parse_decimal(n: nat, max: nat)
    requires
        n <= max,
    ensures
        parse_nat(decimal(n), max) == Some(n),
{
    lemma_decimal(n);
    assert(is_digit(decimal(n)[0]));
}

pub proof fn lemma_parse_signed(v: i64)
    ensures
        parse_int(signed_text(v)) == Some(v),
        plain_word(signed_text(v)),
{
    if v < 0 {
        let m = (-v) as nat;
        lemma_decimal(m);
        let t = signed_text(v);
        assert(t == seq!['-'] + decimal(m));
        assert(t.skip(1) =~= decimal(m));
        assert forall|i: int| 0 <= i < t.len() implies !spec_whitespace(#[trigger] t[i]) by {
            if i > 0 {
                assert(t[i] == decimal(m)[i - 1]);
                assert(is_digit(decimal(m)[i - 1]));
            }
        }
    } else {
        lemma_parse_decimal(v as nat, i64::MAX as nat);
        lemma_decimal(v as nat);
        assert(is_digit(decimal(v as nat)[0]));
    }
}


pub proof fn lemma_joined_front(ws: Seq<Seq<char>>)
    requires
        ws.len() >= 2,
    ensures
        joined(ws) == ws[0] + " "@ + joined(ws.skip(1)),
    decreases ws.len(),
{
    assert(joined(ws) == joined(ws.drop_last()) + " "@ + ws.last());
    if ws.len() == 2 {
        assert(ws.drop_last() =~= seq![ws[0]]);
        assert(joined(seq![ws[0]]) == ws[0]);
        assert(ws.skip(1) =~= seq![ws[1]]);
        assert(joined(seq![ws[1]]) == ws[1]);
    } else {
        lemma_joined_front(ws.drop_last());
        assert(ws.skip(1).drop_last() =~= ws.drop_last().skip(1));
        assert(ws.skip(1).last() == ws.last());
        assert(ws.drop_last()[0] == ws[0]);
        assert(joined(ws.skip(1)) == joined(ws.skip(1).drop_last()) + " "@ + ws.skip(1).last());
        assert(joined(ws) =~= ws[0] + " "@ + joined(ws.skip(1)));
    }
}

pub proof fn lemma_joined_len(ws: Seq<Seq<char>>)
    requires
        ws.len() >= 1,
        ws[0].len() > 0,
    ensures
        joined(ws).len() > 0,
        joined(ws)[0] == ws[0][0],
    decreases ws.len(),
{
    if ws.len() >= 2 {
        lemma_joined_front(ws);
    }
}

proof fn lemma_skip_word_to(s: Seq<char>, j: nat, e: nat)
    requires
        j <= e <= s.len(),
        forall|k: int| j <= k < e ==> !spec_whitespace(#[trigger] s[k]),
        e == s.len() || spec_whitespace(s[e as int]),
    ensures
        skip_word(s, j) == e,
    decreases e - j,
{
    if j < e {
        lemma_skip_word_to(s, j + 1, e);
    }
}

proof fn lemma_skip_space_to(s: Seq<char>, j: nat, e: nat)
    requires
        j <= e <= s.len(),
        forall|k: int| j <= k < e ==> spec_whitespace(#[trigger] s[k]),
        e == s.len() || !spec_whitespace(s[e as int]),
    ensures
        skip_space(s, j) == e,
    decreases e - j,
{
    if j < e {
        lemma_skip_space_to(s, j + 1, e);
    }
}

/// Whether every word is plain.
pub open spec fn plain_words(ws: Seq<Seq<char>>) -> bool {
    forall|i: int| 0 <= i < ws.len() ==> plain_word(#[trigger] ws[i])
}

proof fn lemma_words_joined_at(s: Seq<char>, i: nat, ws: Seq<Seq<char>>)
    requires
        ws.len() >= 1,
        plain_words(ws),
        i + joined(ws).len() == s.len(),
        s.skip(i as int) == joined(ws),
    ensures
        words_from(s, i) == ws,
    decreases ws.len(),
{
    reveal_strlit(" ");
    let w0 = ws[0];
    assert(plain_word(w0));
    lemma_joined_len(ws);
    assert(s[i as int] == joined(ws)[0]);
    assert(skip_space(s, i) == i);
    if ws.len() == 1 {
        assert forall|k: int| i <= k < s.len() implies !spec_whitespace(#[trigger] s[k]) by {
            assert(s[k] == w0[k - i]);
        }
        lemma_skip_word_to(s, i, s.len());
        assert(s.subrange(i as int, s.len() as int) =~= w0);
        assert(skip_space(s, s.len()) == s.len());
        assert(words_from(s, s.len()) == Seq::<Seq<char>>::empty());
        assert(words_from(s, i) =~= ws);
    } else {
        lemma_joined_front(ws);
        let rest = ws.skip(1);
        let b = i + w0.len();
        assert(joined(ws) == w0 + " "@ + joined(rest));
        assert forall|k: int| i <= k < b implies !spec_whitespace(#[trigger] s[k]) by {
            assert(s[k] == joined(ws)[k - i]);
            assert(joined(ws)[k - i] == w0[k - i]);
        }
        let jw = joined(ws);
        assert(jw[w0.len() as int] == ' ');
        assert(s[b as int] == jw[w0.len() as int]);
        lemma_skip_word_to(s, i, b);
        assert(s.subrange(i as int, b as int) =~= w0);
        assert(plain_words(rest)) by {
            assert forall|k: int| 0 <= k < rest.len() implies plain_word(#[trigger] rest[k]) by {
                assert(rest[k] == ws[k + 1]);
            }
        }
        assert(rest[0] == ws[1]);
        assert(plain_word(ws[1]));
        lemma_joined_len(rest);
        assert forall|k: int| 0 <= k < joined(rest).len() implies s.skip(b + 1 as int)[k] == joined(rest)[k] by {
            assert(s.skip(b + 1 as int)[k] == jw[w0.len() + 1 + k]);
        }
        assert(s.skip(b + 1 as int) =~= joined(rest));
        assert(s[b + 1 as int] == joined(rest)[0]);
        assert(skip_space(s, b + 1) == b + 1);
        assert(skip_space(s, b) == b + 1);
        lemma_words_joined_at(s, b + 1, rest);
        assert(words_from(s, b) == words_from(s, b + 1));
        assert(words_from(s, i) =~= seq![w0] + rest);
        assert(seq![w0] + rest =~= ws);
    }
}

pub proof fn lemma_words_joined(ws: Seq<Seq<char>>)
    requires
        ws.len() >= 1,
        plain_words(ws),
    ensures
        words(joined(ws)) == ws,
{
    assert(joined(ws).skip(0) =~= joined(ws));
    lemma_words_joined_at(joined(ws), 0, ws);
}


pub proof fn lemma_unlines_front(ls: Seq<Seq<char>>)
    requires
        ls.len() >= 1,
    ensures
        unlines(ls) == ls[0] + "\n"@ + unlines(ls.skip(1)),
    decreases ls.len(),
{
    if ls.len() == 1 {
        lemma_unlines_one(ls[0]);
        assert(ls =~= seq![ls[0]]);
        assert(ls.skip(1) =~= Seq::<Seq<char>>::empty());
        assert(unlines(ls.skip(1)) == Seq::<char>::empty());
        assert(ls[0] + "\n"@ + Seq::<char>::empty() =~= ls[0] + "\n"@);
    } else {
        lemma_unlines_front(ls.drop_last());
        assert(ls.skip(1).drop_last() =~= ls.drop_last().skip(1));
        assert(ls.skip(1).last() == ls.last());
        assert(ls.drop_last()[0] == ls[0]);
        assert(unlines(ls.skip(1)) == unlines(ls.skip(1).drop_last()) + ls.skip(1).last() + "\n"@);
        assert(unlines(ls) =~= ls[0] + "\n"@ + unlines(ls.skip(1)));
    }
}

proof fn lemma_line_end_to(s: Seq<char>, j: nat, e: nat)
    requires
        j <= e < s.len(),
        forall|k: int| j <= k < e ==> #[trigger] s[k] != '\n',
        s[e as int] == '\n',
    ensures
        line_end(s, j) == e,
    decreases e - j,
{
    if j < e {
        lemma_line_end_to(s, j + 1, e);
    }
}

/// Whether a line survives being written and split again: it holds no
/// `\n` and does not end in `\r`.
pub open spec fn plain_line(l: Seq<char>) -> bool {
    &&& forall|i: int| 0 <= i < l.len() ==> #[trigger] l[i] != '\n'
    &&& !(l.len() > 0 && l.last() == '\r')
}

proof fn lemma_lines_unlines_at(s: Seq<char>, p: nat, ls: Seq<Seq<char>>)
    requires
        forall|i: int| 0 <= i < ls.len() ==> plain_line(#[trigger] ls[i]),
        p + unlines(ls).len() == s.len(),
        s.skip(p as int) == unlines(ls),
    ensures
        lines_from(s, p) == ls,
    decreases ls.len(),
{
    reveal_strlit("\n");
    if ls.len() == 0 {
        assert(lines_from(s, p) == Seq::<Seq<char>>::empty());
        assert(ls =~= Seq::<Seq<char>>::empty());
    } else {
        lemma_unlines_front(ls);
        let l0 = ls[0];
        let rest = ls.skip(1);
        let u = unlines(ls);
        assert(plain_line(l0));
        let e = p + l0.len();
        assert(u[l0.len() as int] == '\n');
        assert(s[e as int] == u[l0.len() as int]);
        assert forall|k: int| p <= k < e implies #[trigger] s[k] != '\n' by {
            assert(s[k] == u[k - p]);
            assert(u[k - p] == l0[k - p]);
        }
        lemma_line_end_to(s, p, e);
        assert(s.subrange(p as int, e as int) =~= l0);
        assert(strip_cr(l0) == l0);
        assert forall|i: int| 0 <= i < rest.len() implies plain_line(#[trigger] rest[i]) by {
            assert(rest[i] == ls[i + 1]);
        }
        assert forall|k: int| 0 <= k < unlines(rest).len() implies s.skip(e + 1 as int)[k] == unlines(rest)[k] by {
            assert(s.skip(e + 1 as int)[k] == u[l0.len() + 1 + k]);
        }
        assert(s.skip(e + 1 as int) =~= unlines(rest));
        lemma_lines_unlines_at(s, e + 1, rest);
        assert(lines_from(s, p) =~= seq![l0] + rest);
        assert(seq![l0] + rest =~= ls);
    }
}

pub proof fn lemma_lines_unlines(ls: Seq<Seq<char>>)
    requires
        forall|i: int| 0 <= i < ls.len() ==> plain_line(#[trigger] ls[i]),
    ensures
        lines_of(unlines(ls)) == ls,
{
    assert(unlines(ls).skip(0) =~= unlines(ls));
    lemma_lines_unlines_at(unlines(ls), 0, ls);
}


pub proof fn lemma_trim_end_plain(l: Seq<char>)
    requires
        l.len() > 0,
        !spec_whitespace(l.last()),
    ensures
        trim_end(l) == l,
{
    assert(kept_len(l, l.len()) == l.len());
    assert(l.take(l.len() as int) =~= l);
}

pub proof fn lemma_trim_indented(sp: Seq<char>, w: Seq<char>)
    requires
        forall|i: int| 0 <= i < sp.len() ==> spec_whitespace(#[trigger] sp[i]),
        w.len() > 0,
        !spec_whitespace(w[0]),
        !spec_whitespace(w.last()),
    ensures
        trim(sp + w) == w,
        trim_end(sp + w) == sp + w,
{
    let t = sp + w;
    assert(t.last() == w.last());
    lemma_trim_end_plain(t);
    assert forall|k: int| 0 <= k < sp.len() implies spec_whitespace(#[trigger] t[k]) by {
        assert(t[k] == sp[k]);
    }
    assert(t[sp.len() as int] == w[0]);
    lemma_skip_space_to(t, 0, sp.len());
    assert(t.skip(sp.len() as int) =~= w);
}

proof fn lemma_unescape_one(s: Seq<char>, j: nat, x: char)
    requires
        j + escape_char(x).len() <= s.len(),
        forall|k: int| 0 <= k < escape_char(x).len() ==> s[j + k] == #[trigger] escape_char(x)[k],
    ensures
        unescape_from(s, j) == prefixed(seq![x], unescape_from(s, j + escape_char(x).len())),
{
    let ex = escape_char(x);
    assert(s[j as int] == ex[0]);
    if x == '"' || x == '\\' || x == '\n' || x == '\t' || x == '\r' {
        assert(ex.len() == 2);
        assert(s[j as int] == '\\');
        assert(s[j + 1 as int] == ex[1]);
        assert(unescape_char(ex[1]) == x);
    } else {
        assert(ex.len() == 1);
        assert(s[j as int] == x);
    }
}

proof fn lemma_unescape_escaped(s: Seq<char>, i: nat, c: Seq<char>)
    requires
        i + escaped(c).len() <= s.len(),
        s.subrange(i as int, i + escaped(c).len() as int) == escaped(c),
    ensures
        unescape_from(s, i) == prefixed(c, unescape_from(s, i + escaped(c).len())),
    decreases c.len(),
{
    if c.len() == 0 {
        match unescape_from(s, i) {
            Ok(r) => assert(c + r =~= r),
            Err(_) => {},
        }
    } else {
        let c0 = c.drop_last();
        let x = c.last();
        let e0 = escaped(c0);
        let ex = escape_char(x);
        assert(escaped(c) == e0 + ex);
        assert(s.subrange(i as int, i + e0.len() as int) =~= e0) by {
            assert forall|k: int| 0 <= k < e0.len() implies s.subrange(i as int, i + e0.len() as int)[k] == e0[k] by {
                assert(s.subrange(i as int, i + escaped(c).len() as int)[k] == escaped(c)[k]);
            }
        }
        lemma_unescape_escaped(s, i, c0);
        let j = i + e0.len();
        assert forall|k: int| 0 <= k < ex.len() implies s[j + k] == ex[k] by {
            assert(s.subrange(i as int, i + escaped(c).len() as int)[e0.len() + k] == escaped(c)[e0.len() + k]);
        }
        let after = unescape_from(s, j + ex.len());
        lemma_unescape_one(s, j, x);
        match after {
            Ok(r) => assert(c0 + (seq![x] + r) =~= c + r),
            Err(_) => {},
        }
    }
}

pub proof fn lemma_unquote_quoted(c: Seq<char>)
    ensures
        unquoted(quoted(c)) == Ok::<Seq<char>, Seq<char>>(c),
{
    let t = quoted(c);
    let e = escaped(c);
    assert(t.subrange(1, t.len() - 1) =~= e);
    assert(e.subrange(0, e.len() as int) =~= e);
    lemma_unescape_escaped(e, 0, c);
    assert(c + Seq::<char>::empty() =~= c);
}


pub proof fn lemma_mnemonic_plain(op: Op)
    ensures
        plain_word(op_mnemonic(op)),
{
    reveal_strlit("push_int");
    reveal_strlit("push_float");
    reveal_strlit("push_bool");
    reveal_strlit("push_unit");
    reveal_strlit("push_str");
    reveal_strlit("load_local");
    reveal_strlit("store_local");
    reveal_strlit("pop");
    reveal_strlit("add_int");
    reveal_strlit("sub_int");
    reveal_strlit("mul_int");
    reveal_strlit("div_int");
    reveal_strlit("rem_int");
    reveal_strlit("neg_int");
    reveal_strlit("add_float");
    reveal_strlit("sub_float");
    reveal_strlit("mul_float");
    reveal_strlit("div_float");
    reveal_strlit("rem_float");
    reveal_strlit("neg_float");
    reveal_strlit("lt_int");
    reveal_strlit("le_int");
    reveal_strlit("gt_int");
    reveal_strlit("ge_int");
    reveal_strlit("lt_float");
    reveal_strlit("le_float");
    reveal_strlit("gt_float");
    reveal_strlit("ge_float");
    reveal_strlit("concat_str");
    reveal_strlit("make_array");
    reveal_strlit("index");
    reveal_strlit("set_index");
    reveal_strlit("array_len");
    reveal_strlit("eq");
    reveal_strlit("ne");
    reveal_strlit("not_bool");
    reveal_strlit("jump");
    reveal_strlit("jump_if_false");
    reveal_strlit("call");
    reveal_strlit("call_builtin");
    reveal_strlit("return");
}

pub proof fn lemma_builtin_name_plain(b: Builtin)
    ensures
        plain_word(builtin_name(b)),
{
    reveal_strlit("print_int");
    reveal_strlit("print_float");
    reveal_strlit("print_bool");
    reveal_strlit("print_str");
    reveal_strlit("int_to_str");
    reveal_strlit("float_to_str");
    reveal_strlit("bool_to_str");
    reveal_strlit("str_len");
    reveal_strlit("len");
    reveal_strlit("abs");
    reveal_strlit("min");
    reveal_strlit("max");
    reveal_strlit("pow_int");
    reveal_strlit("gcd");
    reveal_strlit("sign");
    reveal_strlit("clamp");
    reveal_strlit("sqrt");
    reveal_strlit("abs_float");
    reveal_strlit("floor");
    reveal_strlit("pow_float");
    reveal_strlit("min_float");
    reveal_strlit("max_float");
    reveal_strlit("ceil");
    reveal_strlit("round");
    reveal_strlit("to_float");
    reveal_strlit("to_int");
    reveal_strlit("substring");
    reveal_strlit("char_at");
    reveal_strlit("str_repeat");
    reveal_strlit("starts_with");
    reveal_strlit("ends_with");
    reveal_strlit("contains");
    reveal_strlit("index_of");
    reveal_strlit("parse_int");
    reveal_strlit("char_to_str");
    reveal_strlit("to_upper");
    reveal_strlit("to_lower");
    reveal_strlit("trim");
    reveal_strlit("lcm");
}


/// A few characters that tell builtin names apart.
spec fn name_key(w: Seq<char>) -> (nat, char, char) {
    (w.len(), w[1], w[w.len() - 3])
}

/// A few characters that tell mnemonics apart.
spec fn mnemonic_key(w: Seq<char>) -> (nat, char, char, char) {
    (w.len(), w[0], w[1], w[5])
}

pub proof fn lemma_builtin_name_injective(a: Builtin, b: Builtin)
    ensures
        builtin_name(a) == builtin_name(b) ==> a == b,
{
    if builtin_name(a) == builtin_name(b) {
        assert(name_key(builtin_name(a)) == name_key(builtin_name(b)));
    }
    reveal_strlit("print_int");
    reveal_strlit("print_float");
    reveal_strlit("print_bool");
    reveal_strlit("print_str");
    reveal_strlit("int_to_str");
    reveal_strlit("float_to_str");
    reveal_strlit("bool_to_str");
    reveal_strlit("str_len");
    reveal_strlit("len");
    reveal_strlit("abs");
    reveal_strlit("min");
    reveal_strlit("max");
    reveal_strlit("pow_int");
    reveal_strlit("gcd");
    reveal_strlit("sign");
    reveal_strlit("clamp");
    reveal_strlit("sqrt");
    reveal_strlit("abs_float");
    reveal_strlit("floor");
    reveal_strlit("pow_float");
    reveal_strlit("min_float");
    reveal_strlit("max_float");
    reveal_strlit("ceil");
    reveal_strlit("round");
    reveal_strlit("to_float");
    reveal_strlit("to_int");
    reveal_strlit("substring");
    reveal_strlit("char_at");
    reveal_strlit("str_repeat");
    reveal_strlit("starts_with");
    reveal_strlit("ends_with");
    reveal_strlit("contains");
    reveal_strlit("index_of");
    reveal_strlit("parse_int");
    reveal_strlit("char_to_str");
    reveal_strlit("to_upper");
    reveal_strlit("to_lower");
    reveal_strlit("trim");
    reveal_strlit("lcm");
}

pub proof fn lemma_mnemonic_injective(a: Op, b: Op)
    ensures
        op_mnemonic(a) == op_mnemonic(b) ==> (a is PushInt <==> b is PushInt) && (a is PushFloat
            <==> b is PushFloat) && (a is PushBool <==> b is PushBool) && (a is PushStr <==> b is PushStr)
            && (a is LoadLocal <==> b is LoadLocal) && (a is StoreLocal <==> b is StoreLocal) && (a is MakeArray
            <==> b is MakeArray) && (a is Jump <==> b is Jump) && (a is JumpIfFalse <==> b is JumpIfFalse) && (
        a is Call <==> b is Call) && (a is CallBuiltin <==> b is CallBuiltin) && (op_operands(a).len() == 0
            ==> a == b),
{
    if op_mnemonic(a) == op_mnemonic(b) {
        assert(mnemonic_key(op_mnemonic(a)) == mnemonic_key(op_mnemonic(b)));
    }
    reveal_strlit("push_int");
    reveal_strlit("push_float");
    reveal_strlit("push_bool");
    reveal_strlit("push_unit");
    reveal_strlit("push_str");
    reveal_strlit("load_local");
    reveal_strlit("store_local");
    reveal_strlit("pop");
    reveal_strlit("add_int");
    reveal_strlit("sub_int");
    reveal_strlit("mul_int");
    reveal_strlit("div_int");
    reveal_strlit("rem_int");
    reveal_strlit("neg_int");
    reveal_strlit("add_float");
    reveal_strlit("sub_float");
    reveal_strlit("mul_float");
    reveal_strlit("div_float");
    reveal_strlit("rem_float");
    reveal_strlit("neg_float");
    reveal_strlit("lt_int");
    reveal_strlit("le_int");
    reveal_strlit("gt_int");
    reveal_strlit("ge_int");
    reveal_strlit("lt_float");
    reveal_strlit("le_float");
    reveal_strlit("gt_float");
    reveal_strlit("ge_float");
    reveal_strlit("concat_str");
    reveal_strlit("make_array");
    reveal_strlit("index");
    reveal_strlit("set_index");
    reveal_strlit("array_len");
    reveal_strlit("eq");
    reveal_strlit("ne");
    reveal_strlit("not_bool");
    reveal_strlit("jump");
    reveal_strlit("jump_if_false");
    reveal_strlit("call");
    reveal_strlit("call_builtin");
    reveal_strlit("return");
}


/// Whether an instruction's line reads back as that instruction: a float
/// literal must be one word that the reader accepts.
pub open spec fn op_writable(op: Op) -> bool {
    match op {
        Op::PushFloat(t) => plain_word(t@) && float_syntax(t@),
        _ => true,
    }
}

pub proof fn lemma_op_words_plain(op: Op)
    requires
        op_writable(op),
    ensures
        plain_words(op_words(op)),
        op_words(op).len() >= 1,
        op_words(op)[0] == op_mnemonic(op),
{
    reveal_strlit("true");
    reveal_strlit("false");
    lemma_mnemonic_plain(op);
    let ws = op_words(op);
    match op {
        Op::PushInt(v) => lemma_parse_signed(v),
        Op::PushStr(n) => lemma_decimal(n as nat),
        Op::LoadLocal(n) => lemma_decimal(n as nat),
        Op::StoreLocal(n) => lemma_decimal(n as nat),
        Op::MakeArray(n) => lemma_decimal(n as nat),
        Op::Jump(n) => lemma_decimal(n as nat),
        Op::JumpIfFalse(n) => lemma_decimal(n as nat),
        Op::Call { func, argc } => {
            lemma_decimal(func as nat);
            lemma_decimal(argc as nat);
        },
        Op::CallBuiltin { builtin, argc } => {
            lemma_builtin_name_plain(builtin);
            lemma_decimal(argc as nat);
        },
        _ => {},
    }
    assert forall|i: int| 0 <= i < ws.len() implies plain_word(#[trigger] ws[i]) by {
        if i > 0 {
            assert(ws[i] == op_operands(op)[i - 1]);
        }
    }
}

pub proof fn lemma_op_reads(op: Op)
    requires
        op_writable(op),
    ensures
        op_error(op_words(op)) is None,
        op_spelled(op_words(op), op),
{
    reveal_strlit("push_int");
    reveal_strlit("push_float");
    reveal_strlit("push_bool");
    reveal_strlit("push_unit");
    reveal_strlit("push_str");
    reveal_strlit("load_local");
    reveal_strlit("store_local");
    reveal_strlit("pop");
    reveal_strlit("add_int");
    reveal_strlit("sub_int");
    reveal_strlit("mul_int");
    reveal_strlit("div_int");
    reveal_strlit("rem_int");
    reveal_strlit("neg_int");
    reveal_strlit("add_float");
    reveal_strlit("sub_float");
    reveal_strlit("mul_float");
    reveal_strlit("div_float");
    reveal_strlit("rem_float");
    reveal_strlit("neg_float");
    reveal_strlit("lt_int");
    reveal_strlit("le_int");
    reveal_strlit("gt_int");
    reveal_strlit("ge_int");
    reveal_strlit("lt_float");
    reveal_strlit("le_float");
    reveal_strlit("gt_float");
    reveal_strlit("ge_float");
    reveal_strlit("concat_str");
    reveal_strlit("make_array");
    reveal_strlit("index");
    reveal_strlit("set_index");
    reveal_strlit("array_len");
    reveal_strlit("eq");
    reveal_strlit("ne");
    reveal_strlit("not_bool");
    reveal_strlit("jump");
    reveal_strlit("jump_if_false");
    reveal_strlit("call");
    reveal_strlit("call_builtin");
    reveal_strlit("return");
    reveal_strlit("true");
    reveal_strlit("false");
    lemma_mnemonic_injective(op, Op::PushInt(0));
    lemma_mnemonic_injective(op, Op::PushFloat(arbitrary()));
    lemma_mnemonic_injective(op, Op::PushBool(true));
    lemma_mnemonic_injective(op, Op::PushStr(0));
    lemma_mnemonic_injective(op, Op::LoadLocal(0));
    lemma_mnemonic_injective(op, Op::StoreLocal(0));
    lemma_mnemonic_injective(op, Op::MakeArray(0));
    lemma_mnemonic_injective(op, Op::Jump(0));
    lemma_mnemonic_injective(op, Op::JumpIfFalse(0));
    lemma_mnemonic_injective(op, Op::Call { func: 0, argc: 0 });
    lemma_mnemonic_injective(op, Op::CallBuiltin { builtin: Builtin::Len, argc: 0 });
    let ws = op_words(op);
    match op {
        Op::PushInt(v) => {
            lemma_parse_signed(v);
            assert(ws.len() == 2 && ws[1] == signed_text(v));
            assert(ws[0] == "push_int"@);
            assert(parse_int(ws[1]) is Some);
            assert(op_error(ws) == None::<Seq<char>>);
        },
        Op::PushStr(n) => lemma_parse_decimal(n as nat, u32::MAX as nat),
        Op::LoadLocal(n) => lemma_parse_decimal(n as nat, u32::MAX as nat),
        Op::StoreLocal(n) => lemma_parse_decimal(n as nat, u32::MAX as nat),
        Op::MakeArray(n) => lemma_parse_decimal(n as nat, u32::MAX as nat),
        Op::Jump(n) => lemma_parse_decimal(n as nat, usize::MAX as nat),
        Op::JumpIfFalse(n) => lemma_parse_decimal(n as nat, usize::MAX as nat),
        Op::Call { func, argc } => {
            lemma_parse_decimal(func as nat, usize::MAX as nat);
            lemma_parse_decimal(argc as nat, u32::MAX as nat);
        },
        Op::CallBuiltin { builtin, argc } => {
            lemma_parse_decimal(argc as nat, u32::MAX as nat);
            assert(ws[1] == builtin_name(builtin));
            assert(!(forall|b: Builtin| builtin_name(b) != ws[1]));
        },
        Op::PushFloat(t) => {
            assert(ws[1] == t@);
        },
        Op::PushBool(b) => {
            assert(ws[0] == "push_bool"@);
        },
        _ => {
            assert(op_operands(op) =~= Seq::<Seq<char>>::empty());
            assert(ws =~= seq![op_mnemonic(op)]);
            assert(plain_mnemonic(ws[0]));
            assert(op_error(ws) is None);
        },
    }
}


/// Two instructions alike, a float literal compared by its text.
pub open spec fn same_op(a: Op, b: Op) -> bool {
    match a {
        Op::PushFloat(x) => b matches Op::PushFloat(y) && x@ == y@,
        _ => a == b,
    }
}

pub proof fn lemma_op_spelled_unique(a: Op, b: Op)
    requires
        op_writable(a),
        op_spelled(op_words(a), b),
    ensures
        same_op(a, b),
{
    reveal_strlit("true");
    reveal_strlit("false");
    let ws = op_words(a);
    lemma_mnemonic_injective(a, b);
    match a {
        Op::PushInt(v) => lemma_parse_signed(v),
        Op::PushStr(n) => lemma_parse_decimal(n as nat, u32::MAX as nat),
        Op::LoadLocal(n) => lemma_parse_decimal(n as nat, u32::MAX as nat),
        Op::StoreLocal(n) => lemma_parse_decimal(n as nat, u32::MAX as nat),
        Op::MakeArray(n) => lemma_parse_decimal(n as nat, u32::MAX as nat),
        Op::Jump(n) => lemma_parse_decimal(n as nat, usize::MAX as nat),
        Op::JumpIfFalse(n) => lemma_parse_decimal(n as nat, usize::MAX as nat),
        Op::Call { func, argc } => {
            lemma_parse_decimal(func as nat, usize::MAX as nat);
            lemma_parse_decimal(argc as nat, u32::MAX as nat);
        },
        Op::CallBuiltin { builtin, argc } => {
            lemma_parse_decimal(argc as nat, u32::MAX as nat);
            if let Op::CallBuiltin { builtin: b2, argc: _ } = b {
                lemma_builtin_name_injective(builtin, b2);
            }
        },
        _ => {},
    }
}


proof fn lemma_eq_index_to(w: Seq<char>, j: nat, e: nat)
    requires
        j <= e < w.len(),
        forall|k: int| j <= k < e ==> #[trigger] w[k] != '=',
        w[e as int] == '=',
    ensures
        eq_index(w, j) == e,
    decreases e - j,
{
    if j < e {
        lemma_eq_index_to(w, j + 1, e);
    }
}

/// A `key=value` word of a header line: its key, the value and its shape.
proof fn lemma_field_word(key: Seq<char>, n: nat)
    requires
        key.len() > 0,
        forall|k: int| 0 <= k < key.len() ==> #[trigger] key[k] != '=' && !spec_whitespace(key[k]),
    ensures
        ({
            let w = key + "="@ + decimal(n);
            &&& eq_index(w, 0) == key.len()
            &&& w.take(key.len() as int) == key
            &&& w.skip(key.len() + 1 as int) == decimal(n)
            &&& plain_word(w)
        }),
{
    reveal_strlit("=");
    lemma_decimal(n);
    let w = key + "="@ + decimal(n);
    let d = decimal(n);
    assert forall|k: int| 0 <= k < key.len() implies #[trigger] w[k] != '=' by {
        assert(w[k] == key[k]);
    }
    assert(w[key.len() as int] == '=');
    lemma_eq_index_to(w, 0, key.len());
    assert(w.take(key.len() as int) =~= key);
    assert(w.skip(key.len() + 1 as int) =~= d);
    assert forall|k: int| 0 <= k < w.len() implies !spec_whitespace(#[trigger] w[k]) by {
        if k < key.len() {
            assert(w[k] == key[k]);
        } else if k > key.len() {
            assert(w[k] == d[k - key.len() - 1]);
        }
    }
}


/// The counts a function's header line states.
pub open spec fn chunk_counts(c: Chunk) -> HeaderCounts {
    HeaderCounts {
        params: c.n_params as nat,
        locals: c.n_locals as nat,
        consts: c.consts@.len(),
        code: c.code@.len(),
    }
}

pub proof fn lemma_header_reads(c: Chunk)
    requires
        plain_word(c.name@),
    ensures
        fn_header(joined(chunk_header_words(c))) == Ok::<(Seq<char>, HeaderCounts), Seq<char>>(
            (c.name@, chunk_counts(c)),
        ),
        plain_words(chunk_header_words(c)),
{
    reveal_strlit("fn");
    reveal_strlit("params");
    reveal_strlit("locals");
    reveal_strlit("consts");
    reveal_strlit("code");
    reveal_strlit("params=");
    reveal_strlit("locals=");
    reveal_strlit("consts=");
    reveal_strlit("code=");
    reveal_strlit("=");
    let hw = chunk_header_words(c);
    let nc = c.consts@.len();
    let nk = c.code@.len();
    assert(nc == c.consts.len() && nk == c.code.len());
    assert("params="@ =~= "params"@ + "="@);
    assert("locals="@ =~= "locals"@ + "="@);
    assert("consts="@ =~= "consts"@ + "="@);
    assert("code="@ =~= "code"@ + "="@);
    lemma_field_word("params"@, c.n_params as nat);
    lemma_field_word("locals"@, c.n_locals as nat);
    lemma_field_word("consts"@, nc);
    lemma_field_word("code"@, nk);
    lemma_parse_decimal(c.n_params as nat, usize::MAX as nat);
    lemma_parse_decimal(c.n_locals as nat, usize::MAX as nat);
    lemma_parse_decimal(nc, usize::MAX as nat);
    lemma_parse_decimal(nk, usize::MAX as nat);
    assert(plain_words(hw)) by {
        assert forall|i: int| 0 <= i < hw.len() implies plain_word(#[trigger] hw[i]) by {
            if i == 0 {
                assert(hw[0] == "fn"@);
            }
        }
    }
    lemma_words_joined(hw);
    let z = HeaderCounts { params: 0, locals: 0, consts: 0, code: 0 };
    let a1 = HeaderCounts { params: c.n_params as nat, ..z };
    let a2 = HeaderCounts { locals: c.n_locals as nat, ..a1 };
    let a3 = HeaderCounts { consts: nc, ..a2 };
    let a4 = HeaderCounts { code: nk, ..a3 };
    assert(header_fields(hw, 6, a4) == Ok::<HeaderCounts, Seq<char>>(a4));
    assert(header_fields(hw, 5, a3) == header_fields(hw, 6, a4));
    assert(header_fields(hw, 4, a2) == header_fields(hw, 5, a3));
    assert(header_fields(hw, 3, a1) == header_fields(hw, 4, a2));
    assert(header_fields(hw, 2, z) == header_fields(hw, 3, a1));
    assert(a4 == chunk_counts(c));
}

/// Joined plain words form one text without line breaks, not empty, with
/// no white space at either end.
pub proof fn lemma_joined_plain(ws: Seq<Seq<char>>)
    requires
        ws.len() >= 1,
        plain_words(ws),
    ensures
        joined(ws).len() > 0,
        !spec_whitespace(joined(ws)[0]),
        !spec_whitespace(joined(ws).last()),
        forall|i: int| 0 <= i < joined(ws).len() ==> (#[trigger] joined(ws)[i]) != '\n' && joined(ws)[i]
            != '\r',
        ws.len() == 1 ==> plain_word(joined(ws)),
    decreases ws.len(),
{
    reveal_strlit(" ");
    let j = joined(ws);
    if ws.len() == 1 {
        assert(plain_word(ws[0]));
        assert forall|i: int| 0 <= i < j.len() implies (#[trigger] j[i]) != '\n' && j[i] != '\r' by {
            assert(!spec_whitespace(ws[0][i]));
        }
    } else {
        let p = ws.drop_last();
        assert(plain_words(p)) by {
            assert forall|i: int| 0 <= i < p.len() implies plain_word(#[trigger] p[i]) by {
                assert(p[i] == ws[i]);
            }
        }
        lemma_joined_plain(p);
        let l = ws.last();
        assert(plain_word(l));
        let jp = joined(p);
        assert(j == jp + " "@ + l);
        assert(j[0] == jp[0]);
        assert(j.last() == l.last());
        assert forall|i: int| 0 <= i < j.len() implies (#[trigger] j[i]) != '\n' && j[i] != '\r' by {
            if i < jp.len() {
                assert(j[i] == jp[i]);
            } else if i > jp.len() {
                assert(j[i] == l[i - jp.len() - 1]);
                assert(!spec_whitespace(l[i - jp.len() - 1]));
            }
        }
    }
}


pub proof fn lemma_escaped_one_line(c: Seq<char>)
    ensures
        forall|i: int| 0 <= i < escaped(c).len() ==> (#[trigger] escaped(c)[i]) != '\n' && escaped(c)[i] != '\r',
    decreases c.len(),
{
    if c.len() > 0 {
        lemma_escaped_one_line(c.drop_last());
        let p = escaped(c.drop_last());
        let e = escape_char(c.last());
        assert(escaped(c) == p + e);
        assert forall|i: int| 0 <= i < escaped(c).len() implies (#[trigger] escaped(c)[i]) != '\n' && escaped(
            c,
        )[i] != '\r' by {
            if i < p.len() {
                assert(escaped(c)[i] == p[i]);
            } else {
                assert(escaped(c)[i] == e[i - p.len()]);
            }
        }
    }
}

/// A constant's line is one line, and reads back as the constant.
pub proof fn lemma_const_line_reads(c: Seq<char>)
    ensures
        plain_line(const_line(c)),
        has_prefix(trim(const_line(c)), "const "@),
        unquoted(trim(const_line(c)).skip(6)) == Ok::<Seq<char>, Seq<char>>(c),
{
    reveal_strlit("  const ");
    reveal_strlit("  ");
    reveal_strlit("const ");
    let q = quoted(c);
    let w = "const "@ + q;
    assert(const_line(c) =~= "  "@ + w);
    assert(w.last() == '"');
    lemma_trim_indented("  "@, w);
    assert(w.take(6) =~= "const "@);
    assert(w.skip(6) =~= q);
    lemma_unquote_quoted(c);
    lemma_escaped_one_line(c);
    let l = const_line(c);
    assert forall|i: int| 0 <= i < l.len() implies #[trigger] l[i] != '\n' by {
        if i >= 9 && i < l.len() - 1 {
            assert(l[i] == escaped(c)[i - 9]);
        }
    }
}

/// An instruction's line is one line, and its words are the instruction's.
pub proof fn lemma_op_line_reads(op: Op)
    requires
        op_writable(op),
    ensures
        plain_line(op_line(op)),
        words(trim(op_line(op))) == op_words(op),
{
    reveal_strlit("  ");
    let ws = op_words(op);
    lemma_op_words_plain(op);
    lemma_joined_plain(ws);
    let j = joined(ws);
    lemma_trim_indented("  "@, j);
    lemma_words_joined(ws);
    let l = op_line(op);
    assert forall|i: int| 0 <= i < l.len() implies #[trigger] l[i] != '\n' by {
        if i >= 2 {
            assert(l[i] == j[i - 2]);
        }
    }
    assert(l.last() == j.last());
}


proof fn lemma_consts_read(ls: Seq<Seq<char>>, pos: nat, cs: Seq<Seq<char>>)
    requires
        pos + cs.len() <= ls.len(),
        forall|i: int| 0 <= i < cs.len() ==> ls[pos + i] == const_line(#[trigger] cs[i]),
    ensures
        read_consts(ls, pos, cs.len()) == Ok::<Seq<Seq<char>>, Seq<char>>(cs),
    decreases cs.len(),
{
    if cs.len() > 0 {
        assert(ls[pos + 0int] == const_line(cs[0]));
        lemma_const_line_reads(cs[0]);
        let rest = cs.skip(1);
        assert forall|i: int| 0 <= i < rest.len() implies ls[(pos + 1) + i] == const_line(#[trigger] rest[i]) by {
            assert(rest[i] == cs[i + 1]);
            assert(ls[pos + (i + 1)] == const_line(cs[i + 1]));
        }
        lemma_consts_read(ls, pos + 1, rest);
        assert(seq![cs[0]] + rest =~= cs);
    } else {
        assert(cs =~= Seq::<Seq<char>>::empty());
    }
}

proof fn lemma_code_read(ls: Seq<Seq<char>>, pos: nat, code: Seq<Op>)
    requires
        pos + code.len() <= ls.len(),
        forall|i: int| 0 <= i < code.len() ==> ls[pos + i] == op_line(#[trigger] code[i]) && op_writable(code[i]),
    ensures
        read_code(ls, pos, code.len()) == Ok::<Seq<Seq<Seq<char>>>, Seq<char>>(
            code.map_values(|op: Op| op_words(op)),
        ),
    decreases code.len(),
{
    if code.len() > 0 {
        assert(ls[pos + 0int] == op_line(code[0]) && op_writable(code[0]));
        lemma_op_line_reads(code[0]);
        lemma_op_reads(code[0]);
        let rest = code.skip(1);
        assert forall|i: int| 0 <= i < rest.len() implies ls[(pos + 1) + i] == op_line(#[trigger] rest[i])
            && op_writable(rest[i]) by {
            assert(rest[i] == code[i + 1]);
            assert(ls[pos + (i + 1)] == op_line(code[i + 1]) && op_writable(code[i + 1]));
        }
        lemma_code_read(ls, pos + 1, rest);
        assert(seq![op_words(code[0])] + rest.map_values(|op: Op| op_words(op)) =~= code.map_values(
            |op: Op| op_words(op),
        ));
    } else {
        assert(code.map_values(|op: Op| op_words(op)) =~= Seq::<Seq<Seq<char>>>::empty());
    }
}


/// What a function's text says of it.
pub open spec fn plan_of(c: Chunk) -> ChunkPlan {
    ChunkPlan {
        name: c.name@,
        params: c.n_params as nat,
        locals: c.n_locals as nat,
        consts: c.consts@.map_values(|k: String| k@),
        code: c.code@.map_values(|op: Op| op_words(op)),
    }
}

/// Whether a function's text reads back as that function: its name is a
/// plain word, and so is each float literal, one the reader accepts.
pub open spec fn chunk_writable(c: Chunk) -> bool {
    plain_word(c.name@) && forall|i: int| 0 <= i < c.code@.len() ==> op_writable(#[trigger] c.code@[i])
}

proof fn lemma_chunk_read(ls: Seq<Seq<char>>, pos: nat, c: Chunk)
    requires
        chunk_writable(c),
        pos + chunk_lines(c).len() <= ls.len(),
        forall|i: int| 0 <= i < chunk_lines(c).len() ==> ls[pos + i] == #[trigger] chunk_lines(c)[i],
    ensures
        pos < ls.len(),
        trim_end(ls[pos as int]).len() > 0,
        fn_header(trim_end(ls[pos as int])) == Ok::<(Seq<char>, HeaderCounts), Seq<char>>(
            (c.name@, chunk_counts(c)),
        ),
        read_consts(ls, pos + 1, c.consts@.len()) == Ok::<Seq<Seq<char>>, Seq<char>>(plan_of(c).consts),
        read_code(ls, pos + 1 + c.consts@.len(), c.code@.len()) == Ok::<Seq<Seq<Seq<char>>>, Seq<char>>(
            plan_of(c).code,
        ),
        chunk_lines(c).len() == 1 + c.consts@.len() + c.code@.len(),
{
    let hw = chunk_header_words(c);
    let h = joined(hw);
    let cl = c.consts@.map_values(|k: String| const_line(k@));
    let ol = c.code@.map_values(|op: Op| op_line(op));
    let nc = c.consts@.len();
    let nk = c.code@.len();
    let lines = chunk_lines(c);
    assert(lines == seq![h] + cl + ol);
    assert(ls[pos + 0int] == lines[0]);
    lemma_header_reads(c);
    lemma_joined_plain(hw);
    lemma_trim_end_plain(h);
    let cv = c.consts@.map_values(|k: String| k@);
    assert forall|i: int| 0 <= i < cv.len() implies ls[(pos + 1) + i] == const_line(#[trigger] cv[i]) by {
        assert(ls[pos + (1 + i)] == lines[1 + i]);
        assert(lines[1 + i] == cl[i]);
    }
    lemma_consts_read(ls, pos + 1, cv);
    assert forall|i: int| 0 <= i < nk implies ls[(pos + 1 + nc) + i] == op_line(#[trigger] c.code@[i])
        && op_writable(c.code@[i]) by {
        assert(ls[pos + (1 + nc + i)] == lines[1 + nc + i]);
        assert(lines[1 + nc + i] == ol[i]);
    }
    lemma_code_read(ls, pos + 1 + nc, c.code@);
}


proof fn lemma_chunks_read(ls: Seq<Seq<char>>, pos: nat, fs: Seq<Chunk>)
    requires
        forall|k: int| 0 <= k < fs.len() ==> chunk_writable(#[trigger] fs[k]),
        pos + chunks_lines(fs).len() == ls.len(),
        forall|i: int| 0 <= i < chunks_lines(fs).len() ==> ls[pos + i] == #[trigger] chunks_lines(fs)[i],
    ensures
        read_chunks(ls, pos) == Ok::<Seq<ChunkPlan>, Seq<char>>(fs.map_values(|c: Chunk| plan_of(c))),
    decreases fs.len(),
{
    if fs.len() == 0 {
        assert(fs.map_values(|c: Chunk| plan_of(c)) =~= Seq::<ChunkPlan>::empty());
    } else {
        let c = fs[0];
        let rest = fs.skip(1);
        let cl = chunk_lines(c);
        let all = chunks_lines(fs);
        assert(all == cl + chunks_lines(rest));
        assert(chunk_writable(c));
        assert forall|i: int| 0 <= i < cl.len() implies ls[pos + i] == #[trigger] cl[i] by {
            assert(all[i] == cl[i]);
        }
        lemma_chunk_read(ls, pos, c);
        let next = pos + cl.len();
        assert forall|k: int| 0 <= k < rest.len() implies chunk_writable(#[trigger] rest[k]) by {
            assert(rest[k] == fs[k + 1]);
        }
        assert forall|i: int| 0 <= i < chunks_lines(rest).len() implies ls[next + i] == #[trigger] chunks_lines(
            rest,
        )[i] by {
            assert(all[cl.len() + i] == chunks_lines(rest)[i]);
            assert(ls[pos + (cl.len() + i)] == all[cl.len() + i]);
        }
        lemma_chunks_read(ls, next, rest);
        assert(seq![plan_of(c)] + rest.map_values(|c: Chunk| plan_of(c)) =~= fs.map_values(
            |c: Chunk| plan_of(c),
        ));
    }
}


proof fn lemma_object_header_reads(main: usize)
    ensures
        plain_line(joined(object_header_words(main))),
        main_field(words(joined(object_header_words(main))), 0) == Some(decimal(main as nat)),
{
    reveal_strlit("lumen-obj");
    reveal_strlit("1");
    reveal_strlit("main=");
    let hw = object_header_words(main);
    let d = decimal(main as nat);
    lemma_decimal(main as nat);
    let w2 = hw[2];
    assert(w2 == "main="@ + d);
    assert forall|k: int| 0 <= k < w2.len() implies !spec_whitespace(#[trigger] w2[k]) by {
        if k >= 5 {
            assert(w2[k] == d[k - 5]);
        }
    }
    assert(plain_words(hw)) by {
        assert forall|i: int| 0 <= i < hw.len() implies plain_word(#[trigger] hw[i]) by {
            if i == 2 {
                assert(hw[i] == w2);
            }
        }
    }
    lemma_words_joined(hw);
    lemma_joined_plain(hw);
    let ws = words(joined(hw));
    assert(!has_prefix(ws[0], "main="@)) by {
        assert(ws[0].take(5)[0] != "main="@[0]);
    }
    assert(!has_prefix(ws[1], "main="@));
    assert(has_prefix(ws[2], "main="@)) by {
        assert(ws[2].take(5) =~= "main="@);
    }
    assert(ws[2].skip(5) =~= d);
    assert(main_field(ws, 2) == Some(d));
    assert(main_field(ws, 1) == main_field(ws, 2));
    assert(main_field(ws, 0) == main_field(ws, 1));
    let j = joined(hw);
    assert(j.last() != '\r');
}

pub proof fn lemma_chunks_lines_plain(fs: Seq<Chunk>)
    requires
        forall|k: int| 0 <= k < fs.len() ==> chunk_writable(#[trigger] fs[k]),
    ensures
        forall|i: int| 0 <= i < chunks_lines(fs).len() ==> plain_line(#[trigger] chunks_lines(fs)[i]),
    decreases fs.len(),
{
    if fs.len() > 0 {
        let c = fs[0];
        let rest = fs.skip(1);
        assert(chunk_writable(c));
        assert forall|k: int| 0 <= k < rest.len() implies chunk_writable(#[trigger] rest[k]) by {
            assert(rest[k] == fs[k + 1]);
        }
        lemma_chunks_lines_plain(rest);
        let cl = chunk_lines(c);
        let hw = chunk_header_words(c);
        lemma_header_reads(c);
        lemma_joined_plain(hw);
        let nc = c.consts@.len();
        assert forall|i: int| 0 <= i < cl.len() implies plain_line(#[trigger] cl[i]) by {
            if i == 0 {
                assert(cl[0] == joined(hw));
            } else if i < 1 + nc {
                assert(cl[i] == const_line(c.consts@[i - 1]@));
                lemma_const_line_reads(c.consts@[i - 1]@);
            } else {
                assert(cl[i] == op_line(c.code@[i - 1 - nc]));
                assert(op_writable(c.code@[i - 1 - nc]));
                lemma_op_line_reads(c.code@[i - 1 - nc]);
            }
        }
        let all = chunks_lines(fs);
        assert(all == cl + chunks_lines(rest));
        assert forall|i: int| 0 <= i < all.len() implies plain_line(#[trigger] all[i]) by {
            if i < cl.len() {
                assert(all[i] == cl[i]);
            } else {
                assert(all[i] == chunks_lines(rest)[i - cl.len()]);
            }
        }
    }
}


/// Whether a program's text reads back as the program: every function name
/// is a plain word, and so is every float literal, one the reader accepts.
pub open spec fn writable(p: &Program) -> bool {
    forall|k: int| 0 <= k < p.functions@.len() ==> chunk_writable(#[trigger] p.functions@[k])
}

/// Two functions alike: the same name, counts and constants (by their
/// text), and alike instructions.
pub open spec fn same_chunk(a: Chunk, b: Chunk) -> bool {
    &&& a.name@ == b.name@
    &&& a.n_params == b.n_params
    &&& a.n_locals == b.n_locals
    &&& a.consts@.len() == b.consts@.len()
    &&& forall|i: int| 0 <= i < a.consts@.len() ==> (#[trigger] a.consts@[i])@ == b.consts@[i]@
    &&& a.code@.len() == b.code@.len()
    &&& forall|i: int| 0 <= i < a.code@.len() ==> same_op(#[trigger] a.code@[i], b.code@[i])
}

/// Two programs alike: the same entry index and alike functions.
pub open spec fn same_program(a: &Program, b: &Program) -> bool {
    &&& a.main == b.main
    &&& a.functions@.len() == b.functions@.len()
    &&& forall|i: int| 0 <= i < a.functions@.len() ==> same_chunk(#[trigger] a.functions@[i], b.functions@[i])
}

/// Writing and reading are inverse: the object text of a program whose
/// function names and float literals are plain words (the literals ones
/// the reader accepts) reads without error, and what it reads as is the
/// program itself.
pub proof fn lemma_object_round_trip(p: &Program, q: &Program)
    requires
        writable(p),
    ensures
        read_object(object_text(p)) is Ok,
        read_as(object_text(p), q) ==> same_program(p, q),
{
    let fs = p.functions@;
    let ls = object_lines(p);
    let h = joined(object_header_words(p.main));
    assert(ls == seq![h] + chunks_lines(fs));
    lemma_object_header_reads(p.main);
    lemma_chunks_lines_plain(fs);
    assert forall|i: int| 0 <= i < ls.len() implies plain_line(#[trigger] ls[i]) by {
        if i > 0 {
            assert(ls[i] == chunks_lines(fs)[i - 1]);
        }
    }
    lemma_lines_unlines(ls);
    let t = object_text(p);
    assert(lines_of(t) == ls);
    assert(ls[0] == h);
    lemma_parse_decimal(p.main as nat, usize::MAX as nat);
    assert forall|i: int| 0 <= i < chunks_lines(fs).len() implies ls[1 + i] == #[trigger] chunks_lines(fs)[i] by {
    }
    lemma_chunks_read(ls, 1, fs);
    let plans = fs.map_values(|c: Chunk| plan_of(c));
    assert(read_object(t) == Ok::<(nat, Seq<ChunkPlan>), Seq<char>>((p.main as nat, plans)));
    if read_as(t, q) {
        assert forall|i: int| 0 <= i < fs.len() implies same_chunk(#[trigger] fs[i], q.functions@[i]) by {
            let a = fs[i];
            let b = q.functions@[i];
            assert(plans[i] == plan_of(a));
            assert(chunk_fits(b, plans[i]));
            assert(chunk_writable(a));
            assert forall|k: int| 0 <= k < a.consts@.len() implies (#[trigger] a.consts@[k])@ == b.consts@[k]@ by {
                assert(plan_of(a).consts[k] == a.consts@[k]@);
            }
            assert forall|k: int| 0 <= k < a.code@.len() implies same_op(#[trigger] a.code@[k], b.code@[k]) by {
                assert(plan_of(a).code[k] == op_words(a.code@[k]));
                assert(op_spelled(plan_of(a).code[k], b.code@[k]));
                assert(op_writable(a.code@[k]));
                lemma_op_spelled_unique(a.code@[k], b.code@[k]);
            }
        }
    }
}

} // verus!
