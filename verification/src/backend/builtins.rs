//! Evaluation of the builtin functions over integers, booleans and strings.
//!
//! Every execution engine calls into here, so a builtin behaves the same
//! whichever engine runs the program. Output from the `print_*` family is
//! appended to the caller's buffer. The builtins over floating-point values
//! are evaluated by the engine itself.

use vstd::prelude::*;
use vstd::string::*;
use vstd::utf8::*;

use crate::arith::{two_64, wraps_to};
use crate::backend::vm::{signed_decimal, VmError};
use crate::lexer::spec_whitespace;
use crate::sema::types::Builtin;
use crate::text::{chars_of, push_char, push_decimal, push_signed, push_str, str_get};

verus! {

/// A value a builtin takes or gives, other than a float or an array.
#[derive(Debug, Clone, PartialEq, Eq)]
pub enum Scalar {
    Int(i64),
    Bool(bool),
    Str(String),
    Unit,
}

/// A scalar, with a string taken by its characters.
pub enum ScalarView {
    Int(i64),
    Bool(bool),
    Str(Seq<char>),
    Unit,
}

impl View for Scalar {
    type V = ScalarView;

    open spec fn view(&self) -> ScalarView {
        match self {
            Scalar::Int(v) => ScalarView::Int(*v),
            Scalar::Bool(b) => ScalarView::Bool(*b),
            Scalar::Str(s) => ScalarView::Str(s@),
            Scalar::Unit => ScalarView::Unit,
        }
    }
}

/// The builtins over floating-point values, which the engine evaluates.
pub open spec fn uses_float(b: Builtin) -> bool {
    b is PrintFloat || b is FloatToStr || b is Sqrt || b is AbsFloat || b is Floor || b is PowFloat || b is MinFloat
        || b is MaxFloat || b is Ceil || b is Round || b is IntToFloat || b is FloatToInt
}

/// Whether a builtin works on floating-point values.
pub fn is_float_builtin(b: Builtin) -> (r: bool)
    ensures
        r == uses_float(b),
{
    match b {
        Builtin::PrintFloat | Builtin::FloatToStr | Builtin::Sqrt | Builtin::AbsFloat | Builtin::Floor
        | Builtin::PowFloat | Builtin::MinFloat | Builtin::MaxFloat | Builtin::Ceil | Builtin::Round
        | Builtin::IntToFloat | Builtin::FloatToInt => true,
        _ => false,
    }
}

// ---- integer helpers ----

/// The magnitude of an integer.
pub open spec fn magnitude(v: i64) -> nat {
    if v < 0 {
        (-v) as nat
    } else {
        v as nat
    }
}

/// The greatest common divisor, by Euclid's algorithm; `gcd(0, 0)` is 0.
pub open spec fn gcd_nat(a: nat, b: nat) -> nat
    decreases b,
{
    if b == 0 {
        a
    } else {
        gcd_nat(b, a % b)
    }
}

/// `|v|`, with `i64::MIN` staying as it is.
pub open spec fn wrapping_abs(v: i64) -> i64 {
    if v == i64::MIN {
        v
    } else if v < 0 {
        (-v) as i64
    } else {
        v
    }
}

/// The greatest common divisor is no larger than the larger argument.
proof fn lemma_gcd_le(a: nat, b: nat)
    ensures
        gcd_nat(a, b) <= if a >= b {
            a
        } else {
            b
        },
    decreases b,
{
    if b > 0 {
        lemma_gcd_le(b, a % b);
        assert(a % b < b);
    }
}

/// The greatest common divisor of two integers' magnitudes, unsigned.
fn gcd_mag(a: i64, b: i64) -> (r: u64)
    ensures
        r == gcd_nat(magnitude(a), magnitude(b)),
{
    let mut x: u64 = if a == i64::MIN {
        0x8000_0000_0000_0000
    } else if a < 0 {
        (-a) as u64
    } else {
        a as u64
    };
    let mut y: u64 = if b == i64::MIN {
        0x8000_0000_0000_0000
    } else if b < 0 {
        (-b) as u64
    } else {
        b as u64
    };
    while y != 0
        invariant
            gcd_nat(x as nat, y as nat) == gcd_nat(magnitude(a), magnitude(b)),
        decreases y,
    {
        let t = y;
        y = x % y;
        x = t;
    }
    x
}

/// The greatest common divisor of two integers' magnitudes.
pub fn gcd(a: i64, b: i64) -> (r: i64)
    ensures
        r == gcd_nat(magnitude(a), magnitude(b)) as i64,
{
    gcd_mag(a, b) as i64
}

/// A quotient by a divisor no smaller than the dividend is at most 1.
proof fn lemma_div_at_most_one(x: int, d: int)
    by (nonlinear_arith)
    requires
        0 <= x <= d,
        1 <= d,
    ensures
        0 <= x / d <= 1,
{
}

/// Division by a positive divisor keeps a value's sign and shrinks it.
proof fn lemma_div_shrinks(x: int, d: int)
    by (nonlinear_arith)
    requires
        0 <= x,
        1 <= d,
    ensures
        0 <= x / d <= x,
{
}

/// The least common multiple, as `|a / gcd * b|` with wrapping; 0 when
/// either argument is 0.
pub open spec fn lcm_spec(a: i64, b: i64) -> i64 {
    let g = gcd_nat(magnitude(a), magnitude(b)) as i64;
    if g == 0 {
        0
    } else {
        wrapping_abs(a.checked_div(g)->0.wrapping_mul(b))
    }
}

fn abs_wrapping(v: i64) -> (r: i64)
    ensures
        r == wrapping_abs(v),
{
    if v == i64::MIN {
        v
    } else if v < 0 {
        -v
    } else {
        v
    }
}

fn lcm(a: i64, b: i64) -> (r: i64)
    ensures
        r == lcm_spec(a, b),
{
    let gu = gcd_mag(a, b);
    let g = gu as i64;
    if g == 0 {
        return 0;
    }
    proof {
        lemma_gcd_le(magnitude(a), magnitude(b));
        if gu == 0x8000_0000_0000_0000u64 {
            assert(gu as i64 == i64::MIN) by (bit_vector)
                requires
                    gu == 0x8000_0000_0000_0000u64,
            ;
        } else {
            assert(gu < 0x8000_0000_0000_0000u64);
        }
        if g > 0 {
            if a >= 0 {
                lemma_div_shrinks(a as int, g as int);
            } else {
                lemma_div_shrinks(-(a as int), g as int);
            }
        } else {
            assert(g == i64::MIN);
            if a > 0 {
                lemma_div_at_most_one(a as int, 0x8000_0000_0000_0000);
                lemma_div_shrinks(a as int, 0x8000_0000_0000_0000);
            } else if a < 0 {
                lemma_div_at_most_one(-(a as int), 0x8000_0000_0000_0000);
            }
        }
        assert(a.checked_div(g) is Some);
    }
    let q = a.checked_div(g).unwrap();
    abs_wrapping(q.wrapping_mul(b))
}

/// `base` to the power `exp`, wrapping around at the bounds of `i64`
/// (`i64::wrapping_pow`): the integer power, truncated to 64 bits.
#[verifier::external_body]
fn wrapping_pow(base: i64, exp: u32) -> (r: i64)
    ensures
        r == vstd::arithmetic::power::pow(base as int, exp as nat) as i64,
{
    base.wrapping_pow(exp)
}

// ---- string helpers ----

/// Whether `needle`'s bytes occur in `hay` at byte offset `i`.
pub open spec fn occurs_at(hay: Seq<u8>, needle: Seq<u8>, i: int) -> bool {
    0 <= i && i + needle.len() <= hay.len() && hay.subrange(i, i + needle.len()) == needle
}

/// Whether `i` is the first offset `needle` occurs at in `hay`.
pub open spec fn first_occurrence(hay: Seq<u8>, needle: Seq<u8>, i: int) -> bool {
    occurs_at(hay, needle, i) && forall|j: int| 0 <= j < i ==> !occurs_at(hay, needle, j)
}

/// The byte offset of the first occurrence of `needle` in `hay`, or -1.
pub open spec fn find_offset(hay: Seq<u8>, needle: Seq<u8>) -> int {
    if exists|i: int| occurs_at(hay, needle, i) {
        choose|i: int| first_occurrence(hay, needle, i)
    } else {
        -1
    }
}

/// Whether the bytes of `needle` occur in `hay` at offset `i`, by comparison.
fn occurs_at_exec(hay: &[u8], needle: &[u8], i: usize) -> (r: bool)
    requires
        i + needle@.len() <= hay@.len(),
    ensures
        r == occurs_at(hay@, needle@, i as int),
{
    let hl = hay.len();
    let mut k: usize = 0;
    while k < needle.len()
        invariant
            k <= needle@.len(),
            i + needle@.len() <= hay@.len(),
            hl == hay@.len(),
            forall|j: int| 0 <= j < k ==> hay@[i + j] == needle@[j],
        decreases needle@.len() - k,
    {
        if hay[i + k] != needle[k] {
            proof {
                assert(hay@.subrange(i as int, i + needle@.len())[k as int] != needle@[k as int]);
            }
            return false;
        }
        k = k + 1;
    }
    assert(hay@.subrange(i as int, i + needle@.len()) =~= needle@);
    true
}

/// The first byte offset `needle` occurs at in `hay`, if any.
fn find_bytes(hay: &[u8], needle: &[u8]) -> (r: Option<usize>)
    ensures
        r matches Some(i) ==> first_occurrence(hay@, needle@, i as int),
        r is None ==> forall|i: int| !occurs_at(hay@, needle@, i),
{
    if needle.len() > hay.len() {
        return None;
    }
    let last = hay.len() - needle.len();
    let mut i: usize = 0;
    loop
        invariant
            last == hay@.len() - needle@.len(),
            i <= last,
            forall|j: int| 0 <= j < i ==> !occurs_at(hay@, needle@, j),
        decreases last - i,
    {
        if occurs_at_exec(hay, needle, i) {
            return Some(i);
        }
        if i == last {
            proof {
                assert forall|j: int| !occurs_at(hay@, needle@, j) by {
                    if 0 <= j < i {
                    }
                }
            }
            return None;
        }
        i = i + 1;
    }
}

/// ASCII upper-casing of one character.
pub open spec fn upper(c: char) -> char {
    if 'a' <= c <= 'z' {
        ((c as u32) - 32) as char
    } else {
        c
    }
}

/// ASCII lower-casing of one character.
pub open spec fn lower(c: char) -> char {
    if 'A' <= c <= 'Z' {
        ((c as u32) + 32) as char
    } else {
        c
    }
}

fn map_case(s: &str, to_upper: bool) -> (r: String)
    ensures
        r@ == s@.map_values(|c: char| if to_upper { upper(c) } else { lower(c) }),
{
    let cs = chars_of(s);
    let mut r = String::new();
    let mut i: usize = 0;
    while i < cs.len()
        invariant
            i <= cs@.len(),
            cs@ == s@,
            r@ == s@.take(i as int).map_values(|c: char| if to_upper { upper(c) } else { lower(c) }),
        decreases cs@.len() - i,
    {
        let c = cs[i];
        let m = if to_upper && 'a' <= c && c <= 'z' {
            ((c as u32) - 32) as u8 as char
        } else if !to_upper && 'A' <= c && c <= 'Z' {
            ((c as u32) + 32) as u8 as char
        } else {
            c
        };
        push_char(&mut r, m);
        proof {
            assert(s@.take(i + 1) =~= s@.take(i as int).push(c));
        }
        i = i + 1;
    }
    assert(s@.take(cs@.len() as int) =~= s@);
    r
}

/// `s` repeated `n` times.
pub open spec fn repeat(s: Seq<char>, n: nat) -> Seq<char>
    decreases n,
{
    if n == 0 {
        Seq::empty()
    } else {
        repeat(s, (n - 1) as nat) + s
    }
}

/// The text without its leading white space (`char::is_whitespace`).
pub open spec fn trim_start(s: Seq<char>) -> Seq<char>
    decreases s.len(),
{
    if s.len() > 0 && spec_whitespace(s[0]) {
        trim_start(s.drop_first())
    } else {
        s
    }
}

/// The text without its trailing white space.
pub open spec fn trim_end(s: Seq<char>) -> Seq<char>
    decreases s.len(),
{
    if s.len() > 0 && spec_whitespace(s.last()) {
        trim_end(s.drop_last())
    } else {
        s
    }
}

/// The text with leading and trailing white space removed (`str::trim`).
pub open spec fn trimmed(s: Seq<char>) -> Seq<char> {
    trim_end(trim_start(s))
}

/// `str::trim`: the string without its leading and trailing white space,
/// where white space is what `char::is_whitespace` accepts ([`trimmed`]).
#[verifier::external_body]
fn trim(s: &str) -> (r: &str)
    ensures
        r@ == trimmed(s@),
{
    s.trim()
}

/// Whether every character is an ASCII digit.
pub open spec fn all_digits(s: Seq<char>) -> bool {
    forall|i: int| 0 <= i < s.len() ==> '0' <= #[trigger] s[i] <= '9'
}

/// The value of a string of ASCII digits.
pub open spec fn digits_value(s: Seq<char>) -> int
    decreases s.len(),
{
    if s.len() == 0 {
        0
    } else {
        digits_value(s.drop_last()) * 10 + (s.last() as int - '0' as int)
    }
}

/// The integer a text spells in decimal, if it spells one that fits `i64`
/// (`str::parse::<i64>`): an optional `+` or `-` sign, then one or more
/// ASCII digits and nothing else.
pub open spec fn parsed_i64(s: Seq<char>) -> Option<i64> {
    let neg = s.len() > 0 && s[0] == '-';
    let digits = if s.len() > 0 && (s[0] == '-' || s[0] == '+') {
        s.drop_first()
    } else {
        s
    };
    let v = if neg {
        -digits_value(digits)
    } else {
        digits_value(digits)
    };
    if digits.len() > 0 && all_digits(digits) && i64::MIN <= v <= i64::MAX {
        Some(v as i64)
    } else {
        None
    }
}

/// `str::parse::<i64>`: the integer the text spells, if any ([`parsed_i64`]).
#[verifier::external_body]
fn parse_i64(s: &str) -> (r: Option<i64>)
    ensures
        r == parsed_i64(s@),
{
    s.parse::<i64>().ok()
}

/// The decimal spelling of a boolean.
pub open spec fn bool_word(b: bool) -> Seq<char> {
    if b {
        "true"@
    } else {
        "false"@
    }
}

/// The bytes `[lo, hi)` of a text as a string, the empty string when they
/// do not fall on character boundaries.
pub open spec fn byte_slice(s: Seq<char>, lo: int, hi: int) -> Seq<char> {
    let b = encode_utf8(s);
    if lo < hi && is_char_boundary(b, lo) && is_char_boundary(b, hi) {
        decode_utf8(b.subrange(lo, hi))
    } else {
        Seq::empty()
    }
}

/// `v` clamped to `[lo, hi]`.
pub open spec fn clamp_int(v: int, lo: int, hi: int) -> int {
    if v < lo {
        lo
    } else if v > hi {
        hi
    } else {
        v
    }
}

/// The integer builtins compute what their names say: `min_int` and
/// `max_int` give the smaller and the larger argument, `abs_int` the
/// magnitude (modulo 2^64, so `i64::MIN` stays itself) and `sign_int` the
/// sign; none of them prints.
pub proof fn lemma_int_builtins(x: i64, y: i64)
    ensures
        builtin_effect(Builtin::MinInt, seq![ScalarView::Int(x), ScalarView::Int(y)]) matches Some(
            (out, Ok(ScalarView::Int(r))),
        ) && out.len() == 0 && r <= x && r <= y && (r == x || r == y),
        builtin_effect(Builtin::MaxInt, seq![ScalarView::Int(x), ScalarView::Int(y)]) matches Some(
            (out, Ok(ScalarView::Int(r))),
        ) && out.len() == 0 && r >= x && r >= y && (r == x || r == y),
        builtin_effect(Builtin::AbsInt, seq![ScalarView::Int(x)]) matches Some((out, Ok(ScalarView::Int(r))))
            && out.len() == 0 && wraps_to(r, if x < 0 { -x } else { x as int }) && (x != i64::MIN ==> r >= 0),
        builtin_effect(Builtin::SignInt, seq![ScalarView::Int(x)]) matches Some((out, Ok(ScalarView::Int(r))))
            && out.len() == 0 && (r < 0 <==> x < 0) && (r > 0 <==> x > 0) && -1 <= r <= 1,
{
    assert(seq![ScalarView::Int(x), ScalarView::Int(y)].len() == 2);
    assert(seq![ScalarView::Int(x)].len() == 1);
    if x == i64::MIN {
        assert((x as int - (-x)) % two_64() == 0);
    }
}

/// What a builtin does with its arguments: the text it prints and its
/// result, or `None` when the arguments do not fit it.
pub open spec fn builtin_effect(b: Builtin, args: Seq<ScalarView>) -> Option<(Seq<char>, Result<ScalarView, VmError>)> {
    let n = args.len();
    let unit = Ok(ScalarView::Unit);
    if n == 1 {
        match (b, args[0]) {
            (Builtin::PrintInt, ScalarView::Int(v)) => Some((signed_decimal(v) + "\n"@, unit)),
            (Builtin::PrintBool, ScalarView::Bool(v)) => Some((bool_word(v) + "\n"@, unit)),
            (Builtin::PrintStr, ScalarView::Str(s)) => Some((s + "\n"@, unit)),
            (Builtin::IntToStr, ScalarView::Int(v)) => Some((Seq::empty(), Ok(ScalarView::Str(signed_decimal(v))))),
            (Builtin::BoolToStr, ScalarView::Bool(v)) => Some((Seq::empty(), Ok(ScalarView::Str(bool_word(v))))),
            (Builtin::StrLen, ScalarView::Str(s)) => Some(
                (Seq::empty(), Ok(ScalarView::Int(encode_utf8(s).len() as i64))),
            ),
            (Builtin::AbsInt, ScalarView::Int(v)) => Some((Seq::empty(), Ok(ScalarView::Int(wrapping_abs(v))))),
            (Builtin::SignInt, ScalarView::Int(v)) => Some(
                (Seq::empty(), Ok(ScalarView::Int(if v < 0 { -1i64 } else if v > 0 { 1i64 } else { 0i64 }))),
            ),
            (Builtin::ParseInt, ScalarView::Str(s)) => Some(
                (
                    Seq::empty(),
                    Ok(
                        ScalarView::Int(
                            match parsed_i64(trimmed(s)) {
                                Some(v) => v,
                                None => 0,
                            },
                        ),
                    ),
                ),
            ),
            (Builtin::ToUpper, ScalarView::Str(s)) => Some(
                (Seq::empty(), Ok(ScalarView::Str(s.map_values(|c: char| upper(c))))),
            ),
            (Builtin::ToLower, ScalarView::Str(s)) => Some(
                (Seq::empty(), Ok(ScalarView::Str(s.map_values(|c: char| lower(c))))),
            ),
            (Builtin::Trim, ScalarView::Str(s)) => Some((Seq::empty(), Ok(ScalarView::Str(trimmed(s))))),
            (Builtin::CharToStr, ScalarView::Int(v)) => Some(
                (
                    Seq::empty(),
                    Ok(
                        ScalarView::Str(
                            if 0 <= v < 128 {
                                seq![v as char]
                            } else {
                                Seq::empty()
                            },
                        ),
                    ),
                ),
            ),
            _ => None,
        }
    } else if n == 2 {
        match (b, args[0], args[1]) {
            (Builtin::MinInt, ScalarView::Int(x), ScalarView::Int(y)) => Some(
                (Seq::empty(), Ok(ScalarView::Int(if x <= y { x } else { y }))),
            ),
            (Builtin::MaxInt, ScalarView::Int(x), ScalarView::Int(y)) => Some(
                (Seq::empty(), Ok(ScalarView::Int(if x >= y { x } else { y }))),
            ),
            (Builtin::PowInt, ScalarView::Int(x), ScalarView::Int(y)) => Some(
                (
                    Seq::empty(),
                    if 0 <= y <= u32::MAX {
                        Ok(ScalarView::Int(vstd::arithmetic::power::pow(x as int, y as nat) as i64))
                    } else {
                        Err(VmError::Internal("negative exponent"))
                    },
                ),
            ),
            (Builtin::Gcd, ScalarView::Int(x), ScalarView::Int(y)) => Some(
                (Seq::empty(), Ok(ScalarView::Int(gcd_nat(magnitude(x), magnitude(y)) as i64))),
            ),
            (Builtin::Lcm, ScalarView::Int(x), ScalarView::Int(y)) => Some(
                (Seq::empty(), Ok(ScalarView::Int(lcm_spec(x, y)))),
            ),
            (Builtin::CharAt, ScalarView::Str(s), ScalarView::Int(i)) => Some(
                (
                    Seq::empty(),
                    if 0 <= i < encode_utf8(s).len() {
                        Ok(ScalarView::Int(encode_utf8(s)[i as int] as i64))
                    } else {
                        Err(VmError::IndexOutOfBounds { index: i, len: encode_utf8(s).len() as usize })
                    },
                ),
            ),
            (Builtin::StrRepeat, ScalarView::Str(s), ScalarView::Int(k)) => Some(
                (Seq::empty(), Ok(ScalarView::Str(repeat(s, (if k < 0 { 0 } else { k }) as usize as nat)))),
            ),
            (Builtin::StartsWith, ScalarView::Str(s), ScalarView::Str(p)) => Some(
                (Seq::empty(), Ok(ScalarView::Bool(occurs_at(encode_utf8(s), encode_utf8(p), 0)))),
            ),
            (Builtin::EndsWith, ScalarView::Str(s), ScalarView::Str(p)) => Some(
                (
                    Seq::empty(),
                    Ok(
                        ScalarView::Bool(
                            occurs_at(encode_utf8(s), encode_utf8(p), encode_utf8(s).len() - encode_utf8(p).len()),
                        ),
                    ),
                ),
            ),
            (Builtin::Contains, ScalarView::Str(s), ScalarView::Str(p)) => Some(
                (
                    Seq::empty(),
                    Ok(ScalarView::Bool(exists|i: int| occurs_at(encode_utf8(s), encode_utf8(p), i))),
                ),
            ),
            (Builtin::IndexOf, ScalarView::Str(s), ScalarView::Str(p)) => Some(
                (Seq::empty(), Ok(ScalarView::Int(find_offset(encode_utf8(s), encode_utf8(p)) as i64))),
            ),
            _ => None,
        }
    } else if n == 3 {
        match (b, args[0], args[1], args[2]) {
            (Builtin::ClampInt, ScalarView::Int(v), ScalarView::Int(lo), ScalarView::Int(hi)) => Some(
                (Seq::empty(), Ok(ScalarView::Int(if lo > hi { lo } else { clamp_int(v as int, lo as int, hi as int) as i64 }))),
            ),
            (Builtin::Substring, ScalarView::Str(s), ScalarView::Int(lo), ScalarView::Int(hi)) => {
                let len = encode_utf8(s).len() as int;
                Some(
                    (
                        Seq::empty(),
                        Ok(ScalarView::Str(byte_slice(s, clamp_int(lo as int, 0, len), clamp_int(hi as int, 0, len)))),
                    ),
                )
            },
            _ => None,
        }
    } else {
        None
    }
}


/// The error for arguments that do not fit a builtin.
pub open spec fn wrong_argument() -> VmError {
    VmError::Internal("builtin called with wrong argument")
}

fn bad() -> (e: VmError)
    ensures
        e == wrong_argument(),
{
    VmError::Internal("builtin called with wrong argument")
}

/// Appends a line: the text, then a newline.
fn print_line(out: &mut String, text: &str)
    ensures
        final(out)@ == old(out)@ + text@ + "\n"@,
{
    push_str(out, text);
    push_str(out, "\n");
    proof {
        reveal_strlit("\n");
    }
}

fn decimal_of(v: i64) -> (s: String)
    ensures
        s@ == signed_decimal(v),
{
    let mut s = String::new();
    push_signed(&mut s, v);
    s
}

fn bool_string(b: bool) -> (s: String)
    ensures
        s@ == bool_word(b),
{
    if b {
        "true".to_owned()
    } else {
        "false".to_owned()
    }
}

/// Evaluates a builtin over integers, booleans and strings, appending what it
/// prints to `out`: see [`builtin_effect`]. Arguments that do not fit the
/// builtin are an internal error, since the checker guarantees arity and
/// types.
pub fn eval(builtin: Builtin, args: &Vec<Scalar>, out: &mut String) -> (r: Result<Scalar, VmError>)
    requires
        !uses_float(builtin),
    ensures
        match builtin_effect(builtin, args@.map_values(|a: Scalar| a@)) {
            Some((printed, res)) => final(out)@ == old(out)@ + printed && match (r, res) {
                (Ok(v), Ok(w)) => v@ == w,
                (Err(e), Err(f)) => e == f,
                _ => false,
            },
            None => final(out)@ == old(out)@ && r == Err::<Scalar, VmError>(wrong_argument()),
        },
{
    proof {
        reveal_strlit("\n");
        reveal_strlit("true");
        reveal_strlit("false");
    }
    let ghost views = args@.map_values(|a: Scalar| a@);
    let n = args.len();
    assert(views.len() == n);
    if n == 1 {
        assert(views[0] == args@[0]@);
        match (builtin, &args[0]) {
            (Builtin::PrintInt, Scalar::Int(v)) => {
                let t = decimal_of(*v);
                print_line(out, t.as_str());
                Ok(Scalar::Unit)
            },
            (Builtin::PrintBool, Scalar::Bool(v)) => {
                let t = bool_string(*v);
                print_line(out, t.as_str());
                Ok(Scalar::Unit)
            },
            (Builtin::PrintStr, Scalar::Str(v)) => {
                print_line(out, v.as_str());
                Ok(Scalar::Unit)
            },
            (Builtin::IntToStr, Scalar::Int(v)) => Ok(Scalar::Str(decimal_of(*v))),
            (Builtin::BoolToStr, Scalar::Bool(v)) => Ok(Scalar::Str(bool_string(*v))),
            (Builtin::StrLen, Scalar::Str(v)) => Ok(Scalar::Int(v.as_str().as_bytes().len() as i64)),
            (Builtin::AbsInt, Scalar::Int(v)) => Ok(Scalar::Int(abs_wrapping(*v))),
            (Builtin::SignInt, Scalar::Int(v)) => Ok(
                Scalar::Int(
                    if *v < 0 {
                        -1
                    } else if *v > 0 {
                        1
                    } else {
                        0
                    },
                ),
            ),
            (Builtin::ParseInt, Scalar::Str(v)) => {
                let t = trim(v.as_str());
                Ok(
                    Scalar::Int(
                        match parse_i64(t) {
                            Some(x) => x,
                            None => 0,
                        },
                    ),
                )
            },
            (Builtin::ToUpper, Scalar::Str(v)) => {
                let r = map_case(v.as_str(), true);
                assert(r@ =~= v@.map_values(|c: char| upper(c)));
                Ok(Scalar::Str(r))
            },
            (Builtin::ToLower, Scalar::Str(v)) => {
                let r = map_case(v.as_str(), false);
                assert(r@ =~= v@.map_values(|c: char| lower(c)));
                Ok(Scalar::Str(r))
            },
            (Builtin::Trim, Scalar::Str(v)) => Ok(Scalar::Str(trim(v.as_str()).to_owned())),
            (Builtin::CharToStr, Scalar::Int(v)) => {
                let mut t = String::new();
                if 0 <= *v && *v < 128 {
                    let c = (*v as u8) as char;
                    assert(c == *v as char);
                    push_char(&mut t, c);
                    assert(t@ =~= seq![*v as char]);
                } else {
                    assert(t@ =~= Seq::<char>::empty());
                }
                Ok(Scalar::Str(t))
            },
            _ => Err(bad()),
        }
    } else if n == 2 {
        assert(views[0] == args@[0]@ && views[1] == args@[1]@);
        match (builtin, &args[0], &args[1]) {
            (Builtin::MinInt, Scalar::Int(x), Scalar::Int(y)) => Ok(
                Scalar::Int(
                    if *x <= *y {
                        *x
                    } else {
                        *y
                    },
                ),
            ),
            (Builtin::MaxInt, Scalar::Int(x), Scalar::Int(y)) => Ok(
                Scalar::Int(
                    if *x >= *y {
                        *x
                    } else {
                        *y
                    },
                ),
            ),
            (Builtin::PowInt, Scalar::Int(x), Scalar::Int(y)) => {
                if *y < 0 || *y > 0xffff_ffff {
                    Err(VmError::Internal("negative exponent"))
                } else {
                    Ok(Scalar::Int(wrapping_pow(*x, *y as u32)))
                }
            },
            (Builtin::Gcd, Scalar::Int(x), Scalar::Int(y)) => Ok(Scalar::Int(gcd(*x, *y))),
            (Builtin::Lcm, Scalar::Int(x), Scalar::Int(y)) => Ok(Scalar::Int(lcm(*x, *y))),
            (Builtin::CharAt, Scalar::Str(t), Scalar::Int(i)) => {
                let bytes = t.as_str().as_bytes();
                if 0 <= *i && (*i as u64) < (bytes.len() as u64) {
                    Ok(Scalar::Int(bytes[*i as usize] as i64))
                } else {
                    Err(VmError::IndexOutOfBounds { index: *i, len: bytes.len() })
                }
            },
            (Builtin::StrRepeat, Scalar::Str(t), Scalar::Int(k)) => {
                let count = (if *k < 0 {
                    0
                } else {
                    *k
                }) as usize;
                let mut r = String::new();
                let mut j: usize = 0;
                while j < count
                    invariant
                        j <= count,
                        r@ == repeat(t@, j as nat),
                    decreases count - j,
                {
                    push_str(&mut r, t.as_str());
                    j = j + 1;
                }
                Ok(Scalar::Str(r))
            },
            (Builtin::StartsWith, Scalar::Str(t), Scalar::Str(p)) => {
                let h = t.as_str().as_bytes();
                let q = p.as_str().as_bytes();
                Ok(Scalar::Bool(q.len() <= h.len() && occurs_at_exec(h, q, 0)))
            },
            (Builtin::EndsWith, Scalar::Str(t), Scalar::Str(p)) => {
                let h = t.as_str().as_bytes();
                let q = p.as_str().as_bytes();
                Ok(Scalar::Bool(q.len() <= h.len() && occurs_at_exec(h, q, h.len() - q.len())))
            },
            (Builtin::Contains, Scalar::Str(t), Scalar::Str(p)) => {
                let h = t.as_str().as_bytes();
                let q = p.as_str().as_bytes();
                let found = find_bytes(h, q);
                Ok(Scalar::Bool(found.is_some()))
            },
            (Builtin::IndexOf, Scalar::Str(t), Scalar::Str(p)) => {
                let h = t.as_str().as_bytes();
                let q = p.as_str().as_bytes();
                match find_bytes(h, q) {
                    Some(i) => {
                        proof {
                            let c = choose|c: int| first_occurrence(h@, q@, c);
                            assert(first_occurrence(h@, q@, i as int));
                            if c < i {
                                assert(!occurs_at(h@, q@, c));
                            } else if c > i {
                                assert(!occurs_at(h@, q@, i as int));
                            }
                        }
                        Ok(Scalar::Int(i as i64))
                    },
                    None => Ok(Scalar::Int(-1)),
                }
            },
            _ => Err(bad()),
        }
    } else if n == 3 {
        assert(views[0] == args@[0]@ && views[1] == args@[1]@ && views[2] == args@[2]@);
        match (builtin, &args[0], &args[1], &args[2]) {
            (Builtin::ClampInt, Scalar::Int(v), Scalar::Int(lo), Scalar::Int(hi)) => Ok(
                Scalar::Int(
                    if *lo > *hi {
                        *lo
                    } else if *v < *lo {
                        *lo
                    } else if *v > *hi {
                        *hi
                    } else {
                        *v
                    },
                ),
            ),
            (Builtin::Substring, Scalar::Str(t), Scalar::Int(lo), Scalar::Int(hi)) => {
                let len = t.as_str().as_bytes().len();
                let ghost bl = encode_utf8(t@).len() as int;
                assert(len as int == bl);
                let start: usize = if *lo < 0 {
                    0
                } else if (*lo as u64) > (len as u64) {
                    len
                } else {
                    *lo as usize
                };
                let end: usize = if *hi < 0 {
                    0
                } else if (*hi as u64) > (len as u64) {
                    len
                } else {
                    *hi as usize
                };
                assert(start as int == clamp_int(*lo as int, 0, bl));
                assert(end as int == clamp_int(*hi as int, 0, bl));
                if start >= end {
                    return Ok(Scalar::Str(String::new()));
                }
                match str_get(t.as_str(), start, end) {
                    Some(sub) => {
                        proof {
                            encode_utf8_decode_utf8(sub@);
                        }
                        Ok(Scalar::Str(sub.to_owned()))
                    },
                    None => Ok(Scalar::Str(String::new())),
                }
            },
            _ => Err(bad()),
        }
    } else {
        Err(bad())
    }
}

} // verus!
