//! Small string utilities over `String`/`&str`, stated over their character
//! sequences.

use vstd::prelude::*;
use vstd::string::*;

verus! {

/// Appends one character to a string (`String::push`).
#[verifier::external_body]
pub fn push_char(s: &mut String, c: char)
    ensures
        final(s)@ == old(s)@.push(c),
{
    s.push(c);
}

/// String equality: equal exactly when the two strings hold the same
/// characters.
pub fn str_eq(a: &str, b: &str) -> (r: bool)
    ensures
        r == (a@ == b@),
{
    let x = chars_of(a);
    let y = chars_of(b);
    if x.len() != y.len() {
        return false;
    }
    let mut i: usize = 0;
    while i < x.len()
        invariant
            x@ == a@,
            y@ == b@,
            x@.len() == y@.len(),
            0 <= i <= x@.len(),
            forall|k: int| 0 <= k < i ==> x@[k] == y@[k],
        decreases x@.len() - i,
    {
        if x[i] != y[i] {
            return false;
        }
        i = i + 1;
    }
    assert(x@ =~= y@);
    true
}

/// The sub-slice of `s` covering bytes `[lo, hi)` (`str::get` on a range):
/// present exactly when the range lies within `s` and both ends fall on
/// character boundaries.
#[verifier::external_body]
pub fn str_get(s: &str, lo: usize, hi: usize) -> (r: Option<&str>)
    ensures
        r is Some <==> (lo <= hi && hi <= s.spec_bytes().len() && vstd::utf8::is_char_boundary(
            s.spec_bytes(),
            lo as int,
        ) && vstd::utf8::is_char_boundary(s.spec_bytes(), hi as int)),
        r matches Some(t) ==> t.spec_bytes() == s.spec_bytes().subrange(lo as int, hi as int),
{
    s.get(lo..hi)
}

/// The characters of a string, in order.
pub fn chars_of(s: &str) -> (v: Vec<char>)
    ensures
        v@ == s@,
{
    let mut v: Vec<char> = Vec::new();
    for c in it: s.chars()
        invariant
            v@ == it.seq().take(it.index() as int),
    {
        v.push(c);
    }
    v
}

/// Appends a string slice to a string.
pub fn push_str(s: &mut String, t: &str)
    ensures
        final(s)@ == old(s)@ + t@,
{
    s.append(t);
}


/// The decimal digit character for `d` (`0 <= d < 10`).
pub open spec fn spec_digit(d: nat) -> char {
    if d == 0 { '0' } else if d == 1 { '1' } else if d == 2 { '2' } else if d == 3 { '3' }
    else if d == 4 { '4' } else if d == 5 { '5' } else if d == 6 { '6' } else if d == 7 { '7' }
    else if d == 8 { '8' } else { '9' }
}

/// The decimal spelling of `n`, without leading zeros.
pub open spec fn decimal(n: nat) -> Seq<char>
    decreases n,
{
    if n < 10 {
        seq![spec_digit(n)]
    } else {
        decimal(n / 10).push(spec_digit(n % 10))
    }
}

fn digit(d: u64) -> (c: char)
    requires
        d < 10,
    ensures
        c == spec_digit(d as nat),
{
    if d == 0 { '0' } else if d == 1 { '1' } else if d == 2 { '2' } else if d == 3 { '3' }
    else if d == 4 { '4' } else if d == 5 { '5' } else if d == 6 { '6' } else if d == 7 { '7' }
    else if d == 8 { '8' } else { '9' }
}

/// Appends the decimal spelling of `n`.
pub fn push_decimal(s: &mut String, n: u64)
    ensures
        final(s)@ == old(s)@ + decimal(n as nat),
    decreases n,
{
    if n >= 10 {
        push_decimal(s, n / 10);
    }
    push_char(s, digit(n % 10));
    proof {
        if n >= 10 {
            assert(old(s)@ + decimal(n as nat) =~= old(s)@ + decimal((n / 10) as nat) + seq![spec_digit((n % 10) as nat)]);
        }
    }
}

/// Appends the decimal spelling of a signed integer (with a leading `-` for
/// negative values).
pub fn push_signed(s: &mut String, n: i64)
    ensures
        final(s)@ == old(s)@ + if n < 0 { seq!['-'] + decimal((-n) as nat) } else { decimal(n as nat) },
{
    if n < 0 {
        push_char(s, '-');
        let m: u64 = if n == i64::MIN { 9223372036854775808u64 } else { (-n) as u64 };
        push_decimal(s, m);
        proof {
            assert(final(s)@ =~= old(s)@ + (seq!['-'] + decimal((-n) as nat)));
        }
    } else {
        push_decimal(s, n as u64);
    }
}

/// Joins three string pieces.
pub fn cat3(a: &str, b: &str, c: &str) -> (r: String)
    ensures
        r@ == a@ + b@ + c@,
{
    let mut r = a.to_owned();
    push_str(&mut r, b);
    push_str(&mut r, c);
    r
}

/// Joins five string pieces.
pub fn cat5(a: &str, b: &str, c: &str, d: &str, e: &str) -> (r: String)
    ensures
        r@ == a@ + b@ + c@ + d@ + e@,
{
    let mut r = a.to_owned();
    push_str(&mut r, b);
    push_str(&mut r, c);
    push_str(&mut r, d);
    push_str(&mut r, e);
    r
}

/// The decimal spelling of `n` as a string.
pub fn decimal_string(n: u64) -> (r: String)
    ensures
        r@ == decimal(n as nat),
{
    let mut r = String::new();
    push_decimal(&mut r, n);
    assert(r@ =~= decimal(n as nat));
    r
}


/// Lexicographic order on byte sequences (a proper prefix comes first).
pub open spec fn bytes_lt(a: Seq<u8>, b: Seq<u8>) -> bool
    decreases a.len(),
{
    if a.len() == 0 {
        b.len() > 0
    } else if b.len() == 0 {
        false
    } else if a[0] != b[0] {
        a[0] < b[0]
    } else {
        bytes_lt(a.drop_first(), b.drop_first())
    }
}

/// The order is irreflexive.
pub proof fn lemma_bytes_lt_irrefl(a: Seq<u8>)
    ensures
        !bytes_lt(a, a),
    decreases a.len(),
{
    if a.len() > 0 {
        lemma_bytes_lt_irrefl(a.drop_first());
    }
}

/// The order is transitive.
pub proof fn lemma_bytes_lt_trans(a: Seq<u8>, b: Seq<u8>, c: Seq<u8>)
    requires
        bytes_lt(a, b),
        bytes_lt(b, c),
    ensures
        bytes_lt(a, c),
    decreases a.len(),
{
    if a.len() > 0 && b.len() > 0 && c.len() > 0 && a[0] == b[0] && b[0] == c[0] {
        lemma_bytes_lt_trans(a.drop_first(), b.drop_first(), c.drop_first());
    }
}

/// Any two distinct sequences are ordered one way or the other.
pub proof fn lemma_bytes_lt_total(a: Seq<u8>, b: Seq<u8>)
    ensures
        a == b || bytes_lt(a, b) || bytes_lt(b, a),
    decreases a.len(),
{
    if a.len() > 0 && b.len() > 0 && a[0] == b[0] {
        lemma_bytes_lt_total(a.drop_first(), b.drop_first());
        if a.drop_first() == b.drop_first() {
            assert(a =~= seq![a[0]] + a.drop_first());
            assert(b =~= seq![b[0]] + b.drop_first());
        }
    } else if a.len() == 0 && b.len() == 0 {
        assert(a =~= b);
    }
}

/// String order: strings are ordered lexicographically by their bytes.
pub fn str_lt(a: &str, b: &str) -> (r: bool)
    ensures
        r == bytes_lt(a.spec_bytes(), b.spec_bytes()),
{
    let x = a.as_bytes();
    let y = b.as_bytes();
    let mut i: usize = 0;
    assert(x@.skip(0) =~= x@);
    assert(y@.skip(0) =~= y@);
    while i < x.len() && i < y.len()
        invariant
            x@ == a.spec_bytes(),
            y@ == b.spec_bytes(),
            0 <= i <= x@.len(),
            i <= y@.len(),
            bytes_lt(x@, y@) == bytes_lt(x@.skip(i as int), y@.skip(i as int)),
        decreases x@.len() - i,
    {
        assert(x@.skip(i as int)[0] == x@[i as int]);
        assert(y@.skip(i as int)[0] == y@[i as int]);
        if x[i] != y[i] {
            return x[i] < y[i];
        }
        assert(x@.skip(i as int).drop_first() =~= x@.skip(i + 1));
        assert(y@.skip(i as int).drop_first() =~= y@.skip(i + 1));
        i = i + 1;
    }
    assert(x@.skip(i as int).len() == x@.len() - i);
    assert(y@.skip(i as int).len() == y@.len() - i);
    i < y.len()
}

/// Equal strings have equal encodings, and conversely.
pub proof fn lemma_bytes_eq(a: &str, b: &str)
    ensures
        (a@ == b@) <==> (a.spec_bytes() == b.spec_bytes()),
{
    if a.spec_bytes() == b.spec_bytes() {
        vstd::utf8::encode_utf8_decode_utf8(a@);
        vstd::utf8::encode_utf8_decode_utf8(b@);
    }
}

/// Every string of `r` is strictly below the next, by byte order.
pub open spec fn strictly_sorted(r: Seq<&str>) -> bool {
    forall|i: int, j: int|
        0 <= i < j < r.len() ==> bytes_lt((#[trigger] r[i]).spec_bytes(), (#[trigger] r[j]).spec_bytes())
}

/// Every string of `r` is one of the strings of `v`.
pub open spec fn drawn_from(r: Seq<&str>, v: Seq<&str>) -> bool {
    forall|i: int| 0 <= i < r.len() ==> #[trigger] v.contains(r[i])
}

/// Each of the first `k` strings of `v` has the same text as some string of `r`.
pub open spec fn covers(r: Seq<&str>, v: Seq<&str>, k: int) -> bool {
    forall|q: int| 0 <= q < k ==> exists|i: int| 0 <= i < r.len() && (#[trigger] r[i])@ == (#[trigger] v[q])@
}

proof fn lemma_insert_sorted(before: Seq<&str>, p: int, s: &str)
    requires
        strictly_sorted(before),
        0 <= p <= before.len(),
        forall|i: int| 0 <= i < p ==> bytes_lt((#[trigger] before[i]).spec_bytes(), s.spec_bytes()),
        p < before.len() ==> bytes_lt(s.spec_bytes(), before[p].spec_bytes()),
    ensures
        strictly_sorted(before.insert(p, s)),
{
    let r = before.insert(p, s);
    assert forall|i: int, j: int| 0 <= i < j < r.len() implies bytes_lt((#[trigger] r[i]).spec_bytes(), (#[trigger] r[j]).spec_bytes()) by {
        if j < p {
            assert(r[i] == before[i] && r[j] == before[j]);
        } else if j == p {
            assert(r[i] == before[i]);
        } else if i == p {
            assert(r[j] == before[j - 1]);
            if j - 1 > p {
                lemma_bytes_lt_trans(s.spec_bytes(), before[p].spec_bytes(), before[j - 1].spec_bytes());
            }
        } else if i < p {
            assert(r[i] == before[i] && r[j] == before[j - 1]);
            lemma_bytes_lt_trans(before[i].spec_bytes(), s.spec_bytes(), before[p].spec_bytes());
            if j - 1 > p {
                lemma_bytes_lt_trans(before[i].spec_bytes(), before[p].spec_bytes(), before[j - 1].spec_bytes());
            }
        } else {
            assert(r[i] == before[i - 1] && r[j] == before[j - 1]);
        }
    }
}

proof fn lemma_insert_members(before: Seq<&str>, p: int, s: &str, v: Seq<&str>, k: int)
    requires
        drawn_from(before, v),
        covers(before, v, k),
        0 <= p <= before.len(),
        0 <= k < v.len(),
        v[k] == s,
    ensures
        drawn_from(before.insert(p, s), v),
        covers(before.insert(p, s), v, k + 1),
{
    let r = before.insert(p, s);
    assert forall|i: int| 0 <= i < r.len() implies #[trigger] v.contains(r[i]) by {
        if i < p {
            assert(r[i] == before[i]);
            assert(v.contains(before[i]));
        } else if i == p {
            assert(v[k] == r[i]);
        } else {
            assert(r[i] == before[i - 1]);
            assert(v.contains(before[i - 1]));
        }
    }
    assert forall|q: int| 0 <= q < k + 1 implies exists|i: int| 0 <= i < r.len() && (#[trigger] r[i])@ == (#[trigger] v[q])@ by {
        if q == k {
            assert(r[p] == v[q]);
        } else {
            let i0 = choose|i: int| 0 <= i < before.len() && (#[trigger] before[i])@ == (#[trigger] v[q])@;
            if i0 < p {
                assert(r[i0] == before[i0]);
            } else {
                assert(r[i0 + 1] == before[i0]);
            }
        }
    }
}

/// The strings of `v`, sorted by byte order with duplicates removed.
pub fn sorted_unique<'a>(v: &Vec<&'a str>) -> (r: Vec<&'a str>)
    ensures
        strictly_sorted(r@),
        drawn_from(r@, v@),
        covers(r@, v@, v@.len() as int),
{
    let mut r: Vec<&'a str> = Vec::new();
    let mut k: usize = 0;
    while k < v.len()
        invariant
            0 <= k <= v@.len(),
            strictly_sorted(r@),
            drawn_from(r@, v@),
            covers(r@, v@, k as int),
        decreases v@.len() - k,
    {
        let s = v[k];
        // Find the first element not below `s`.
        let mut p: usize = 0;
        while p < r.len() && str_lt(r[p], s)
            invariant
                0 <= p <= r@.len(),
                forall|i: int| 0 <= i < p ==> bytes_lt((#[trigger] r@[i]).spec_bytes(), s.spec_bytes()),
            decreases r@.len() - p,
        {
            p = p + 1;
        }
        let present = p < r.len() && str_eq(r[p], s);
        if !present {
            proof {
                if p < r@.len() {
                    lemma_bytes_eq(r@[p as int], s);
                    lemma_bytes_lt_total(r@[p as int].spec_bytes(), s.spec_bytes());
                }
                lemma_insert_sorted(r@, p as int, s);
                lemma_insert_members(r@, p as int, s, v@, k as int);
            }
            r.insert(p, s);
        } else {
            proof {
                assert forall|q: int| 0 <= q < k + 1 implies exists|i: int| 0 <= i < r@.len() && (#[trigger] r@[i])@ == (#[trigger] v@[q])@ by {
                    if q == k {
                        assert(r@[p as int]@ == v@[q]@);
                    }
                }
            }
        }
        k = k + 1;
    }
    r
}

} // verus!
