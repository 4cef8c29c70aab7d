//! "Did you mean ...?" suggestions for diagnostics.
//!
//! When a name fails to resolve or a type is unknown, the relevant phase calls
//! [`closest`] with the list of names that would have been valid. If one is a
//! near-miss for what the user wrote, by Levenshtein edit distance within a
//! small, length-scaled threshold, it is offered as a help suggestion.

use vstd::prelude::*;
use vstd::string::*;

use crate::text::chars_of;

verus! {

/// The smaller of two naturals.
pub open spec fn min_nat(x: nat, y: nat) -> nat {
    if x <= y {
        x
    } else {
        y
    }
}

/// The Levenshtein edit distance between two character sequences: the least
/// number of single-character insertions, deletions and substitutions that
/// turn `a` into `b`.
pub open spec fn lev(a: Seq<char>, b: Seq<char>) -> nat
    decreases a.len() + b.len(),
{
    if a.len() == 0 {
        b.len()
    } else if b.len() == 0 {
        a.len()
    } else {
        min_nat(
            min_nat(lev(a.drop_last(), b) + 1, lev(a, b.drop_last()) + 1),
            lev(a.drop_last(), b.drop_last()) + if a.last() == b.last() {
                0nat
            } else {
                1nat
            },
        )
    }
}

/// The distance never exceeds the longer length.
pub proof fn lemma_lev_le_max(a: Seq<char>, b: Seq<char>)
    ensures
        lev(a, b) <= if a.len() >= b.len() { a.len() } else { b.len() },
    decreases a.len() + b.len(),
{
    if a.len() > 0 && b.len() > 0 {
        lemma_lev_le_max(a.drop_last(), b.drop_last());
    }
}

/// A sequence is at distance zero from itself.
pub proof fn lemma_lev_self(a: Seq<char>)
    ensures
        lev(a, a) == 0,
    decreases a.len(),
{
    if a.len() > 0 {
        lemma_lev_self(a.drop_last());
    }
}

/// The distance is symmetric.
pub proof fn lemma_lev_symmetric(a: Seq<char>, b: Seq<char>)
    ensures
        lev(a, b) == lev(b, a),
    decreases a.len() + b.len(),
{
    if a.len() > 0 && b.len() > 0 {
        lemma_lev_symmetric(a.drop_last(), b);
        lemma_lev_symmetric(a, b.drop_last());
        lemma_lev_symmetric(a.drop_last(), b.drop_last());
    }
}

/// The maximum edit distance tolerated for a target of `len` bytes.
pub open spec fn spec_threshold(len: nat) -> nat {
    if len <= 2 {
        1
    } else if len <= 5 {
        2
    } else {
        3
    }
}

fn threshold(len: usize) -> (t: usize)
    ensures
        t == spec_threshold(len as nat),
{
    if len <= 2 {
        1
    } else if len <= 5 {
        2
    } else {
        3
    }
}

/// The Levenshtein edit distance between two strings, counted in characters
/// (insertions, deletions and substitutions each cost 1).
pub fn levenshtein(a: &str, b: &str) -> (d: usize)
    requires
        a@.len() < usize::MAX,
        b@.len() < usize::MAX,
    ensures
        d == lev(a@, b@),
{
    let ac = chars_of(a);
    let bc = chars_of(b);
    edit_distance(&ac, &bc)
}

/// The Levenshtein edit distance, with the standard two-row table.
fn edit_distance(a: &Vec<char>, b: &Vec<char>) -> (d: usize)
    requires
        a@.len() < usize::MAX,
        b@.len() < usize::MAX,
    ensures
        d == lev(a@, b@),
{
    let n = a.len();
    let m = b.len();
    if n == 0 {
        return m;
    }
    if m == 0 {
        return n;
    }
    // prev[j] = lev(a[..i], b[..j])
    let mut prev: Vec<usize> = Vec::new();
    let mut j: usize = 0;
    while j <= m
        invariant
            m == b@.len(),
            m < usize::MAX,
            0 <= j <= m + 1,
            prev@.len() == j,
            forall|k: int| 0 <= k < j ==> prev@[k] == k,
        decreases m + 1 - j,
    {
        prev.push(j);
        j = j + 1;
    }
    proof {
        assert forall|k: int| 0 <= k <= m implies prev@[k] == lev(a@.take(0), b@.take(k)) by {}
    }
    let mut i: usize = 0;
    while i < n
        invariant
            n == a@.len(),
            m == b@.len(),
            m < usize::MAX,
            n < usize::MAX,
            0 <= i <= n,
            prev@.len() == m + 1,
            forall|k: int| 0 <= k <= m ==> #[trigger] prev@[k] == lev(a@.take(i as int), b@.take(k)),
        decreases n - i,
    {
        let ca = a[i];
        let mut curr: Vec<usize> = Vec::new();
        proof {
            assert(a@.take(i + 1).len() == i + 1);
            assert(b@.take(0).len() == 0);
        }
        curr.push(i + 1);
        let mut j: usize = 0;
        while j < m
            invariant
                n == a@.len(),
                m == b@.len(),
                m < usize::MAX,
                n < usize::MAX,
                0 <= i < n,
                0 <= j <= m,
                ca == a@[i as int],
                prev@.len() == m + 1,
                forall|k: int| 0 <= k <= m ==> #[trigger] prev@[k] == lev(a@.take(i as int), b@.take(k)),
                curr@.len() == j + 1,
                forall|k: int| 0 <= k <= j ==> #[trigger] curr@[k] == lev(a@.take(i + 1), b@.take(k)),
            decreases m - j,
        {
            let cb = b[j];
            let cost: usize = if ca != cb { 1 } else { 0 };
            proof {
                lemma_lev_le_max(a@.take(i as int), b@.take(j + 1));
                lemma_lev_le_max(a@.take(i + 1), b@.take(j as int));
                lemma_lev_le_max(a@.take(i as int), b@.take(j as int));
                assert(prev@[j + 1] == lev(a@.take(i as int), b@.take(j + 1)));
                assert(prev@[j as int] == lev(a@.take(i as int), b@.take(j as int)));
                assert(curr@[j as int] == lev(a@.take(i + 1), b@.take(j as int)));
            }
            let del = prev[j + 1] + 1;
            let ins = curr[j] + 1;
            let sub = prev[j] + cost;
            let mut best = if del <= ins { del } else { ins };
            if sub < best {
                best = sub;
            }
            proof {
                let x = a@.take(i + 1);
                let y = b@.take(j + 1);
                assert(x.drop_last() =~= a@.take(i as int));
                assert(y.drop_last() =~= b@.take(j as int));
                assert(x.last() == ca);
                assert(y.last() == cb);
            }
            curr.push(best);
            j = j + 1;
        }
        prev = curr;
        i = i + 1;
    }
    proof {
        assert(a@.take(n as int) =~= a@);
        assert(b@.take(m as int) =~= b@);
    }
    prev[m]
}

/// Whether a candidate takes part in the search: every string a program can
/// hold does (the bound only excludes lengths no memory can hold).
pub open spec fn searchable(s: Seq<char>) -> bool {
    s.len() < usize::MAX
}

/// Returns the candidate closest to `target`, if one is within the suggestion
/// threshold (1 edit for targets of up to 2 bytes, 2 up to 5 bytes, else 3).
/// Ties break toward the first candidate in the given order.
pub fn closest<'a>(target: &str, candidates: &Vec<&'a str>) -> (r: Option<&'a str>)
    ensures
        !searchable(target@) ==> r is None,
        searchable(target@) ==> ({
            let t = spec_threshold((target.spec_bytes().len() as usize) as nat);
            &&& r is None <==> (forall|k: int|
                0 <= k < candidates@.len() && searchable((#[trigger] candidates@[k])@) ==> lev(target@, candidates@[k]@) > t)
            &&& r matches Some(s) ==> exists|i: int|
                #![trigger candidates@[i]]
                0 <= i < candidates@.len() && searchable(candidates@[i]@) && s == candidates@[i] && lev(target@, candidates@[i]@) <= t
                    && (forall|k: int|
                    0 <= k < candidates@.len() && searchable((#[trigger] candidates@[k])@) && lev(target@, candidates@[k]@) <= t
                        ==> lev(target@, candidates@[i]@) <= lev(target@, candidates@[k]@)) && (forall|k: int|
                    0 <= k < i && searchable((#[trigger] candidates@[k])@) ==> lev(target@, candidates@[k]@) > t || lev(target@, candidates@[k]@) > lev(target@, candidates@[i]@))
        }),
{
    let max_distance = threshold(target.len());
    let tchars = chars_of(target);
    if tchars.len() == usize::MAX {
        return None;
    }
    let ghost t = spec_threshold((target.spec_bytes().len() as usize) as nat);
    let mut best: Option<(&'a str, usize)> = None;
    let ghost mut best_idx: int = 0;
    let mut k: usize = 0;
    while k < candidates.len()
        invariant
            0 <= k <= candidates@.len(),
            max_distance == t,
            tchars@ == target@,
            target@.len() < usize::MAX,
            best is None ==> forall|q: int| 0 <= q < k && searchable(candidates@[q]@) ==> lev(target@, candidates@[q]@) > t,
            best matches Some((s, bd)) ==> {
                &&& 0 <= best_idx < k
                &&& searchable(candidates@[best_idx]@)
                &&& s == candidates@[best_idx]
                &&& bd == lev(target@, candidates@[best_idx]@)
                &&& bd <= t
                &&& forall|q: int| 0 <= q < k && searchable(candidates@[q]@) && lev(target@, candidates@[q]@) <= t ==> bd <= lev(target@, candidates@[q]@)
                &&& forall|q: int| 0 <= q < best_idx && searchable(candidates@[q]@) ==> lev(target@, candidates@[q]@) > t || lev(target@, candidates@[q]@) > bd
            },
        decreases candidates@.len() - k,
    {
        let candidate = candidates[k];
        let cchars = chars_of(candidate);
        if cchars.len() < usize::MAX {
            let distance = edit_distance(&tchars, &cchars);
            let better = match best {
                None => true,
                Some((_, b)) => distance < b,
            };
            if distance <= max_distance && better {
                best = Some((candidate, distance));
                proof {
                    best_idx = k as int;
                }
            }
        }
        k = k + 1;
    }
    match best {
        Some((name, _)) => Some(name),
        None => None,
    }
}

} // verus!
