//! Small executable helpers for building and comparing strings.

use vstd::prelude::*;

verus! {

/// Relies on String::push: appends exactly the one character to the end.
#[verifier::external_body]
pub fn push_char(s: &mut String, c: char)
    ensures
        final(s)@ == old(s)@.push(c),
{
    s.push(c);
}

/// Character-by-character equality of two string slices.
pub fn str_eq(a: &str, b: &str) -> (r: bool)
    ensures
        r == (a@ == b@),
{
    let na: usize = a.unicode_len();
    let nb: usize = b.unicode_len();
    if na != nb {
        assert(a@ != b@) by {
            assert(a@.len() != b@.len());
        }
        return false;
    }
    let mut i: usize = 0;
    while i < na
        invariant
            na == a@.len(),
            nb == b@.len(),
            na == nb,
            i <= na,
            forall|j: int| 0 <= j < i ==> a@[j] == b@[j],
        decreases na - i,
    {
        if a.get_char(i) != b.get_char(i) {
            return false;
        }
        i += 1;
    }
    proof {
        assert(a@ =~= b@);
    }
    true
}


/// Whether `p` is a prefix of `s`.
pub fn str_starts_with(s: &str, p: &str) -> (r: bool)
    ensures
        r == (s@.len() >= p@.len() && s@.take(p@.len() as int) == p@),
{
    let n: usize = s.unicode_len();
    let m: usize = p.unicode_len();
    if m > n {
        return false;
    }
    let mut i: usize = 0;
    while i < m
        invariant
            n == s@.len(),
            m == p@.len(),
            m <= n,
            i <= m,
            forall|j: int| 0 <= j < i ==> s@[j] == p@[j],
        decreases m - i,
    {
        if s.get_char(i) != p.get_char(i) {
            assert(s@.take(m as int)[i as int] != p@[i as int]);
            return false;
        }
        i += 1;
    }
    proof {
        assert(s@.take(m as int) =~= p@);
    }
    true
}

/// Whether `p` is a suffix of `s`.
pub fn str_ends_with(s: &str, p: &str) -> (r: bool)
    ensures
        r == (s@.len() >= p@.len() && s@.skip(s@.len() - p@.len()) == p@),
{
    let n: usize = s.unicode_len();
    let m: usize = p.unicode_len();
    if m > n {
        return false;
    }
    let d: usize = n - m;
    let mut i: usize = 0;
    while i < m
        invariant
            n == s@.len(),
            m == p@.len(),
            m <= n,
            d == n - m,
            i <= m,
            forall|j: int| 0 <= j < i ==> s@[d + j] == p@[j],
        decreases m - i,
    {
        if s.get_char(d + i) != p.get_char(i) {
            assert(s@.skip(d as int)[i as int] != p@[i as int]);
            return false;
        }
        i += 1;
    }
    proof {
        assert(s@.skip(d as int) =~= p@);
    }
    true
}

/// The insignificant whitespace of JSON documents.
pub open spec fn is_ws(c: char) -> bool {
    c == ' ' || c == '\n' || c == '\t' || c == '\r'
}

/// The text with its leading whitespace removed.
pub open spec fn skip_ws(s: Seq<char>) -> Seq<char>
    decreases s.len(),
{
    if s.len() > 0 && is_ws(s[0]) {
        skip_ws(s.drop_first())
    } else {
        s
    }
}

/// Removing leading whitespace never lengthens a text.
pub broadcast proof fn lemma_skip_ws_len(s: Seq<char>)
    ensures
        (#[trigger] skip_ws(s)).len() <= s.len(),
    decreases s.len(),
{
    if s.len() > 0 && is_ws(s[0]) {
        lemma_skip_ws_len(s.drop_first());
    }
}

/// Removing leading whitespace twice is the same as once.
pub proof fn lemma_skip_ws_idempotent(s: Seq<char>)
    ensures
        skip_ws(skip_ws(s)) == skip_ws(s),
    decreases s.len(),
{
    if s.len() > 0 && is_ws(s[0]) {
        lemma_skip_ws_idempotent(s.drop_first());
    }
}

/// `p` is a prefix of `s`.
pub open spec fn seq_starts_with(s: Seq<char>, p: Seq<char>) -> bool {
    s.len() >= p.len() && s.take(p.len() as int) == p
}

/// `p` occurs in `s` at position `i`.
pub open spec fn seq_contains_at(s: Seq<char>, p: Seq<char>, i: int) -> bool {
    0 <= i <= s.len() - p.len() && s.subrange(i, i + p.len()) == p
}

/// `p` occurs somewhere in `s`.
pub open spec fn seq_has_substring(s: Seq<char>, p: Seq<char>) -> bool {
    exists|i: int| seq_contains_at(s, p, i)
}

/// Whether `p` appears anywhere inside `s`.
pub fn str_contains(s: &str, p: &str) -> (r: bool)
    ensures
        r == seq_has_substring(s@, p@),
{
    let n: usize = s.unicode_len();
    let m: usize = p.unicode_len();
    if m > n {
        assert(forall|i: int| !seq_contains_at(s@, p@, i));
        return false;
    }
    if m == 0 {
        proof {
            assert(s@.subrange(0, 0) =~= p@);
            assert(seq_contains_at(s@, p@, 0));
        }
        return true;
    }
    let mut start: usize = 0;
    while start <= n - m
        invariant
            n == s@.len(),
            m == p@.len(),
            m <= n,
            start <= n - m + 1,
            1 <= m,
            forall|k: int| 0 <= k < start ==> !seq_contains_at(s@, p@, k),
        decreases n - m + 1 - start,
    {
        let mut j: usize = 0;
        let mut all_eq = true;
        while j < m && all_eq
            invariant
                n == s@.len(),
                m == p@.len(),
                m <= n,
                start <= n - m,
                j <= m,
                1 <= m,
                all_eq ==> forall|t: int| 0 <= t < j ==> s@[start + t] == p@[t],
                !all_eq ==> !seq_contains_at(s@, p@, start as int),
            decreases m - j + (if all_eq { 1int } else { 0int }),
        {
            if s.get_char(start + j) != p.get_char(j) {
                proof {
                    assert(s@.subrange(start as int, start + p@.len())[j as int] != p@[j as int]);
                }
                all_eq = false;
            } else {
                j += 1;
            }
        }
        if all_eq {
            proof {
                assert(s@.subrange(start as int, start + p@.len()) =~= p@);
                assert(seq_contains_at(s@, p@, start as int));
            }
            return true;
        }
        start += 1;
    }
    proof {
        assert forall|i: int| !seq_contains_at(s@, p@, i) by {
            if 0 <= i <= s@.len() - p@.len() {
                assert(i < start);
            }
        }
    }
    false
}

} // verus!
