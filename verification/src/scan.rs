//! Byte-string scanning primitives: substring tests, whitespace runs, byte
//! searches, and whitespace trimming, each specified over `Seq<u8>`.

use vstd::prelude::*;

verus! {

/// The byte is one of the ASCII whitespace characters the patcher skips over:
/// space, tab, line feed, vertical tab, form feed, or carriage return.
pub open spec fn is_space(b: u8) -> bool {
    b == 32 || b == 9 || b == 10 || b == 11 || b == 12 || b == 13
}

/// `pat` occurs in `s` starting at position `i`.
pub open spec fn matches_at(s: Seq<u8>, i: int, pat: Seq<u8>) -> bool {
    0 <= i && i + pat.len() <= s.len() && s.subrange(i, i + pat.len()) == pat
}

/// `pat` occurs somewhere in `s`.
pub open spec fn contains_seq(s: Seq<u8>, pat: Seq<u8>) -> bool {
    exists|i: int| matches_at(s, i, pat)
}

/// Reports whether the byte is ASCII whitespace.
pub fn space_byte(b: u8) -> (r: bool)
    ensures
        r == is_space(b),
{
    b == 32 || b == 9 || b == 10 || b == 11 || b == 12 || b == 13
}

/// Reports whether `pat` occurs in `s` starting at position `i`.
pub fn bytes_at(s: &[u8], i: usize, pat: &[u8]) -> (r: bool)
    ensures
        r == matches_at(s@, i as int, pat@),
{
    if i > s.len() || pat.len() > s.len() - i {
        return false;
    }
    let mut j: usize = 0;
    while j < pat.len()
        invariant
            s@.len() <= usize::MAX,
            i + pat@.len() <= s@.len(),
            0 <= j <= pat@.len(),
            forall|t: int| 0 <= t < j ==> s@[i + t] == pat@[t],
        decreases pat@.len() - j,
    {
        if s[i + j] != pat[j] {
            proof {
                if matches_at(s@, i as int, pat@) {
                    assert(s@.subrange(i as int, i + pat@.len())[j as int] == pat@[j as int]);
                }
            }
            return false;
        }
        j += 1;
    }
    proof {
        assert(s@.subrange(i as int, i + pat@.len()) =~= pat@);
    }
    true
}

/// Reports whether `pat` occurs anywhere in `s`.
pub fn contains_bytes(s: &[u8], pat: &[u8]) -> (r: bool)
    ensures
        r == contains_seq(s@, pat@),
{
    if pat.len() > s.len() {
        return false;
    }
    if pat.len() == 0 {
        proof {
            assert(s@.subrange(0, 0) =~= pat@);
            assert(matches_at(s@, 0, pat@));
        }
        return true;
    }
    let mut i: usize = 0;
    while i <= s.len() - pat.len()
        invariant
            s@.len() <= usize::MAX,
            1 <= pat@.len() <= s@.len(),
            0 <= i <= s@.len() - pat@.len() + 1,
            forall|t: int| 0 <= t < i ==> !matches_at(s@, t, pat@),
        decreases s@.len() - pat@.len() - i + 1,
    {
        if bytes_at(s, i, pat) {
            assert(contains_seq(s@, pat@));
            return true;
        }
        i += 1;
    }
    assert(forall|t: int| !matches_at(s@, t, pat@));
    false
}

/// Appends `s[a..b]` to `out`.
pub fn append_range(out: &mut Vec<u8>, s: &[u8], a: usize, b: usize)
    requires
        a <= b <= s@.len(),
    ensures
        final(out)@ == old(out)@ + s@.subrange(a as int, b as int),
{
    let mut j: usize = a;
    while j < b
        invariant
            a <= j <= b <= s@.len(),
            out@ == old(out)@ + s@.subrange(a as int, j as int),
        decreases b - j,
    {
        out.push(s[j]);
        proof {
            assert(out@ =~= old(out)@ + s@.subrange(a as int, j + 1));
        }
        j += 1;
    }
}

/// Appends all of `s` to `out`.
pub fn append_bytes(out: &mut Vec<u8>, s: &[u8])
    ensures
        final(out)@ == old(out)@ + s@,
{
    append_range(out, s, 0, s.len());
    proof {
        assert(s@.subrange(0, s@.len() as int) =~= s@);
    }
}

/// First position at or after `i` holding a non-whitespace byte, or `s.len()`
/// if whitespace runs to the end.
pub open spec fn skip_spaces(s: Seq<u8>, i: int) -> int
    decreases s.len() - i,
{
    if i < 0 || i >= s.len() {
        i
    } else if is_space(s[i]) {
        skip_spaces(s, i + 1)
    } else {
        i
    }
}

/// What `skip_spaces` reports: a whitespace run from `i` ending at the first
/// non-whitespace byte or at the end of `s`.
pub proof fn lemma_skip_spaces(s: Seq<u8>, i: int)
    requires
        0 <= i <= s.len(),
    ensures
        i <= skip_spaces(s, i) <= s.len(),
        forall|t: int| i <= t < skip_spaces(s, i) ==> is_space(s[t]),
        skip_spaces(s, i) < s.len() ==> !is_space(s[skip_spaces(s, i)]),
    decreases s.len() - i,
{
    if i < s.len() && is_space(s[i]) {
        lemma_skip_spaces(s, i + 1);
    }
}

/// Position of the first occurrence of `b` in `s` at or after `i`, if any.
pub open spec fn find_byte(s: Seq<u8>, i: int, b: u8) -> Option<int>
    decreases s.len() - i,
{
    if i < 0 || i >= s.len() {
        None
    } else if s[i] == b {
        Some(i)
    } else {
        find_byte(s, i + 1, b)
    }
}

/// What `find_byte` reports: the first occurrence of `b` at or after `i`,
/// or that there is none.
pub proof fn lemma_find_byte(s: Seq<u8>, i: int, b: u8)
    requires
        0 <= i <= s.len(),
    ensures
        find_byte(s, i, b) matches Some(m) ==> i <= m < s.len() && s[m] == b
            && forall|t: int| i <= t < m ==> s[t] != b,
        find_byte(s, i, b) is None ==> forall|t: int| i <= t < s.len() ==> s[t] != b,
    decreases s.len() - i,
{
    if i < s.len() && s[i] != b {
        lemma_find_byte(s, i + 1, b);
    }
}

/// Position one past the last non-whitespace byte of `s[..j]`, or `0` if
/// `s[..j]` is all whitespace.
pub open spec fn skip_spaces_back(s: Seq<u8>, j: int) -> int
    decreases j,
{
    if j <= 0 || j > s.len() {
        j
    } else if is_space(s[j - 1]) {
        skip_spaces_back(s, j - 1)
    } else {
        j
    }
}

/// What `skip_spaces_back` reports: a whitespace run ending at `j` that starts
/// at the reported position.
pub proof fn lemma_skip_spaces_back(s: Seq<u8>, j: int)
    requires
        0 <= j <= s.len(),
    ensures
        0 <= skip_spaces_back(s, j) <= j,
        forall|t: int| skip_spaces_back(s, j) <= t < j ==> is_space(s[t]),
        skip_spaces_back(s, j) > 0 ==> !is_space(s[skip_spaces_back(s, j) - 1]),
    decreases j,
{
    if 0 < j && is_space(s[j - 1]) {
        lemma_skip_spaces_back(s, j - 1);
    }
}

/// `s` with leading and trailing whitespace removed.
pub open spec fn trimmed(s: Seq<u8>) -> Seq<u8> {
    let a = skip_spaces(s, 0);
    if a == s.len() {
        Seq::empty()
    } else {
        s.subrange(a, skip_spaces_back(s, s.len() as int))
    }
}

/// Bounds `(a, b)` with `s[a..b]` equal to `s` stripped of leading and
/// trailing whitespace.
pub fn trim_bounds(s: &[u8]) -> (r: (usize, usize))
    ensures
        r.0 <= r.1 <= s@.len(),
        s@.subrange(r.0 as int, r.1 as int) == trimmed(s@),
{
    let mut a: usize = 0;
    while a < s.len() && space_byte(s[a])
        invariant
            0 <= a <= s@.len(),
            skip_spaces(s@, 0) == skip_spaces(s@, a as int),
        decreases s@.len() - a,
    {
        a += 1;
    }
    proof {
        assert(skip_spaces(s@, a as int) == a as int);
        lemma_skip_spaces(s@, 0);
    }
    if a == s.len() {
        proof {
            assert(s@.subrange(a as int, a as int) =~= trimmed(s@));
        }
        return (a, a);
    }
    let mut b: usize = s.len();
    while b > 0 && space_byte(s[b - 1])
        invariant
            0 <= b <= s@.len(),
            skip_spaces_back(s@, s@.len() as int) == skip_spaces_back(s@, b as int),
        decreases b,
    {
        b -= 1;
    }
    proof {
        assert(skip_spaces_back(s@, b as int) == b as int);
        lemma_skip_spaces_back(s@, s@.len() as int);
        // the byte at `a` is not whitespace, so the trailing run stops above it
        if b <= a {
            assert(is_space(s@[a as int]));
        }
    }
    (a, b)
}

} // verus!
