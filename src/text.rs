//! Character classes, trimming and substring search over character sequences.
use vstd::prelude::*;

verus! {

/// Unicode `White_Space`: the characters that `str::trim` strips and that a
/// `\s` class matches.
pub open spec fn is_ws(c: char) -> bool {
    let u = c as u32;
    (0x09 <= u && u <= 0x0D) || u == 0x20 || u == 0x85 || u == 0xA0 || u == 0x1680
        || (0x2000 <= u && u <= 0x200A) || u == 0x2028 || u == 0x2029 || u == 0x202F
        || u == 0x205F || u == 0x3000
}

/// An ASCII letter.
pub open spec fn is_letter(c: char) -> bool {
    ('a' <= c && c <= 'z') || ('A' <= c && c <= 'Z')
}

/// An ASCII letter or digit.
pub open spec fn is_alnum(c: char) -> bool {
    is_letter(c) || ('0' <= c && c <= '9')
}

/// The first index at or after `i` that does not hold whitespace.
pub open spec fn skip_ws(s: Seq<char>, i: int) -> int
    decreases s.len() - i,
{
    if 0 <= i < s.len() && is_ws(s[i]) {
        skip_ws(s, i + 1)
    } else {
        i
    }
}

/// The first index at or after `i` that does not hold an ASCII letter.
pub open spec fn skip_letters(s: Seq<char>, i: int) -> int
    decreases s.len() - i,
{
    if 0 <= i < s.len() && is_letter(s[i]) {
        skip_letters(s, i + 1)
    } else {
        i
    }
}

/// The first index at or after `i` that does not hold an ASCII letter or digit.
pub open spec fn skip_alnum(s: Seq<char>, i: int) -> int
    decreases s.len() - i,
{
    if 0 <= i < s.len() && is_alnum(s[i]) {
        skip_alnum(s, i + 1)
    } else {
        i
    }
}

/// The end of `s[..j]` once trailing whitespace is removed.
pub open spec fn back_ws(s: Seq<char>, j: int) -> int
    decreases j,
{
    if 0 < j <= s.len() && is_ws(s[j - 1]) {
        back_ws(s, j - 1)
    } else {
        j
    }
}

/// `s` without leading and trailing whitespace.
pub open spec fn trim(s: Seq<char>) -> Seq<char> {
    let lo = skip_ws(s, 0);
    if lo >= s.len() {
        Seq::empty()
    } else {
        s.subrange(lo, back_ws(s, s.len() as int))
    }
}

/// `needle` occurs in `hay` at position `k`.
pub open spec fn occurs_at(hay: Seq<char>, needle: Seq<char>, k: int) -> bool {
    0 <= k && k + needle.len() <= hay.len() && hay.subrange(k, k + needle.len()) == needle
}

/// `needle` occurs somewhere in `hay`.
pub open spec fn contains(hay: Seq<char>, needle: Seq<char>) -> bool {
    exists|k: int| occurs_at(hay, needle, k)
}

proof fn lemma_skip_ws_bounds(s: Seq<char>, i: int)
    requires
        0 <= i <= s.len(),
    ensures
        i <= skip_ws(s, i) <= s.len(),
        forall|k: int| i <= k < skip_ws(s, i) ==> is_ws(s[k]),
        skip_ws(s, i) < s.len() ==> !is_ws(s[skip_ws(s, i)]),
    decreases s.len() - i,
{
    if i < s.len() && is_ws(s[i]) {
        lemma_skip_ws_bounds(s, i + 1);
    }
}

proof fn lemma_back_ws_le(s: Seq<char>, j: int)
    ensures
        back_ws(s, j) <= j,
    decreases j,
{
    if 0 < j <= s.len() && is_ws(s[j - 1]) {
        lemma_back_ws_le(s, j - 1);
    }
}

proof fn lemma_back_ws_bounds(s: Seq<char>, j: int, k: int)
    requires
        0 <= k < j <= s.len(),
        !is_ws(s[k]),
    ensures
        k < back_ws(s, j) <= j,
    decreases j,
{
    if is_ws(s[j - 1]) {
        lemma_back_ws_bounds(s, j - 1, k);
    }
}

/// Whether `c` is whitespace in the sense of `is_ws`.
pub fn char_is_ws(c: char) -> (r: bool)
    ensures
        r == is_ws(c),
{
    let u = c as u32;
    (0x09 <= u && u <= 0x0D) || u == 0x20 || u == 0x85 || u == 0xA0 || u == 0x1680
        || (0x2000 <= u && u <= 0x200A) || u == 0x2028 || u == 0x2029 || u == 0x202F
        || u == 0x205F || u == 0x3000
}

/// Whether `c` is an ASCII letter.
pub fn char_is_letter(c: char) -> (r: bool)
    ensures
        r == is_letter(c),
{
    ('a' <= c && c <= 'z') || ('A' <= c && c <= 'Z')
}

/// Whether `c` is an ASCII letter or digit.
pub fn char_is_alnum(c: char) -> (r: bool)
    ensures
        r == is_alnum(c),
{
    char_is_letter(c) || ('0' <= c && c <= '9')
}

/// The bounds `(lo, hi)` of `s[from..to]` without surrounding whitespace.
pub fn trim_bounds(s: &[char], from: usize, to: usize) -> (r: (usize, usize))
    requires
        from <= to <= s@.len(),
    ensures
        from <= r.0 <= r.1 <= to,
        s@.subrange(r.0 as int, r.1 as int) == trim(s@.subrange(from as int, to as int)),
{
    let ghost t = s@.subrange(from as int, to as int);
    let mut lo = from;
    while lo < to && char_is_ws(s[lo])
        invariant
            from <= lo <= to <= s@.len(),
            t == s@.subrange(from as int, to as int),
            skip_ws(t, (lo - from) as int) == skip_ws(t, 0),
        decreases to - lo,
    {
        lo = lo + 1;
    }
    proof {
        lemma_skip_ws_bounds(t, 0);
        if lo < to {
            assert(t[(lo - from) as int] == s@[lo as int]);
        }
        assert(skip_ws(t, (lo - from) as int) == (lo - from) as int);
    }
    if lo == to {
        return (to, to);
    }
    let mut hi = to;
    while hi > lo && char_is_ws(s[hi - 1])
        invariant
            from <= lo < to <= s@.len(),
            lo <= hi <= to,
            t == s@.subrange(from as int, to as int),
            back_ws(t, (hi - from) as int) == back_ws(t, t.len() as int),
        decreases hi,
    {
        hi = hi - 1;
    }
    proof {
        lemma_back_ws_bounds(t, t.len() as int, (lo - from) as int);
        lemma_back_ws_le(t, (hi - from) as int);
        if hi > lo {
            assert(t[(hi - from) - 1] == s@[hi - 1]);
        }
        assert(back_ws(t, (hi - from) as int) == (hi - from) as int);
        assert(s@.subrange(lo as int, hi as int) =~= t.subrange(
            (lo - from) as int,
            (hi - from) as int,
        ));
    }
    (lo, hi)
}

/// Whether `needle` occurs in `hay`.
pub fn contains_chars(hay: &[char], needle: &[char]) -> (r: bool)
    ensures
        r == contains(hay@, needle@),
{
    if needle.len() > hay.len() {
        return false;
    }
    let last = hay.len() - needle.len();
    let mut k: usize = 0;
    while k <= last
        invariant
            needle@.len() <= hay@.len(),
            last == hay@.len() - needle@.len(),
            forall|j: int| 0 <= j < k ==> !occurs_at(hay@, needle@, j),
        decreases last + 1 - k,
    {
        let mut m: usize = 0;
        while m < needle.len() && hay[k + m] == needle[m]
            invariant
                k <= last,
                hay@.len() == hay.len(),
                needle@.len() <= hay@.len(),
                last == hay@.len() - needle@.len(),
                m <= needle@.len(),
                forall|p: int| 0 <= p < m ==> hay@[k + p] == needle@[p],
            decreases needle@.len() - m,
        {
            m = m + 1;
        }
        if m == needle.len() {
            proof {
                assert(hay@.subrange(k as int, k + needle@.len()) =~= needle@);
                assert(occurs_at(hay@, needle@, k as int));
            }
            return true;
        }
        proof {
            assert(hay@.subrange(k as int, k + needle@.len())[m as int] != needle@[m as int]);
        }
        k = k + 1;
    }
    false
}

/// Relies on `str::chars`: the characters of `s` in order.
#[verifier::external_body]
pub(crate) fn chars_of(s: &str) -> (r: Vec<char>)
    ensures
        r@ == s@,
{
    s.chars().collect()
}

/// Relies on `FromIterator<char> for String`: a string of exactly the
/// characters `cs[from..to]`.
#[verifier::external_body]
pub(crate) fn string_of(cs: &Vec<char>, from: usize, to: usize) -> (r: String)
    requires
        from <= to <= cs@.len(),
    ensures
        r@ == cs@.subrange(from as int, to as int),
{
    cs[from..to].iter().collect()
}

} // verus!
