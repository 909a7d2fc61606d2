//! Character-level string matching used by the track filter and the
//! genre rules.
//!
//! All matching is done over `Seq<char>` views.  Lowercasing is the one
//! operation taken from the standard library on trust; everything else
//! (substring search, whole-word occurrence, trimming) is verified here.
//! Whitespace and digits are the ASCII ones.

use vstd::prelude::*;

verus! {

use vstd::string::StrSliceExecFns;

/// What `str::to_lowercase` returns for a given character sequence.
pub uninterp spec fn lower_of(s: Seq<char>) -> Seq<char>;

/// No ASCII uppercase letter occurs in the sequence.
pub open spec fn ascii_lowercase_only(s: Seq<char>) -> bool {
    forall|k: int| 0 <= k < s.len() ==> !(65 <= (#[trigger] s[k]) as u32 <= 90)
}

/// Relies on `str::to_lowercase`: the lowercase form of a string depends
/// on its characters alone, and since every ASCII uppercase letter has a
/// lowercase mapping, none remains in the result.
#[verifier::external_body]
pub(crate) fn lowercase(s: &str) -> (r: String)
    ensures
        r@ == lower_of(s@),
        ascii_lowercase_only(r@),
{
    s.to_lowercase()
}

/// What `str::to_uppercase` returns for a given character sequence.
pub uninterp spec fn upper_of(s: Seq<char>) -> Seq<char>;

/// Relies on `str::to_uppercase`: the uppercase form of a string depends
/// on its characters alone.
#[verifier::external_body]
pub(crate) fn uppercase(s: &str) -> (r: String)
    ensures
        r@ == upper_of(s@),
{
    s.to_uppercase()
}

/// The characters of a string slice, one `char` per element.
pub fn to_chars(s: &str) -> (v: Vec<char>)
    ensures
        v@ == s@,
{
    let n = s.unicode_len();
    let mut v: Vec<char> = Vec::new();
    let mut i: usize = 0;
    while i < n
        invariant
            i <= n,
            n == s@.len(),
            v@ == s@.subrange(0, i as int),
        decreases n - i,
    {
        let c = s.get_char(i);
        v.push(c);
        proof {
            assert(v@ =~= s@.subrange(0, i as int + 1));
        }
        i = i + 1;
    }
    proof {
        assert(s@.subrange(0, n as int) =~= s@);
    }
    v
}

/// ASCII whitespace.
pub open spec fn is_space_char(c: char) -> bool {
    c == ' ' || c == '\t' || c == '\n' || c == '\r'
}

pub(crate) fn is_space(c: char) -> (b: bool)
    ensures
        b == is_space_char(c),
{
    c == ' ' || c == '\t' || c == '\n' || c == '\r'
}

fn is_space_at(s: &Vec<char>, i: usize) -> (b: bool)
    requires
        i < s@.len(),
    ensures
        b == is_space_char(s@[i as int]),
{
    is_space(s[i])
}

/// ASCII digit.
pub open spec fn is_digit_char(c: char) -> bool {
    48 <= c as u32 <= 57
}

pub fn is_digit(c: char) -> (b: bool)
    ensures
        b == is_digit_char(c),
{
    let u = c as u32;
    48 <= u && u <= 57
}

/// The pattern `p` occurs in `s` starting at position `i`.
pub open spec fn contains_at(s: Seq<char>, p: Seq<char>, i: int) -> bool {
    0 <= i && i + p.len() <= s.len() && s.subrange(i, i + p.len()) == p
}

/// The pattern `p` occurs somewhere in `s`.
pub open spec fn contains_seq(s: Seq<char>, p: Seq<char>) -> bool {
    exists|i: int| contains_at(s, p, i)
}

/// Whether `p` occurs in `s` at the given position.
pub fn match_at(s: &Vec<char>, p: &Vec<char>, i: usize) -> (b: bool)
    requires
        i as int + p@.len() <= s@.len(),
    ensures
        b == contains_at(s@, p@, i as int),
{
    let m = p.len();
    let sl = s.len();
    let mut j: usize = 0;
    while j < m
        invariant
            j <= m,
            m == p@.len(),
            sl == s@.len(),
            i as int + m as int <= s@.len(),
            forall|t: int| 0 <= t < j ==> s@[i as int + t] == p@[t],
        decreases m - j,
    {
        if s[i + j] != p[j] {
            proof {
                let sub = s@.subrange(i as int, i as int + m as int);
                assert(sub == p@ ==> sub[j as int] == p@[j as int]);
                assert(sub[j as int] == s@[i as int + j as int]);
            }
            return false;
        }
        j = j + 1;
    }
    proof {
        assert(s@.subrange(i as int, i as int + m as int) =~= p@);
    }
    true
}

/// Whether `p` occurs anywhere in `s`.
pub fn contains_chars(s: &Vec<char>, p: &Vec<char>) -> (b: bool)
    ensures
        b == contains_seq(s@, p@),
{
    let n = s.len();
    let m = p.len();
    if m == 0 {
        proof {
            assert(s@.subrange(0, 0) =~= p@);
            assert(contains_at(s@, p@, 0));
        }
        return true;
    }
    if m > n {
        proof {
            assert(forall|i: int| contains_at(s@, p@, i) ==> i + p@.len() <= s@.len());
        }
        return false;
    }
    let bound = n - m;
    let mut i: usize = 0;
    while i <= bound
        invariant
            i <= bound + 1,
            bound == s@.len() - p@.len(),
            m == p@.len(),
            n == s@.len(),
            m >= 1,
            forall|t: int| 0 <= t < i ==> !contains_at(s@, p@, t),
        decreases bound + 1 - i,
    {
        if match_at(s, p, i) {
            return true;
        }
        i = i + 1;
    }
    proof {
        assert(forall|t: int| contains_at(s@, p@, t) ==> 0 <= t <= bound);
    }
    false
}

/// Whether `s` starts with `p`.
pub fn starts_with_chars(s: &Vec<char>, p: &Vec<char>) -> (b: bool)
    ensures
        b == contains_at(s@, p@, 0),
{
    if p.len() > s.len() {
        return false;
    }
    match_at(s, p, 0)
}

/// `p` occurs at `i` in `s` delimited by the ends of `s` or by spaces.
pub open spec fn word_at(s: Seq<char>, p: Seq<char>, i: int) -> bool {
    &&& contains_at(s, p, i)
    &&& (i == 0 || is_space_char(s[i - 1]))
    &&& (i + p.len() == s.len() || is_space_char(s[i + p.len()]))
}

/// `p` holds no whitespace.
pub open spec fn no_spaces(p: Seq<char>) -> bool {
    forall|k: int| 0 <= k < p.len() ==> !is_space_char(#[trigger] p[k])
}

/// One of the whitespace-delimited words of `s` is exactly `p`.
pub open spec fn has_word(s: Seq<char>, p: Seq<char>) -> bool {
    &&& p.len() > 0
    &&& no_spaces(p)
    &&& exists|i: int| word_at(s, p, i)
}

fn no_spaces_chars(p: &Vec<char>) -> (b: bool)
    ensures
        b == no_spaces(p@),
{
    let m = p.len();
    let mut j: usize = 0;
    while j < m
        invariant
            j <= m,
            m == p@.len(),
            forall|k: int| 0 <= k < j ==> !is_space_char(#[trigger] p@[k]),
        decreases m - j,
    {
        if is_space(p[j]) {
            return false;
        }
        j = j + 1;
    }
    true
}

/// Whether one of the whitespace-delimited words of `s` is exactly `p`.
pub fn has_word_chars(s: &Vec<char>, p: &Vec<char>) -> (b: bool)
    ensures
        b == has_word(s@, p@),
{
    let n = s.len();
    let m = p.len();
    if m == 0 || m > n {
        proof {
            if m > n {
                assert(forall|i: int| word_at(s@, p@, i) ==> i + p@.len() <= s@.len());
            }
        }
        return false;
    }
    if !no_spaces_chars(p) {
        return false;
    }
    let bound = n - m;
    let mut i: usize = 0;
    while i <= bound
        invariant
            i <= bound + 1,
            bound == s@.len() - p@.len(),
            m == p@.len(),
            n == s@.len(),
            m >= 1,
            no_spaces(p@),
            forall|t: int| 0 <= t < i ==> !word_at(s@, p@, t),
        decreases bound + 1 - i,
    {
        let left_ok = i == 0 || is_space_at(s, i - 1);
        let right_ok = i + m == n || is_space_at(s, i + m);
        if left_ok && right_ok && match_at(s, p, i) {
            proof {
                assert(word_at(s@, p@, i as int));
            }
            return true;
        }
        i = i + 1;
    }
    proof {
        assert(forall|t: int| word_at(s@, p@, t) ==> 0 <= t <= bound);
    }
    false
}

/// The ways the non-song heuristics look for a keyword `p` in a lowercased
/// title `t`: the whole title, a space-separated prefix, suffix or middle
/// occurrence, a whitespace-delimited word, or a leading "keyword:" marker.
pub open spec fn title_has_pattern(t: Seq<char>, p: Seq<char>) -> bool {
    ||| t == p
    ||| (contains_at(t, p, 0) && p.len() < t.len() && t[p.len() as int] == ' ')
    ||| (p.len() < t.len() && contains_at(t, p, t.len() - p.len()) && t[t.len() - p.len() - 1]
        == ' ')
    ||| (exists|i: int|
        contains_at(t, p, i) && i >= 1 && t[i - 1] == ' ' && i + p.len() < t.len() && t[i
            + p.len()] == ' ')
    ||| has_word(t, p)
    ||| (contains_at(t, p, 0) && p.len() < t.len() && t[p.len() as int] == ':')
}

/// Whether the keyword `p` occurs in the title `t` in one of the forms the
/// non-song heuristics look for.
pub fn title_has_pattern_chars(t: &Vec<char>, p: &Vec<char>) -> (b: bool)
    ensures
        b == title_has_pattern(t@, p@),
{
    let n = t.len();
    let m = p.len();
    if m > n {
        proof {
            assert(forall|i: int|
                (contains_at(t@, p@, i) && i >= 1 && t@[i - 1] == ' ' && i + p@.len() < t@.len()
                    && t@[i + p@.len()] == ' ') ==> i + p@.len() <= t@.len());
            assert(forall|i: int| word_at(t@, p@, i) ==> i + p@.len() <= t@.len());
            assert(t@ == p@ ==> t@.len() == p@.len());
        }
        return false;
    }
    if n == m {
        if match_at(t, p, 0) {
            proof {
                assert(t@.subrange(0, t@.len() as int) =~= t@);
            }
            return true;
        }
    }
    if m < n {
        if match_at(t, p, 0) {
            let c = t[m];
            if c == ' ' || c == ':' {
                return true;
            }
        }
        if match_at(t, p, n - m) {
            if t[n - m - 1] == ' ' {
                return true;
            }
        }
        let mut i: usize = 1;
        while i + m < n
            invariant
                1 <= i,
                i as int + m as int <= n as int,
                m == p@.len(),
                n == t@.len(),
                forall|j: int|
                    1 <= j < i ==> !(contains_at(t@, p@, j) && t@[j - 1] == ' ' && j + p@.len()
                        < t@.len() && t@[j + p@.len()] == ' '),
            decreases n - m - i,
        {
            if t[i - 1] == ' ' && t[i + m] == ' ' {
                if match_at(t, p, i) {
                    return true;
                }
            }
            i = i + 1;
        }
    }
    if has_word_chars(t, p) {
        return true;
    }
    proof {
        if t@ == p@ {
            assert(t@.len() == p@.len());
            assert(t@.subrange(0, t@.len() as int) =~= t@);
            assert(false);
        }
        assert(forall|i: int|
            (contains_at(t@, p@, i) && i >= 1 && t@[i - 1] == ' ' && i + p@.len() < t@.len() && t@[i
                + p@.len()] == ' ') ==> 1 <= i && i + p@.len() < t@.len());
    }
    false
}

/// Whether two string slices hold the same characters.
pub fn str_eq_str(a: &str, b: &str) -> (r: bool)
    ensures
        r == (a@ == b@),
{
    let va = to_chars(a);
    let vb = to_chars(b);
    if va.len() != vb.len() {
        return false;
    }
    let m = match_at(&va, &vb, 0);
    proof {
        assert(va@.subrange(0, va@.len() as int) =~= va@);
    }
    m
}

/// `s` with ASCII whitespace removed from both ends.
pub open spec fn trimmed(s: Seq<char>) -> Seq<char>
    decreases s.len(),
{
    if s.len() > 0 && is_space_char(s[0]) {
        trimmed(s.drop_first())
    } else if s.len() > 0 && is_space_char(s.last()) {
        trimmed(s.drop_last())
    } else {
        s
    }
}

/// The bounds of `s` with whitespace trimmed from both ends.
pub fn trim_bounds(s: &Vec<char>) -> (r: (usize, usize))
    ensures
        r.0 <= r.1 <= s@.len(),
        s@.subrange(r.0 as int, r.1 as int) == trimmed(s@),
{
    let n = s.len();
    let mut lo: usize = 0;
    let mut hi: usize = n;
    proof {
        assert(s@.subrange(0, n as int) =~= s@);
    }
    while lo < hi && is_space_at(s, lo)
        invariant
            lo <= hi <= n,
            n == s@.len(),
            trimmed(s@.subrange(lo as int, hi as int)) == trimmed(s@),
        decreases hi - lo,
    {
        proof {
            let sub = s@.subrange(lo as int, hi as int);
            assert(sub[0] == s@[lo as int]);
            assert(sub.drop_first() =~= s@.subrange(lo as int + 1, hi as int));
        }
        lo = lo + 1;
    }
    while lo < hi && is_space_at(s, hi - 1)
        invariant
            lo <= hi <= n,
            n == s@.len(),
            trimmed(s@.subrange(lo as int, hi as int)) == trimmed(s@),
            lo < hi ==> !is_space_char(s@[lo as int]),
        decreases hi - lo,
    {
        proof {
            let sub = s@.subrange(lo as int, hi as int);
            assert(sub[0] == s@[lo as int]);
            assert(sub.last() == s@[hi as int - 1]);
            assert(sub.drop_last() =~= s@.subrange(lo as int, hi as int - 1));
        }
        hi = hi - 1;
    }
    proof {
        let sub = s@.subrange(lo as int, hi as int);
        if sub.len() > 0 {
            assert(sub[0] == s@[lo as int]);
            assert(sub.last() == s@[hi as int - 1]);
        }
        assert(trimmed(sub) == sub);
    }
    (lo, hi)
}

} // verus!
