//! Character-level string helpers: whitespace trimming, prefix and suffix
//! tests, separator search, substrings and concatenation. Contracts speak
//! of the `Seq<char>` views of the strings involved.

use vstd::prelude::*;
use vstd::string::StrSliceExecFns;
use vstd::string::StringExecFns;

verus! {

/// The character-sequence views of a sequence of strings.
pub open spec fn views_of(v: Seq<String>) -> Seq<Seq<char>> {
    v.map_values(|s: String| s@)
}

/// Characters that line parsing treats as trimmable whitespace.
pub open spec fn is_space(c: char) -> bool {
    c == ' ' || c == '\t' || c == '\n' || c == '\r' || c == '\u{b}' || c == '\u{c}'
}

/// Executable test for trimmable whitespace.
pub fn is_space_char(c: char) -> (r: bool)
    ensures
        r == is_space(c),
{
    c == ' ' || c == '\t' || c == '\n' || c == '\r' || c == '\u{b}' || c == '\u{c}'
}

/// Length of the leading whitespace run of `s`.
pub open spec fn trim_start_idx(s: Seq<char>) -> int
    decreases s.len(),
{
    if s.len() == 0 {
        0
    } else if is_space(s[0]) {
        1 + trim_start_idx(s.skip(1))
    } else {
        0
    }
}

/// `trim_start_idx` is the first index that holds a non-space character,
/// or the length when there is none.
pub proof fn lemma_trim_start_idx(s: Seq<char>)
    ensures
        0 <= trim_start_idx(s) <= s.len(),
        forall|k: int| 0 <= k < trim_start_idx(s) ==> is_space(s[k]),
        trim_start_idx(s) < s.len() ==> !is_space(s[trim_start_idx(s)]),
    decreases s.len(),
{
    if s.len() == 0 {
    } else if is_space(s[0]) {
        lemma_trim_start_idx(s.skip(1));
        assert forall|k: int| 0 <= k < trim_start_idx(s) implies is_space(s[k]) by {
            if k > 0 {
                assert(s.skip(1)[k - 1] == s[k]);
            }
        }
        if trim_start_idx(s) < s.len() {
            assert(s.skip(1)[trim_start_idx(s) - 1] == s[trim_start_idx(s)]);
        }
    }
}

/// Index just past the last non-space character of `s`, or 0 when there
/// is none.
pub open spec fn trim_end_idx(s: Seq<char>) -> int
    decreases s.len(),
{
    if s.len() == 0 {
        0
    } else if is_space(s.last()) {
        trim_end_idx(s.drop_last())
    } else {
        s.len() as int
    }
}

/// `trim_end_idx` is followed only by spaces and preceded by a non-space.
pub proof fn lemma_trim_end_idx(s: Seq<char>)
    ensures
        0 <= trim_end_idx(s) <= s.len(),
        forall|k: int| trim_end_idx(s) <= k < s.len() ==> is_space(s[k]),
        trim_end_idx(s) > 0 ==> !is_space(s[trim_end_idx(s) - 1]),
    decreases s.len(),
{
    if s.len() == 0 {
    } else if is_space(s.last()) {
        lemma_trim_end_idx(s.drop_last());
        assert forall|k: int| trim_end_idx(s) <= k < s.len() implies is_space(s[k]) by {
            if k < s.len() - 1 {
                assert(s.drop_last()[k] == s[k]);
            }
        }
        if trim_end_idx(s) > 0 {
            assert(s.drop_last()[trim_end_idx(s) - 1] == s[trim_end_idx(s) - 1]);
        }
    }
}

/// `s` with leading and trailing whitespace removed.
pub open spec fn trim_spec(s: Seq<char>) -> Seq<char> {
    let t = s.skip(trim_start_idx(s));
    t.take(trim_end_idx(t))
}

/// Removes leading and trailing whitespace characters.
pub fn trim(s: &str) -> (r: String)
    ensures
        r@ == trim_spec(s@),
{
    let n: usize = s.unicode_len();
    let mut i: usize = 0;
    while i < n && is_space_char(s.get_char(i))
        invariant
            i <= n,
            n == s@.len(),
            forall|k: int| 0 <= k < i ==> is_space(s@[k]),
        decreases n - i,
    {
        i = i + 1;
    }
    let mut j: usize = n;
    while j > i && is_space_char(s.get_char(j - 1))
        invariant
            i <= j <= n,
            n == s@.len(),
            forall|k: int| j <= k < n ==> is_space(s@[k]),
        decreases j,
    {
        j = j - 1;
    }
    proof {
        lemma_trim_start_idx(s@);
        let si = trim_start_idx(s@);
        if (i as int) < si {
            assert(is_space(s@[i as int]));
            assert(false);
        }
        if si < i as int {
            assert(is_space(s@[si]));
            assert(false);
        }
        let t = s@.skip(i as int);
        lemma_trim_end_idx(t);
        let te = trim_end_idx(t);
        assert(forall|k: int| 0 <= k < t.len() ==> t[k] == s@[k + i]);
        let d: int = j as int - i as int;
        if d < te {
            assert(is_space(t[te - 1]));
            assert(!is_space(s@[te - 1 + i]));
            assert(false);
        }
        if te < d {
            assert(is_space(t[j - i - 1]));
            assert(!is_space(s@[j - 1]));
            assert(false);
        }
        assert(t.take(te) =~= s@.subrange(i as int, j as int));
    }
    let sub = s.substring_char(i, j);
    sub.to_owned()
}

/// True when `p` is a literal character-level prefix of `s`.
pub fn starts_with(s: &str, p: &str) -> (r: bool)
    ensures
        r == p@.is_prefix_of(s@),
{
    let np: usize = p.unicode_len();
    let ns: usize = s.unicode_len();
    if np > ns {
        return false;
    }
    let mut k: usize = 0;
    while k < np
        invariant
            k <= np <= ns,
            np == p@.len(),
            ns == s@.len(),
            forall|t: int| 0 <= t < k ==> p@[t] == s@[t],
        decreases np - k,
    {
        if s.get_char(k) != p.get_char(k) {
            proof {
                if p@.is_prefix_of(s@) {
                    assert(p@[k as int] == s@.subrange(0, p@.len() as int)[k as int]);
                }
            }
            return false;
        }
        k = k + 1;
    }
    proof {
        assert(p@ =~= s@.subrange(0, np as int));
    }
    true
}

/// True when `p` is a literal character-level suffix of `s`.
pub fn ends_with(s: &str, p: &str) -> (r: bool)
    ensures
        r == p@.is_suffix_of(s@),
{
    let np: usize = p.unicode_len();
    let ns: usize = s.unicode_len();
    if np > ns {
        return false;
    }
    let off: usize = ns - np;
    let mut k: usize = 0;
    while k < np
        invariant
            k <= np <= ns,
            np == p@.len(),
            ns == s@.len(),
            off == ns - np,
            forall|t: int| 0 <= t < k ==> p@[t] == s@[t + off],
        decreases np - k,
    {
        if s.get_char(off + k) != p.get_char(k) {
            proof {
                if p@.is_suffix_of(s@) {
                    assert(p@[k as int] == s@.subrange(off as int, ns as int)[k as int]);
                }
            }
            return false;
        }
        k = k + 1;
    }
    proof {
        assert(p@ =~= s@.subrange(off as int, ns as int));
    }
    true
}

/// Character-for-character equality of two string slices.
pub fn str_eq(a: &str, b: &str) -> (r: bool)
    ensures
        r == (a@ == b@),
{
    let na: usize = a.unicode_len();
    let nb: usize = b.unicode_len();
    if na != nb {
        return false;
    }
    let mut k: usize = 0;
    while k < na
        invariant
            k <= na,
            na == a@.len(),
            nb == b@.len(),
            na == nb,
            forall|t: int| 0 <= t < k ==> a@[t] == b@[t],
        decreases na - k,
    {
        if a.get_char(k) != b.get_char(k) {
            return false;
        }
        k = k + 1;
    }
    proof {
        assert(a@ =~= b@);
    }
    true
}

/// The separator characters on which a directive line is split.
pub open spec fn is_sep(c: char) -> bool {
    c == '=' || c == '+'
}

/// Index of the last separator character of `s`, or -1 when there is none.
pub open spec fn last_sep_idx(s: Seq<char>) -> int
    decreases s.len(),
{
    if s.len() == 0 {
        -1
    } else if is_sep(s.last()) {
        s.len() - 1
    } else {
        last_sep_idx(s.drop_last())
    }
}

/// `last_sep_idx` points at a separator followed only by non-separators,
/// and is -1 exactly when `s` has no separator at all.
pub proof fn lemma_last_sep_idx(s: Seq<char>)
    ensures
        -1 <= last_sep_idx(s) < s.len(),
        last_sep_idx(s) >= 0 ==> is_sep(s[last_sep_idx(s)]),
        forall|k: int| last_sep_idx(s) < k < s.len() ==> !is_sep(s[k]),
    decreases s.len(),
{
    if s.len() == 0 {
    } else if is_sep(s.last()) {
    } else {
        lemma_last_sep_idx(s.drop_last());
        if last_sep_idx(s) >= 0 {
            assert(s.drop_last()[last_sep_idx(s)] == s[last_sep_idx(s)]);
        }
        assert forall|k: int| last_sep_idx(s) < k < s.len() implies !is_sep(s[k]) by {
            if k < s.len() - 1 {
                assert(s.drop_last()[k] == s[k]);
            }
        }
    }
}

/// Finds the last `=` or `+` of `s`, if any.
pub fn find_last_sep(s: &str) -> (r: Option<usize>)
    ensures
        match r {
            Some(i) => i as int == last_sep_idx(s@) && (i as int) < s@.len(),
            None => last_sep_idx(s@) == -1,
        },
{
    let n: usize = s.unicode_len();
    let mut j: usize = n;
    while j > 0
        invariant
            j <= n,
            n == s@.len(),
            forall|k: int| j <= k < n ==> !is_sep(s@[k]),
        decreases j,
    {
        let c = s.get_char(j - 1);
        if c == '=' || c == '+' {
            proof {
                lemma_last_sep_idx(s@);
                if last_sep_idx(s@) < j - 1 {
                    assert(!is_sep(s@[j - 1]));
                    assert(false);
                }
                if last_sep_idx(s@) > j - 1 {
                    assert(is_sep(s@[last_sep_idx(s@)]));
                    assert(false);
                }
            }
            return Some(j - 1);
        }
        j = j - 1;
    }
    proof {
        lemma_last_sep_idx(s@);
        if last_sep_idx(s@) >= 0 {
            assert(is_sep(s@[last_sep_idx(s@)]));
            assert(false);
        }
    }
    None
}

/// Copy of the character range `from..to` of `s` as an owned string.
pub fn substring(s: &str, from: usize, to: usize) -> (r: String)
    requires
        from <= to <= s@.len(),
    ensures
        r@ == s@.subrange(from as int, to as int),
{
    s.substring_char(from, to).to_owned()
}

/// `a` followed by `b`.
pub fn concat_str(a: &str, b: &str) -> (r: String)
    ensures
        r@ == a@ + b@,
{
    let mut r: String = a.to_owned();
    r.append(b);
    r
}

} // verus!
