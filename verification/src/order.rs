//! Lexicographic order on strings, by code point, with the ordering laws
//! the sorter and the aggregator's determinism argument rest on, and a
//! verified insertion sort for path lists.

use vstd::prelude::*;
use vstd::string::StrSliceExecFns;
use crate::strutil::views_of;

verus! {

broadcast use vstd::seq_lib::group_to_multiset_ensures, vstd::multiset::group_multiset_axioms, vstd::utf8::char_u32_cast;

/// Strict lexicographic order on character sequences, by code point.
pub open spec fn lex_lt(a: Seq<char>, b: Seq<char>) -> bool
    decreases a.len(),
{
    if b.len() == 0 {
        false
    } else if a.len() == 0 {
        true
    } else if a[0] != b[0] {
        (a[0] as u32) < (b[0] as u32)
    } else {
        lex_lt(a.skip(1), b.skip(1))
    }
}

/// Lexicographic order, allowing equality.
pub open spec fn lex_leq(a: Seq<char>, b: Seq<char>) -> bool {
    a == b || lex_lt(a, b)
}

/// Each string of the sequence is at most the ones after it.
pub open spec fn sorted_strings(v: Seq<Seq<char>>) -> bool {
    forall|i: int, j: int| 0 <= i < j < v.len() ==> lex_leq(v[i], v[j])
}

/// Each string of the sequence is strictly below the ones after it; such
/// a sequence carries no duplicates.
pub open spec fn strictly_sorted_strings(v: Seq<Seq<char>>) -> bool {
    forall|i: int, j: int| 0 <= i < j < v.len() ==> lex_lt(v[i], v[j])
}

/// No string is strictly below itself.
pub proof fn lemma_lex_lt_irreflexive(a: Seq<char>)
    ensures
        !lex_lt(a, a),
    decreases a.len(),
{
    if a.len() > 0 {
        lemma_lex_lt_irreflexive(a.skip(1));
    }
}

/// Two distinct strings are ordered one way or the other.
pub proof fn lemma_lex_lt_connected(a: Seq<char>, b: Seq<char>)
    ensures
        a != b ==> lex_lt(a, b) || lex_lt(b, a),
    decreases a.len(),
{
    if a.len() == 0 && b.len() == 0 {
        assert(a =~= b);
    }
    if a.len() > 0 && b.len() > 0 && a[0] != b[0] {
        vstd::utf8::char_u32_cast(a[0], a[0] as u32);
        vstd::utf8::char_u32_cast(b[0], b[0] as u32);
        assert((a[0] as u32) != (b[0] as u32));
    }
    if a.len() > 0 && b.len() > 0 && a[0] == b[0] {
        lemma_lex_lt_connected(a.skip(1), b.skip(1));
        if a != b {
            if a.skip(1) == b.skip(1) {
                assert(a.skip(1).len() == b.skip(1).len());
                assert(a.len() == b.len());
                assert forall|i: int| 0 <= i < a.len() implies a[i] == b[i] by {
                    if i > 0 {
                        assert(a.skip(1)[i - 1] == a[i]);
                        assert(b.skip(1)[i - 1] == b.subrange(1, b.len() as int)[i - 1]);
                        assert(b.subrange(1, b.len() as int)[i - 1] == b[i]);
                    }
                }
                assert(a =~= b);
            }
        }
    }
}

/// The order never holds both ways.
pub proof fn lemma_lex_lt_asymmetric(a: Seq<char>, b: Seq<char>)
    ensures
        lex_lt(a, b) ==> !lex_lt(b, a),
    decreases a.len(),
{
    if a.len() > 0 && b.len() > 0 && a[0] == b[0] {
        lemma_lex_lt_asymmetric(a.skip(1), b.skip(1));
    }
}

/// The order composes.
pub proof fn lemma_lex_lt_transitive(a: Seq<char>, b: Seq<char>, c: Seq<char>)
    ensures
        lex_lt(a, b) && lex_lt(b, c) ==> lex_lt(a, c),
    decreases a.len(),
{
    if a.len() > 0 && b.len() > 0 && c.len() > 0 && a[0] == b[0] && b[0] == c[0] {
        lemma_lex_lt_transitive(a.skip(1), b.skip(1), c.skip(1));
    }
}

/// Decides the strict lexicographic order on two strings.
pub fn str_lt(a: &str, b: &str) -> (r: bool)
    ensures
        r == lex_lt(a@, b@),
{
    let na: usize = a.unicode_len();
    let nb: usize = b.unicode_len();
    let mut k: usize = 0;
    proof {
        assert(a@.skip(0) =~= a@);
        assert(b@.skip(0) =~= b@);
    }
    while k < na && k < nb
        invariant
            k <= na,
            k <= nb,
            na == a@.len(),
            nb == b@.len(),
            lex_lt(a@, b@) == lex_lt(a@.skip(k as int), b@.skip(k as int)),
        decreases na - k,
    {
        let ca = a.get_char(k);
        let cb = b.get_char(k);
        proof {
            assert(a@.skip(k as int)[0] == a@[k as int]);
            assert(b@.skip(k as int)[0] == b@[k as int]);
        }
        if ca != cb {
            return (ca as u32) < (cb as u32);
        }
        proof {
            assert(a@.skip(k as int).skip(1) =~= a@.skip(k + 1));
            assert(b@.skip(k as int).skip(1) =~= b@.skip(k + 1));
        }
        k = k + 1;
    }
    proof {
        if k == na {
            assert(a@.skip(k as int) =~= Seq::<char>::empty());
        }
        if k == nb {
            assert(b@.skip(k as int) =~= Seq::<char>::empty());
        }
    }
    na < nb
}

/// Inserts `x` into the sorted vector `r`, keeping it sorted.
fn insert_sorted(r: &mut Vec<String>, x: String)
    requires
        sorted_strings(views_of(old(r)@)),
    ensures
        sorted_strings(views_of(final(r)@)),
        views_of(final(r)@).to_multiset() == views_of(old(r)@).to_multiset().insert(x@),
{
    let mut idx: usize = 0;
    while idx < r.len() && str_lt(r[idx].as_str(), x.as_str())
        invariant
            idx <= r@.len(),
            forall|t: int| 0 <= t < idx ==> lex_lt(r@[t]@, x@),
        decreases r@.len() - idx,
    {
        idx = idx + 1;
    }
    let ghost before = r@;
    let ghost at = idx as int;
    r.insert(idx, x);
    proof {
        let vb = views_of(before);
        let vr = views_of(r@);
        assert(vr =~= vb.insert(at, x@));
        assert(vb.insert(at, x@) =~= vb.take(at).push(x@) + vb.skip(at));
        vstd::seq_lib::lemma_multiset_commutative(vb.take(at).push(x@), vb.skip(at));
        vstd::seq_lib::lemma_multiset_commutative(vb.take(at), vb.skip(at));
        assert(vb.take(at) + vb.skip(at) =~= vb);
        assert(vr.to_multiset() =~= vb.to_multiset().insert(x@));
        assert(vr.len() == vb.len() + 1);
        assert(forall|t: int| 0 <= t < at ==> vr[t] == vb[t]);
        assert(vr[at] == x@);
        assert(forall|t: int| at < t < vr.len() ==> vr[t] == vb[t - 1]);
        assert forall|i: int, j: int| 0 <= i < j < vr.len() implies lex_leq(vr[i], vr[j]) by {
            if at < vb.len() {
                lemma_lex_lt_connected(x@, vb[at]);
            }
            if j < at {
                // both below the insertion point: ordered as before
            } else if i < at && j == at {
                assert(lex_lt(vb[i], x@));
            } else if i < at && j > at {
                if i == j - 1 {
                } else {
                    assert(lex_leq(vb[i], vb[j - 1]));
                }
            } else if i == at {
                // x against an element at or past the insertion point
                assert(at < vb.len());
                assert(lex_leq(x@, vb[at]));
                if j - 1 == at {
                } else {
                    assert(lex_leq(vb[at], vb[j - 1]));
                    lemma_lex_lt_transitive(x@, vb[at], vb[j - 1]);
                }
            } else {
                assert(lex_leq(vb[i - 1], vb[j - 1]));
            }
        }
    }
}

/// Sorts a list of path strings lexicographically, by code point; the
/// result holds exactly the same strings, multiplicity included.
pub fn sort_strings(v: &Vec<String>) -> (r: Vec<String>)
    ensures
        sorted_strings(views_of(r@)),
        views_of(r@).to_multiset() == views_of(v@).to_multiset(),
{
    let mut r: Vec<String> = Vec::new();
    let mut i: usize = 0;
    proof {
        assert(views_of(r@) =~= Seq::<Seq<char>>::empty());
        assert(views_of(v@.take(0)) =~= Seq::<Seq<char>>::empty());
    }
    while i < v.len()
        invariant
            i <= v@.len(),
            sorted_strings(views_of(r@)),
            views_of(r@).to_multiset() == views_of(v@.take(i as int)).to_multiset(),
        decreases v@.len() - i,
    {
        let x = v[i].clone();
        insert_sorted(&mut r, x);
        proof {
            assert(views_of(v@.take(i + 1)) =~= views_of(v@.take(i as int)).push(v@[i as int]@));
        }
        i = i + 1;
    }
    proof {
        assert(v@.take(v@.len() as int) =~= v@);
    }
    r
}

} // verus!
