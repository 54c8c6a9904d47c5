//! The include-path aggregator: a deduplicating, order-blind collection
//! of path strings, finalized into a lexicographically sorted list with
//! no duplicates.

use vstd::prelude::*;
use crate::strutil::views_of;
use crate::strutil::str_eq;
use crate::order::sort_strings;
use crate::order::strictly_sorted_strings;
use crate::order::lex_lt;
use crate::order::lex_leq;

verus! {

broadcast use vstd::seq_lib::group_seq_properties, vstd::multiset::group_multiset_axioms, vstd::set::group_set_axioms;

/// Two equal entries of a string sequence give their view a multiplicity
/// of at least two.
pub proof fn lemma_dup_count(s: Seq<Seq<char>>, i: int, j: int)
    requires
        0 <= i < j < s.len(),
        s[i] == s[j],
    ensures
        s.to_multiset().count(s[i]) >= 2,
{
    assert(s.remove(j).to_multiset() =~= s.to_multiset().remove(s[j]));
    assert(s.remove(j)[i] == s[i]);
    assert(s.remove(j).contains(s[i]));
    assert(s.remove(j).to_multiset().count(s[i]) >= 1);
}

/// A view with multiplicity at least two sits at two distinct entries.
pub proof fn lemma_count_two(s: Seq<Seq<char>>, x: Seq<char>)
    requires
        s.to_multiset().count(x) >= 2,
    ensures
        exists|i: int, j: int| 0 <= i < j < s.len() && s[i] == x && s[j] == x,
{
    assert(s.contains(x));
    let i = choose|i: int| 0 <= i < s.len() && s[i] == x;
    assert(s.remove(i).to_multiset() =~= s.to_multiset().remove(s[i]));
    assert(s.remove(i).to_multiset().count(x) >= 1);
    assert(s.remove(i).contains(x));
    let k = choose|k: int| 0 <= k < s.remove(i).len() && s.remove(i)[k] == x;
    if k < i {
        assert(s[k] == x && s[i] == x && k < i);
    } else {
        assert(s.remove(i)[k] == s[k + 1]);
        assert(s[i] == x && s[k + 1] == x && i < k + 1);
    }
}

/// The deduplicating set of include-path strings that every
/// directory-admission decision of a run feeds.
pub struct IncludePathAggregator {
    items: Vec<String>,
}

impl IncludePathAggregator {
    /// The set of paths aggregated so far.
    pub closed spec fn set_view(&self) -> Set<Seq<char>> {
        views_of(self.items@).to_set()
    }

    /// No path is ever held twice.
    pub closed spec fn wf(&self) -> bool {
        forall|i: int, j: int|
            0 <= i < j < self.items@.len() ==> self.items@[i]@ != self.items@[j]@
    }

    /// An empty aggregate.
    pub fn new() -> (r: Self)
        ensures
            r.wf(),
            r.set_view() == Set::<Seq<char>>::empty(),
    {
        let r = IncludePathAggregator { items: Vec::new() };
        proof {
            assert(views_of(r.items@) =~= Seq::<Seq<char>>::empty());
            assert(r.set_view() =~= Set::<Seq<char>>::empty());
        }
        r
    }

    /// Whether `p` was aggregated already.
    pub fn contains(&self, p: &str) -> (r: bool)
        ensures
            r == self.set_view().contains(p@),
    {
        let mut k: usize = 0;
        while k < self.items.len()
            invariant
                k <= self.items@.len(),
                forall|t: int| 0 <= t < k ==> self.items@[t]@ != p@,
            decreases self.items@.len() - k,
        {
            if str_eq(self.items[k].as_str(), p) {
                proof {
                    assert(views_of(self.items@)[k as int] == p@);
                    assert(views_of(self.items@).contains(p@));
                }
                return true;
            }
            k = k + 1;
        }
        proof {
            if self.set_view().contains(p@) {
                let t = choose|t: int|
                    0 <= t < views_of(self.items@).len() && views_of(self.items@)[t] == p@;
                assert(self.items@[t]@ == p@);
                assert(false);
            }
        }
        false
    }

    /// Idempotent set insertion: adding a path already present changes
    /// nothing.
    pub fn add(&mut self, p: String)
        requires
            old(self).wf(),
        ensures
            final(self).wf(),
            final(self).set_view() == old(self).set_view().insert(p@),
    {
        let ghost pv = p@;
        let present = self.contains(p.as_str());
        if !present {
            let ghost before = self.items@;
            self.items.push(p);
            proof {
                assert(views_of(self.items@) =~= views_of(before).push(pv));
                assert forall|x: Seq<char>|
                    self.set_view().contains(x) <==> (views_of(before).to_set().contains(x)
                        || x == pv) by {
                    if views_of(self.items@).contains(x) {
                        let t = choose|t: int|
                            0 <= t < views_of(self.items@).len() && views_of(self.items@)[t] == x;
                        if t < views_of(before).len() {
                            assert(views_of(before)[t] == x);
                        }
                    }
                    if views_of(before).contains(x) {
                        let t = choose|t: int|
                            0 <= t < views_of(before).len() && views_of(before)[t] == x;
                        assert(views_of(self.items@)[t] == x);
                    }
                    if x == pv {
                        assert(views_of(self.items@)[views_of(before).len() as int] == x);
                    }
                }
                assert(self.set_view() =~= views_of(before).to_set().insert(pv));
                assert forall|i: int, j: int|
                    0 <= i < j < self.items@.len() implies self.items@[i]@ != self.items@[j]@ by {
                    if j == self.items@.len() - 1 {
                        if self.items@[i]@ == pv {
                            assert(views_of(before)[i] == pv);
                            assert(views_of(before).contains(pv));
                            assert(views_of(before).to_set().contains(pv));
                            assert(false);
                        }
                    }
                }
            }
        } else {
            proof {
                assert(old(self).set_view().insert(pv) =~= old(self).set_view());
            }
        }
    }

    /// The aggregated paths as a sorted list: every member exactly once,
    /// in strictly increasing lexicographic order.
    pub fn finalize(&self) -> (r: Vec<String>)
        requires
            self.wf(),
        ensures
            strictly_sorted_strings(views_of(r@)),
            views_of(r@).to_set() == self.set_view(),
    {
        let r = sort_strings(&self.items);
        proof {
            let vr = views_of(r@);
            let vi = views_of(self.items@);
            assert forall|x: Seq<char>| vr.to_set().contains(x) <==> vi.to_set().contains(x) by {
                assert(vr.contains(x) <==> vr.to_multiset().count(x) > 0);
                assert(vi.contains(x) <==> vi.to_multiset().count(x) > 0);
            }
            assert(vr.to_set() =~= vi.to_set());
            assert forall|i: int, j: int| 0 <= i < j < vr.len() implies lex_lt(vr[i], vr[j]) by {
                assert(lex_leq(vr[i], vr[j]));
                if vr[i] == vr[j] {
                    lemma_dup_count(vr, i, j);
                    lemma_count_two(vi, vr[i]);
                    let (a, b): (int, int) = choose|a: int, b: int|
                        0 <= a < b < vi.len() && vi[a] == vr[i] && vi[b] == vr[i];
                    assert(self.items@[a]@ == self.items@[b]@);
                    assert(false);
                }
            }
        }
        r
    }
}

} // verus!
