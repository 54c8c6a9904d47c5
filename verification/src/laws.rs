//! The library's laws, each proved from the contracts of the modules it
//! speaks of: the empty rule set compiled from unrecognized lines and
//! its effect on the walk, what the two rule kinds match, and the
//! determinism of the aggregator's finalized list.

use vstd::prelude::*;
use vstd::multiset::Multiset;
use crate::rules::MatchKind;
use crate::rules::ExcludePattern;
use crate::rules::rule_matches;
use crate::rules::excluded;
use crate::rules::line_rule;
use crate::rules::rules_of_lines;
use crate::walk::DirTree;
use crate::walk::admitted;
use crate::walk::admitted_forest;
use crate::order::lex_lt;
use crate::order::strictly_sorted_strings;
use crate::order::lemma_lex_lt_asymmetric;
use crate::order::lemma_lex_lt_irreflexive;
use crate::agg::IncludePathAggregator;

verus! {

broadcast use vstd::seq_lib::group_seq_properties, vstd::multiset::group_multiset_axioms, vstd::set::group_set_axioms;

/// Law: a configuration file none of whose lines carries a recognized
/// directive compiles to the empty rule set.
pub proof fn lemma_no_directives_no_rules(root: Seq<char>, lines: Seq<String>)
    requires
        forall|i: int| 0 <= i < lines.len() ==> line_rule(root, lines[i]@) is None,
    ensures
        rules_of_lines(root, lines) == Seq::<(Seq<char>, MatchKind)>::empty(),
    decreases lines.len(),
{
    if lines.len() > 0 {
        assert forall|i: int| 0 <= i < lines.drop_last().len() implies line_rule(
            root,
            lines.drop_last()[i]@,
        ) is None by {
            assert(lines.drop_last()[i] == lines[i]);
        }
        lemma_no_directives_no_rules(root, lines.drop_last());
        assert(lines.last() == lines[lines.len() - 1]);
    }
}

/// Every directory of the tree, admitted or not.
pub open spec fn all_dirs(t: DirTree) -> Multiset<Seq<char>>
    decreases t,
{
    Multiset::<Seq<char>>::empty().insert(t.path@).add(all_dirs_forest(t.children@))
}

/// Every directory of a sequence of trees.
pub open spec fn all_dirs_forest(ts: Seq<DirTree>) -> Multiset<Seq<char>>
    decreases ts,
{
    if ts.len() == 0 {
        Multiset::empty()
    } else {
        all_dirs(ts[0]).add(all_dirs_forest(ts.skip(1)))
    }
}

/// Law: with no rules at all, the walk admits every directory of the
/// tree.
pub proof fn lemma_no_rules_admit_all(t: DirTree, rules: Seq<ExcludePattern>)
    requires
        rules.len() == 0,
    ensures
        admitted(t, rules) == all_dirs(t),
    decreases t,
{
    assert(!excluded(t.path@, rules));
    lemma_no_rules_admit_all_forest(t.children@, rules);
}

/// Law: with no rules at all, a forest's walks admit every directory.
pub proof fn lemma_no_rules_admit_all_forest(ts: Seq<DirTree>, rules: Seq<ExcludePattern>)
    requires
        rules.len() == 0,
    ensures
        admitted_forest(ts, rules) == all_dirs_forest(ts),
    decreases ts,
{
    if ts.len() > 0 {
        lemma_no_rules_admit_all(ts[0], rules);
        lemma_no_rules_admit_all_forest(ts.skip(1), rules);
    }
}

/// Law: an `Exact` rule matches its own pattern and no proper extension
/// of it.
pub proof fn lemma_exact_rule(p: Seq<char>, ext: Seq<char>)
    ensures
        rule_matches(p, MatchKind::Exact, p),
        ext.len() > 0 ==> !rule_matches(p, MatchKind::Exact, p + ext),
{
    if ext.len() > 0 {
        assert((p + ext).len() == p.len() + ext.len());
    }
}

/// Law: a `PrefixWildcard` rule matches its own pattern and every
/// string-level extension of it, whether or not the extension starts a
/// new path segment.
pub proof fn lemma_prefix_rule(p: Seq<char>, ext: Seq<char>)
    ensures
        rule_matches(p, MatchKind::PrefixWildcard, p),
        rule_matches(p, MatchKind::PrefixWildcard, p + ext),
{
    assert(p =~= p.subrange(0, p.len() as int));
    assert(p =~= (p + ext).subrange(0, p.len() as int));
}

/// Law: a `SubtreeWildcard` rule matches exactly what a
/// `PrefixWildcard` rule with the same pattern matches — the subtree
/// kind is a plain string prefix test too.
pub proof fn lemma_subtree_matches_as_prefix(p: Seq<char>, dir: Seq<char>)
    ensures
        rule_matches(p, MatchKind::SubtreeWildcard, dir) == rule_matches(
            p,
            MatchKind::PrefixWildcard,
            dir,
        ),
{
}

/// Two strictly sorted sequences holding the same set of strings are
/// the same sequence.
pub proof fn lemma_strictly_sorted_unique(s1: Seq<Seq<char>>, s2: Seq<Seq<char>>)
    requires
        strictly_sorted_strings(s1),
        strictly_sorted_strings(s2),
        s1.to_set() == s2.to_set(),
    ensures
        s1 == s2,
    decreases s1.len(),
{
    if s1.len() == 0 {
        if s2.len() > 0 {
            assert(s2.contains(s2[0]));
            assert(s1.to_set().contains(s2[0]));
            assert(s1.contains(s2[0]));
            assert(false);
        }
        assert(s1 =~= s2);
    } else if s2.len() == 0 {
        assert(s1.contains(s1[0]));
        assert(s2.to_set().contains(s1[0]));
        assert(s2.contains(s1[0]));
        assert(false);
    } else {
        let a = s1[0];
        let b = s2[0];
        assert(s1.contains(a));
        assert(s2.to_set().contains(a));
        assert(s2.contains(a));
        let j = choose|j: int| 0 <= j < s2.len() && s2[j] == a;
        assert(s2.contains(b));
        assert(s1.to_set().contains(b));
        assert(s1.contains(b));
        let i = choose|i: int| 0 <= i < s1.len() && s1[i] == b;
        if a != b {
            assert(j != 0);
            assert(lex_lt(b, a));
            assert(i != 0);
            assert(lex_lt(a, b));
            lemma_lex_lt_asymmetric(a, b);
            assert(false);
        }
        let t1 = s1.skip(1);
        let t2 = s2.skip(1);
        assert forall|x: Seq<char>| t1.to_set().contains(x) <==> t2.to_set().contains(x) by {
            lemma_tail_membership(s1, x);
            lemma_tail_membership(s2, x);
        }
        assert(t1.to_set() =~= t2.to_set());
        assert forall|m: int, n: int| 0 <= m < n < t1.len() implies lex_lt(t1[m], t1[n]) by {
            assert(t1[m] == s1[m + 1]);
            assert(t1[n] == s1[n + 1]);
        }
        assert forall|m: int, n: int| 0 <= m < n < t2.len() implies lex_lt(t2[m], t2[n]) by {
            assert(t2[m] == s2[m + 1]);
            assert(t2[n] == s2[n + 1]);
        }
        lemma_strictly_sorted_unique(t1, t2);
        assert forall|k: int| 0 <= k < s1.len() implies s1[k] == s2[k] by {
            if k > 0 {
                assert(t1[k - 1] == s1[k]);
                assert(t2[k - 1] == s2[k]);
            }
        }
        assert(s1 =~= s2);
    }
}

/// In a strictly sorted sequence, the tail holds exactly the members
/// other than the head.
proof fn lemma_tail_membership(s: Seq<Seq<char>>, x: Seq<char>)
    requires
        strictly_sorted_strings(s),
        s.len() > 0,
    ensures
        s.skip(1).to_set().contains(x) <==> (s.to_set().contains(x) && x != s[0]),
{
    broadcast use vstd::seq_lib::group_seq_properties, vstd::set::group_set_axioms;

    let t = s.skip(1);
    if t.contains(x) {
        let k = choose|k: int| 0 <= k < t.len() && t[k] == x;
        assert(t[k] == s[k + 1]);
        assert(s.contains(x));
        assert(lex_lt(s[0], s[k + 1]));
        if x == s[0] {
            lemma_lex_lt_irreflexive(x);
            assert(false);
        }
    }
    if s.contains(x) && x != s[0] {
        let m = choose|m: int| 0 <= m < s.len() && s[m] == x;
        assert(m != 0);
        assert(t[m - 1] == s[m]);
        assert(t.contains(x));
    }
}

/// Law: finalizing the same aggregated set twice yields the same
/// sequence — any two lists that are strictly sorted and hold exactly
/// the aggregated set, as `finalize`'s contract promises, are equal —
/// regardless of insertion order or duplicate insertions.
pub proof fn lemma_finalize_deterministic(
    agg: IncludePathAggregator,
    r1: Seq<Seq<char>>,
    r2: Seq<Seq<char>>,
)
    requires
        strictly_sorted_strings(r1),
        strictly_sorted_strings(r2),
        r1.to_set() == agg.set_view(),
        r2.to_set() == agg.set_view(),
    ensures
        r1 == r2,
{
    lemma_strictly_sorted_unique(r1, r2);
}

} // verus!
