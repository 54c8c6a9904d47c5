//! The directory walker: given a directory tree and a rule set, collects
//! every directory of the tree that the rules do not exclude. Exclusion
//! stops a directory from being collected, never from being descended
//! into, so a rule excludes specific path strings, not whole subtrees.

use vstd::prelude::*;
use vstd::multiset::Multiset;
use crate::rules::ExcludePattern;
use crate::rules::excluded;
use crate::rules::is_excluded_dir;
use crate::strutil::views_of;
use crate::agg::IncludePathAggregator;

verus! {

broadcast use vstd::seq_lib::group_to_multiset_ensures, vstd::multiset::group_multiset_axioms;

/// A directory and the subdirectories beneath it, as read off the disk:
/// `path` is the directory's absolute path, `children` its immediate
/// subdirectories. Non-directory entries are never part of the tree.
pub struct DirTree {
    pub path: String,
    pub children: Vec<DirTree>,
}

/// The paths that a walk of `t` admits, as a multiset: every directory
/// of the tree that the rule set does not exclude.
pub open spec fn admitted(t: DirTree, rules: Seq<ExcludePattern>) -> Multiset<Seq<char>>
    decreases t,
{
    let own = if excluded(t.path@, rules) {
        Multiset::<Seq<char>>::empty()
    } else {
        Multiset::<Seq<char>>::empty().insert(t.path@)
    };
    own.add(admitted_forest(t.children@, rules))
}

/// The paths that walks of a sequence of trees admit, together.
pub open spec fn admitted_forest(ts: Seq<DirTree>, rules: Seq<ExcludePattern>) -> Multiset<
    Seq<char>,
>
    decreases ts,
{
    if ts.len() == 0 {
        Multiset::empty()
    } else {
        admitted(ts[0], rules).add(admitted_forest(ts.skip(1), rules))
    }
}

/// Number of directories in a tree; the walk's termination measure.
pub open spec fn tree_size(t: DirTree) -> nat
    decreases t,
{
    1 + forest_size(t.children@)
}

/// Number of directories in a sequence of trees.
pub open spec fn forest_size(ts: Seq<DirTree>) -> nat
    decreases ts,
{
    if ts.len() == 0 {
        0
    } else {
        tree_size(ts[0]) + forest_size(ts.skip(1))
    }
}

/// Appending one tree to a forest grows its size by that tree's size.
pub proof fn lemma_forest_size_push(ts: Seq<DirTree>, t: DirTree)
    ensures
        forest_size(ts.push(t)) == forest_size(ts) + tree_size(t),
    decreases ts.len(),
{
    if ts.len() == 0 {
        assert(ts.push(t)[0] == t);
        assert(ts.push(t).skip(1) =~= Seq::<DirTree>::empty());
        assert(forest_size(Seq::<DirTree>::empty()) == 0);
    } else {
        assert(ts.push(t)[0] == ts[0]);
        assert(ts.push(t).skip(1) =~= ts.skip(1).push(t));
        lemma_forest_size_push(ts.skip(1), t);
    }
}

/// A forest's size splits over concatenation.
pub proof fn lemma_forest_size_concat(ts: Seq<DirTree>, us: Seq<DirTree>)
    ensures
        forest_size(ts + us) == forest_size(ts) + forest_size(us),
    decreases ts.len(),
{
    if ts.len() == 0 {
        assert(ts + us =~= us);
    } else {
        assert((ts + us)[0] == ts[0]);
        assert((ts + us).skip(1) =~= ts.skip(1) + us);
        lemma_forest_size_concat(ts.skip(1), us);
    }
}

/// Appending one tree to a forest adds exactly that tree's admitted paths.
pub proof fn lemma_forest_push(ts: Seq<DirTree>, t: DirTree, rules: Seq<ExcludePattern>)
    ensures
        admitted_forest(ts.push(t), rules) == admitted_forest(ts, rules).add(admitted(t, rules)),
    decreases ts.len(),
{
    if ts.len() == 0 {
        assert(ts.push(t)[0] == t);
        assert(ts.push(t).skip(1) =~= Seq::<DirTree>::empty());
        assert(admitted_forest(Seq::<DirTree>::empty(), rules) == Multiset::<Seq<char>>::empty());
        assert(admitted_forest(ts.push(t), rules) =~= admitted_forest(ts, rules).add(
            admitted(t, rules),
        ));
    } else {
        assert(ts.push(t)[0] == ts[0]);
        assert(ts.push(t).skip(1) =~= ts.skip(1).push(t));
        lemma_forest_push(ts.skip(1), t, rules);
        assert(admitted_forest(ts.push(t), rules) =~= admitted_forest(ts, rules).add(
            admitted(t, rules),
        ));
    }
}

/// A forest's admitted paths split over concatenation.
pub proof fn lemma_forest_concat(ts: Seq<DirTree>, us: Seq<DirTree>, rules: Seq<ExcludePattern>)
    ensures
        admitted_forest(ts + us, rules) == admitted_forest(ts, rules).add(
            admitted_forest(us, rules),
        ),
    decreases ts.len(),
{
    if ts.len() == 0 {
        assert(ts + us =~= us);
        assert(admitted_forest(ts + us, rules) =~= admitted_forest(ts, rules).add(
            admitted_forest(us, rules),
        ));
    } else {
        assert((ts + us)[0] == ts[0]);
        assert((ts + us).skip(1) =~= ts.skip(1) + us);
        lemma_forest_concat(ts.skip(1), us, rules);
        assert(admitted_forest(ts + us, rules) =~= admitted_forest(ts, rules).add(
            admitted_forest(us, rules),
        ));
    }
}

/// Walks a directory tree against a rule set, depth-first over an
/// explicit worklist, and returns every directory the rules admit. The
/// result carries exactly the admitted paths; their order is not part of
/// the contract, since the aggregated set downstream is order-blind.
pub fn walk(root: DirTree, rules: &Vec<ExcludePattern>) -> (out: Vec<String>)
    ensures
        views_of(out@).to_multiset() == admitted(root, rules@),
{
    let mut out: Vec<String> = Vec::new();
    let mut stack: Vec<DirTree> = Vec::new();
    let ghost root_snap = root;
    stack.push(root);
    proof {
        lemma_forest_push(Seq::<DirTree>::empty(), root_snap, rules@);
        assert(views_of(out@) =~= Seq::<Seq<char>>::empty());
        assert(views_of(out@).to_multiset().add(admitted_forest(stack@, rules@)) =~= admitted(
            root_snap,
            rules@,
        ));
    }
    while stack.len() > 0
        invariant
            views_of(out@).to_multiset().add(admitted_forest(stack@, rules@)) == admitted(
                root_snap,
                rules@,
            ),
        decreases forest_size(stack@),
    {
        let ghost stack_before = stack@;
        let popped = stack.pop();
        if let Some(mut node) = popped {
            let ghost node_snap = node;
            proof {
                assert(stack_before.drop_last() =~= stack@);
                assert(stack@.push(node_snap) =~= stack_before);
                lemma_forest_push(stack@, node_snap, rules@);
                lemma_forest_size_push(stack@, node_snap);
            }
            let ghost out_before = out@;
            let is_ex = is_excluded_dir(node.path.as_str(), rules);
            if !is_ex {
                out.push(node.path.clone());
                proof {
                    assert(views_of(out@) =~= views_of(out_before).push(node_snap.path@));
                }
            }
            let ghost stack_mid = stack@;
            stack.append(&mut node.children);
            proof {
                lemma_forest_concat(stack_mid, node_snap.children@, rules@);
                lemma_forest_size_concat(stack_mid, node_snap.children@);
                assert(views_of(out@).to_multiset().add(admitted_forest(stack@, rules@))
                    =~= admitted(root_snap, rules@));
            }
        } else {
            proof {
                assert(false);
            }
        }
    }
    proof {
        assert(views_of(out@).to_multiset().add(admitted_forest(stack@, rules@)) =~= views_of(
            out@,
        ).to_multiset());
    }
    out
}

/// Walks `dir` against `excludes` and adds every admitted directory to
/// the aggregated include-path set: afterwards the set holds exactly
/// what it held before plus the walk's admitted paths.
pub fn add_directories_recursively(
    dir: DirTree,
    excludes: &Vec<ExcludePattern>,
    include_paths: &mut IncludePathAggregator,
)
    requires
        old(include_paths).wf(),
    ensures
        final(include_paths).wf(),
        forall|p: Seq<char>|
            final(include_paths).set_view().contains(p) <==> (old(
                include_paths,
            ).set_view().contains(p) || admitted(dir, excludes@).count(p) > 0),
{
    let ghost dir_snap = dir;
    let found = walk(dir, excludes);
    let mut i: usize = 0;
    proof {
        assert(views_of(found@).take(0) =~= Seq::<Seq<char>>::empty());
    }
    while i < found.len()
        invariant
            include_paths.wf(),
            i <= found@.len(),
            views_of(found@).to_multiset() == admitted(dir_snap, excludes@),
            forall|p: Seq<char>|
                include_paths.set_view().contains(p) <==> (old(
                    include_paths,
                ).set_view().contains(p) || views_of(found@).take(i as int).contains(p)),
        decreases found@.len() - i,
    {
        include_paths.add(found[i].clone());
        proof {
            let vf = views_of(found@);
            assert(vf.take(i + 1) =~= vf.take(i as int).push(vf[i as int]));
            let ghost x = vf[i as int];
            let ghost s1 = vf.take(i + 1);
            let ghost s0 = vf.take(i as int);
            assert forall|p: Seq<char>| s1.contains(p) <==> (s0.contains(p) || p == x) by {
                if s1.contains(p) {
                    let t = choose|t: int| 0 <= t < s1.len() && s1[t] == p;
                    if t < i as int {
                        assert(s0[t] == p);
                    }
                }
                if s0.contains(p) {
                    let t = choose|t: int| 0 <= t < s0.len() && s0[t] == p;
                    assert(s1[t] == p);
                }
                if p == x {
                    assert(s1[i as int] == p);
                }
            }
        }
        i = i + 1;
    }
    proof {
        let vf = views_of(found@);
        assert(vf.take(found@.len() as int) =~= vf);
        assert forall|p: Seq<char>| vf.contains(p) <==> admitted(dir_snap, excludes@).count(p)
            > 0 by {
            assert(vf.contains(p) <==> vf.to_multiset().count(p) > 0);
        }
    }
}

} // verus!
