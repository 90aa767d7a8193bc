//! What the stack of a branch is, as `--current-stack` takes it: the branch,
//! the walk up from it to its root, and what descends from the branch; not
//! its siblings.
use vstd::prelude::*;

use crate::utils::stack_utils::{
    ancestor_at, current_stack, descends_from, is_depth, lemma_ancestor_none_stays, lemma_ancestor_tracked,
    lemma_depth_exists, lemma_repeat_never_ends, links_to, parent_of, stack_root, up_step, walk_ends, BranchMap,
};

verus! {

/// A tracked branch belongs to its own stack, and so does the stack's root,
/// which is tracked and has no tracked, non-trunk parent.
pub proof fn lemma_stack_holds_branch_and_root(m: BranchMap, trunks: Seq<Seq<char>>, k: Seq<char>)
    requires
        m.contains_key(k),
        walk_ends(m, trunks, k),
    ensures
        current_stack(m, trunks, k).contains(k),
        current_stack(m, trunks, k).contains(stack_root(m, trunks, k)),
        m.contains_key(stack_root(m, trunks, k)),
        up_step(m, trunks, stack_root(m, trunks, k)) is None,
{
    lemma_depth_exists(m, trunks, k);
    let d = choose|d: nat| is_depth(m, trunks, k, d);
    let r = stack_root(m, trunks, k);
    assert(ancestor_at(m, trunks, k, d) == Some(r));
    assert(ancestor_at(m, trunks, k, 0) == Some(k));
    if d > 0 {
        lemma_ancestor_tracked(m, trunks, k, d);
    }
}

/// Every member of a stack is tracked; every tracked child of a member that
/// descends from the branch is a member; and the tracked, non-trunk parent of
/// a member on the walk up is a member.
pub proof fn lemma_stack_closure(
    m: BranchMap,
    trunks: Seq<Seq<char>>,
    k: Seq<char>,
    x: Seq<char>,
    c: Seq<char>,
)
    requires
        current_stack(m, trunks, k).contains(x),
    ensures
        m.contains_key(x),
        descends_from(m, x, k) && m.contains_key(c) && parent_of(m, c) == Some(x) ==> current_stack(
            m,
            trunks,
            k,
        ).contains(c),
        (exists|n: nat| #[trigger] ancestor_at(m, trunks, k, n) == Some(x)) && up_step(m, trunks, x) is Some
            ==> current_stack(m, trunks, k).contains(up_step(m, trunks, x)->0),
{
    if exists|n: nat| #[trigger] ancestor_at(m, trunks, k, n) == Some(x) {
        let n = choose|n: nat| #[trigger] ancestor_at(m, trunks, k, n) == Some(x);
        if n > 0 {
            lemma_ancestor_tracked(m, trunks, k, n);
        }
        if up_step(m, trunks, x) is Some {
            assert(ancestor_at(m, trunks, k, n + 1) == up_step(m, trunks, x));
        }
    } else {
        let n = choose|n: nat| #[trigger] links_to(m, x, k, n);
        if n > 0 {
            assert(parent_of(m, x) is Some);
        }
    }
    if descends_from(m, x, k) && m.contains_key(c) && parent_of(m, c) == Some(x) {
        let n = choose|n: nat| #[trigger] links_to(m, x, k, n);
        assert(links_to(m, c, k, n + 1));
    }
}

/// A sibling of a branch (another tracked branch with the same recorded
/// parent) is not in the branch's stack, when the walk up from the branch
/// ends and the common parent does not itself descend from the branch.
pub proof fn lemma_stack_leaves_out_siblings(
    m: BranchMap,
    trunks: Seq<Seq<char>>,
    k: Seq<char>,
    s: Seq<char>,
    p: Seq<char>,
)
    requires
        m.contains_key(k),
        m.contains_key(s),
        s != k,
        parent_of(m, k) == Some(p),
        parent_of(m, s) == Some(p),
        walk_ends(m, trunks, k),
        !descends_from(m, p, k),
    ensures
        !current_stack(m, trunks, k).contains(s),
{
    if descends_from(m, s, k) {
        let n = choose|n: nat| #[trigger] links_to(m, s, k, n);
        assert(n > 0);
        assert(links_to(m, p, k, (n - 1) as nat));
    }
    if exists|n: nat| #[trigger] ancestor_at(m, trunks, k, n) == Some(s) {
        let n = choose|n: nat| #[trigger] ancestor_at(m, trunks, k, n) == Some(s);
        assert(n > 0);
        if ancestor_at(m, trunks, k, 1) is None {
            lemma_ancestor_none_stays(m, trunks, k, 1, n);
        }
        assert(ancestor_at(m, trunks, k, 0) == Some(k));
        assert(ancestor_at(m, trunks, k, 1) == up_step(m, trunks, k));
        assert(ancestor_at(m, trunks, k, 1) == Some(p));
        assert(ancestor_at(m, trunks, k, n + 1) == up_step(m, trunks, s));
        assert(ancestor_at(m, trunks, k, n + 1) == Some(p));
        assert forall|q: nat| q <= n + 1 implies #[trigger] ancestor_at(m, trunks, k, q) is Some by {
            if ancestor_at(m, trunks, k, q) is None {
                lemma_ancestor_none_stays(m, trunks, k, q, n + 1);
            }
        }
        let e = choose|e: nat| #[trigger] ancestor_at(m, trunks, k, e) is None;
        lemma_repeat_never_ends(m, trunks, k, 1, n + 1, e);
    }
}

} // verus!
