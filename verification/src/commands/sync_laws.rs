//! What the sync order promises: every branch at most once, parents before
//! their children, and exactly the branches that hang below a sync root.
use vstd::prelude::*;
use vstd::seq_lib::lemma_no_dup_in_concat;
use vstd::set_lib::lemma_len_subset;

use crate::commands::stack::{children_of_level, is_sync_root, order_from, sync_order, sync_roots};
use crate::utils::stack_utils::{child_set, parent_of, BranchMap};
use crate::utils::text::{lemma_sorted_listing_exists, lemma_sorted_no_duplicates, sorted_listing, sorted_names};

verus! {

/// `x` hangs `d` tracked parents below a sync root, through named branches.
pub open spec fn sync_depth(m: BranchMap, x: Seq<char>, d: nat) -> bool
    decreases d,
{
    if d == 0 {
        is_sync_root(m, x)
    } else {
        &&& m.contains_key(x)
        &&& x.len() > 0
        &&& match parent_of(m, x) {
            Some(p) => m.contains_key(p) && sync_depth(m, p, (d - 1) as nat),
            None => false,
        }
    }
}

/// The `k`-th level of the sync order.
pub open spec fn sync_level(m: BranchMap, k: nat) -> Seq<Seq<char>>
    decreases k,
{
    if k == 0 {
        sorted_names(sync_roots(m))
    } else {
        children_of_level(m, sync_level(m, (k - 1) as nat))
    }
}

/// `n` steps up the recorded parents from `x`.
pub open spec fn up_n(m: BranchMap, x: Seq<char>, n: nat) -> Seq<char>
    decreases n,
{
    if n == 0 {
        x
    } else {
        match parent_of(m, x) {
            Some(p) => up_n(m, p, (n - 1) as nat),
            None => x,
        }
    }
}

proof fn lemma_child_set_listing(m: BranchMap, p: Seq<char>)
    requires
        m.dom().finite(),
    ensures
        sorted_listing(sorted_names(child_set(m, p, false)), child_set(m, p, false)),
{
    lemma_len_subset(child_set(m, p, false), m.dom());
    lemma_sorted_listing_exists(child_set(m, p, false));
}

proof fn lemma_children_members(m: BranchMap, level: Seq<Seq<char>>)
    requires
        m.dom().finite(),
    ensures
        forall|x: Seq<char>| #[trigger] children_of_level(m, level).contains(x) <==> (m.contains_key(x) && x.len() > 0
            && parent_of(m, x) is Some && level.contains(parent_of(m, x)->0)),
    decreases level.len(),
{
    if level.len() > 0 {
        let init = level.drop_last();
        let p = level.last();
        lemma_children_members(m, init);
        lemma_child_set_listing(m, p);
        let a = children_of_level(m, init);
        let b = sorted_names(child_set(m, p, false));
        assert(children_of_level(m, level) == a + b);
        assert forall|x: Seq<char>| #[trigger] children_of_level(m, level).contains(x) <==> (m.contains_key(x) && x.len()
            > 0 && parent_of(m, x) is Some && level.contains(parent_of(m, x)->0)) by {
            let c = a + b;
            if c.contains(x) {
                let k = choose|k: int| 0 <= k < c.len() && c[k] == x;
                if k < a.len() {
                    assert(a[k] == x);
                    assert(a.contains(x));
                    let q = choose|q: int| 0 <= q < init.len() && init[q] == parent_of(m, x)->0;
                    assert(level[q] == init[q]);
                } else {
                    assert(b[k - a.len()] == x);
                    assert(b.contains(x));
                    assert(child_set(m, p, false).contains(x));
                    assert(level[level.len() - 1] == p);
                }
            }
            if m.contains_key(x) && x.len() > 0 && parent_of(m, x) is Some && level.contains(parent_of(m, x)->0) {
                let q = choose|q: int| 0 <= q < level.len() && level[q] == parent_of(m, x)->0;
                if q < level.len() - 1 {
                    assert(init[q] == level[q]);
                    assert(a.contains(x));
                    let k = choose|k: int| 0 <= k < a.len() && a[k] == x;
                    assert(c[k] == x);
                } else {
                    assert(child_set(m, p, false).contains(x));
                    assert(b.contains(x));
                    let k = choose|k: int| 0 <= k < b.len() && b[k] == x;
                    assert(c[a.len() + k] == x);
                }
            }
        }
    }
}

proof fn lemma_children_no_duplicates(m: BranchMap, level: Seq<Seq<char>>)
    requires
        m.dom().finite(),
        level.no_duplicates(),
    ensures
        children_of_level(m, level).no_duplicates(),
    decreases level.len(),
{
    if level.len() > 0 {
        let init = level.drop_last();
        let p = level.last();
        lemma_children_no_duplicates(m, init);
        lemma_children_members(m, init);
        lemma_child_set_listing(m, p);
        let a = children_of_level(m, init);
        let b = sorted_names(child_set(m, p, false));
        lemma_sorted_no_duplicates(b);
        assert forall|i: int, j: int| 0 <= i < a.len() && 0 <= j < b.len() implies a[i] != b[j] by {
            assert(a.contains(a[i]));
            assert(b.contains(b[j]));
            assert(child_set(m, p, false).contains(b[j]));
            if a[i] == b[j] {
                let q = choose|q: int| 0 <= q < init.len() && init[q] == parent_of(m, a[i])->0;
                assert(level[q] == level[level.len() - 1]);
            }
        }
        lemma_no_dup_in_concat(a, b);
    }
}

/// A branch is in level `k` exactly when it hangs `k` parents below a root.
pub proof fn lemma_level_depth(m: BranchMap, k: nat)
    requires
        m.dom().finite(),
    ensures
        forall|x: Seq<char>| #[trigger] sync_level(m, k).contains(x) <==> sync_depth(m, x, k),
        sync_level(m, k).no_duplicates(),
    decreases k,
{
    if k == 0 {
        lemma_len_subset(sync_roots(m), m.dom());
        lemma_sorted_listing_exists(sync_roots(m));
        lemma_sorted_no_duplicates(sync_level(m, 0));
        assert forall|x: Seq<char>| #[trigger] sync_level(m, k).contains(x) <==> sync_depth(m, x, k) by {
            assert(sync_roots(m).contains(x) == is_sync_root(m, x));
        }
    } else {
        let prev = sync_level(m, (k - 1) as nat);
        lemma_level_depth(m, (k - 1) as nat);
        lemma_children_members(m, prev);
        lemma_children_no_duplicates(m, prev);
        assert forall|x: Seq<char>| #[trigger] sync_level(m, k).contains(x) <==> sync_depth(m, x, k) by {
            if sync_depth(m, x, k) {
                let p = parent_of(m, x)->0;
                assert(prev.contains(p));
            }
            if sync_level(m, k).contains(x) {
                let p = parent_of(m, x)->0;
                assert(prev.contains(p));
                assert(sync_depth(m, p, (k - 1) as nat));
                if (k - 1) as nat == 0 {
                    assert(m.contains_key(p));
                }
            }
        }
    }
}

/// A branch hangs below a root at one depth only.
pub proof fn lemma_depth_unique(m: BranchMap, x: Seq<char>, a: nat, b: nat)
    requires
        sync_depth(m, x, a),
        sync_depth(m, x, b),
    ensures
        a == b,
    decreases a,
{
    if a > 0 && b > 0 {
        let p = parent_of(m, x)->0;
        lemma_depth_unique(m, p, (a - 1) as nat, (b - 1) as nat);
    }
}

proof fn lemma_depth_up(m: BranchMap, x: Seq<char>, d: nat, i: nat)
    requires
        sync_depth(m, x, d),
        i <= d,
    ensures
        sync_depth(m, up_n(m, x, i), (d - i) as nat),
        m.contains_key(up_n(m, x, i)),
    decreases i,
{
    if i > 0 {
        let p = parent_of(m, x)->0;
        lemma_depth_up(m, p, (d - 1) as nat, (i - 1) as nat);
    } else if d == 0 {
    }
}

/// A branch hangs fewer parents below a root than there are branches.
pub proof fn lemma_depth_bound(m: BranchMap, x: Seq<char>, d: nat)
    requires
        m.dom().finite(),
        sync_depth(m, x, d),
    ensures
        d < m.dom().len(),
{
    let chain = Seq::new(d + 1, |i: int| up_n(m, x, i as nat));
    assert forall|i: int| 0 <= i < chain.len() implies sync_depth(m, #[trigger] chain[i], (d - i) as nat) && m.contains_key(chain[i]) by {
        lemma_depth_up(m, x, d, i as nat);
    }
    assert forall|i: int, j: int| 0 <= i < chain.len() && 0 <= j < chain.len() && i != j implies chain[i] != chain[j] by {
        if chain[i] == chain[j] {
            lemma_depth_unique(m, chain[i], (d - i) as nat, (d - j) as nat);
        }
    }
    assert forall|y: Seq<char>| chain.to_set().contains(y) implies #[trigger] m.dom().contains(y) by {
        let i = choose|i: int| 0 <= i < chain.len() && chain[i] == y;
    }
    lemma_len_subset(chain.to_set(), m.dom());
    chain.unique_seq_to_set();
}

proof fn lemma_order_members(m: BranchMap, k: nat, fuel: nat)
    requires
        m.dom().finite(),
    ensures
        forall|x: Seq<char>| #[trigger] order_from(m, sync_level(m, k), fuel).contains(x) <==> exists|i: nat|
            k <= i < k + fuel && sync_depth(m, x, i),
        order_from(m, sync_level(m, k), fuel).no_duplicates(),
    decreases fuel,
{
    if fuel > 0 {
        lemma_order_members(m, k + 1, (fuel - 1) as nat);
        lemma_level_depth(m, k);
        let a = sync_level(m, k);
        let b = order_from(m, sync_level(m, k + 1), (fuel - 1) as nat);
        assert(sync_level(m, k + 1) == children_of_level(m, a));
        assert(order_from(m, a, fuel) == a + b);
        assert forall|x: Seq<char>| #[trigger] order_from(m, sync_level(m, k), fuel).contains(x) <==> exists|i: nat|
            k <= i < k + fuel && sync_depth(m, x, i) by {
            let c = a + b;
            if c.contains(x) {
                let q = choose|q: int| 0 <= q < c.len() && c[q] == x;
                if q < a.len() {
                    assert(a[q] == x);
                    assert(a.contains(x));
                    assert(sync_depth(m, x, k));
                } else {
                    assert(b[q - a.len()] == x);
                    assert(b.contains(x));
                }
            }
            if exists|i: nat| k <= i < k + fuel && sync_depth(m, x, i) {
                let i = choose|i: nat| k <= i < k + fuel && sync_depth(m, x, i);
                if i == k {
                    assert(a.contains(x));
                    let q = choose|q: int| 0 <= q < a.len() && a[q] == x;
                    assert(c[q] == x);
                } else {
                    assert(b.contains(x));
                    let q = choose|q: int| 0 <= q < b.len() && b[q] == x;
                    assert(c[a.len() + q] == x);
                }
            }
        }
        assert forall|i: int, j: int| 0 <= i < a.len() && 0 <= j < b.len() implies a[i] != b[j] by {
            assert(a.contains(a[i]));
            assert(b.contains(b[j]));
            if a[i] == b[j] {
                let e = choose|e: nat| k + 1 <= e < k + 1 + (fuel - 1) && sync_depth(m, b[j], e);
                lemma_depth_unique(m, a[i], k, e);
            }
        }
        lemma_no_dup_in_concat(a, b);
    } else {
        assert forall|x: Seq<char>| #[trigger] order_from(m, sync_level(m, k), fuel).contains(x) implies false by {}
    }
}

/// Every position whose branch has a tracked parent is preceded by the parent.
pub open spec fn parents_first(m: BranchMap, s: Seq<Seq<char>>) -> bool {
    forall|i: int|
        0 <= i < s.len() && (#[trigger] parent_of(m, s[i])) is Some && m.contains_key(parent_of(m, s[i])->0)
            ==> exists|j: int| 0 <= j < i && s[j] == parent_of(m, s[i])->0
}

proof fn lemma_parents_first_from(m: BranchMap, prefix: Seq<Seq<char>>, k: nat, fuel: nat)
    requires
        m.dom().finite(),
        parents_first(m, prefix),
        forall|x: Seq<char>|
            #[trigger] sync_level(m, k).contains(x) && parent_of(m, x) is Some && m.contains_key(parent_of(m, x)->0)
                ==> prefix.contains(parent_of(m, x)->0),
    ensures
        parents_first(m, prefix + order_from(m, sync_level(m, k), fuel)),
    decreases fuel,
{
    if fuel == 0 {
        assert(prefix + order_from(m, sync_level(m, k), fuel) =~= prefix);
    } else {
        let a = sync_level(m, k);
        let p2 = prefix + a;
        assert forall|i: int|
            0 <= i < p2.len() && (#[trigger] parent_of(m, p2[i])) is Some && m.contains_key(parent_of(m, p2[i])->0)
                implies exists|j: int| 0 <= j < i && p2[j] == parent_of(m, p2[i])->0 by {
            if i < prefix.len() {
                assert(p2[i] == prefix[i]);
                let j = choose|j: int| 0 <= j < i && prefix[j] == parent_of(m, prefix[i])->0;
                assert(p2[j] == prefix[j]);
            } else {
                assert(a[i - prefix.len()] == p2[i]);
                assert(a.contains(p2[i]));
                let j = choose|j: int| 0 <= j < prefix.len() && prefix[j] == parent_of(m, p2[i])->0;
                assert(p2[j] == prefix[j]);
            }
        }
        lemma_children_members(m, a);
        assert forall|x: Seq<char>|
            #[trigger] sync_level(m, k + 1).contains(x) && parent_of(m, x) is Some && m.contains_key(parent_of(m, x)->0)
                implies p2.contains(parent_of(m, x)->0) by {
            assert(sync_level(m, k + 1) == children_of_level(m, a));
            let q = choose|q: int| 0 <= q < a.len() && a[q] == parent_of(m, x)->0;
            assert(p2[prefix.len() + q] == a[q]);
        }
        lemma_parents_first_from(m, p2, k + 1, (fuel - 1) as nat);
        assert(prefix + order_from(m, a, fuel) =~= p2 + order_from(m, sync_level(m, k + 1), (fuel - 1) as nat));
    }
}

/// The sync order lists no branch twice.
pub proof fn lemma_sync_order_no_duplicates(m: BranchMap)
    requires
        m.dom().finite(),
    ensures
        sync_order(m).no_duplicates(),
{
    lemma_order_members(m, 0, m.dom().len());
}

/// The sync order lists exactly the branches that hang below a sync root:
/// a branch is synced when following its tracked parents, through named
/// branches, leads to a named branch without a tracked parent.
pub proof fn lemma_sync_order_members(m: BranchMap, x: Seq<char>)
    requires
        m.dom().finite(),
    ensures
        sync_order(m).contains(x) <==> exists|d: nat| sync_depth(m, x, d),
{
    lemma_order_members(m, 0, m.dom().len());
    if exists|d: nat| sync_depth(m, x, d) {
        let d = choose|d: nat| sync_depth(m, x, d);
        lemma_depth_bound(m, x, d);
    }
}

/// In the sync order, every branch whose parent is tracked comes after that
/// parent.
pub proof fn lemma_sync_order_parents_first(m: BranchMap)
    requires
        m.dom().finite(),
    ensures
        parents_first(m, sync_order(m)),
{
    lemma_level_depth(m, 0);
    assert forall|x: Seq<char>|
        #[trigger] sync_level(m, 0).contains(x) && parent_of(m, x) is Some && m.contains_key(parent_of(m, x)->0)
            implies Seq::<Seq<char>>::empty().contains(parent_of(m, x)->0) by {
        assert(sync_depth(m, x, 0));
    }
    lemma_parents_first_from(m, seq![], 0, m.dom().len());
    assert(Seq::<Seq<char>>::empty() + sync_order(m) =~= sync_order(m));
}

} // verus!
