//! The shape of stacks: parents, children, the walk up to a stack's root and
//! the branches that descend from it.
use vstd::prelude::*;
use vstd::set_lib::lemma_len_subset;
use vstd::string::*;

use crate::meta::types::{
    branch_map, branch_names, has_name, keyed_by_name, lemma_branch_map_dom, lemma_branch_map_entry,
    name_index, BranchMeta, MetadataState,
};
use crate::utils::text::{contains_text, insert_sorted, opt_text, same_text, sorted_listing, strictly_sorted, texts};

verus! {

/// The map of tracked branches, by name.
pub type BranchMap = Map<Seq<char>, BranchMeta>;

/// The recorded parent of the tracked branch `k`.
pub open spec fn parent_of(m: BranchMap, k: Seq<char>) -> Option<Seq<char>> {
    if m.contains_key(k) {
        opt_text(m[k].parent_branch)
    } else {
        None
    }
}

/// One step up a stack: the parent of `k`, when that parent is tracked and is
/// not a trunk branch.
pub open spec fn up_step(m: BranchMap, trunks: Seq<Seq<char>>, k: Seq<char>) -> Option<Seq<char>> {
    match parent_of(m, k) {
        Some(p) => if m.contains_key(p) && !trunks.contains(p) {
            Some(p)
        } else {
            None
        },
        None => None,
    }
}

/// Where `n` steps up from `k` lead, if the walk lasts that long.
pub open spec fn ancestor_at(m: BranchMap, trunks: Seq<Seq<char>>, k: Seq<char>, n: nat) -> Option<
    Seq<char>,
>
    decreases n,
{
    if n == 0 {
        Some(k)
    } else {
        match ancestor_at(m, trunks, k, (n - 1) as nat) {
            Some(a) => up_step(m, trunks, a),
            None => None,
        }
    }
}

/// The walk up from `k` stops: some branch on it has no tracked, non-trunk parent.
pub open spec fn walk_ends(m: BranchMap, trunks: Seq<Seq<char>>, k: Seq<char>) -> bool {
    exists|n: nat| #[trigger] ancestor_at(m, trunks, k, n) is None
}

/// `d` is the number of steps from `k` to the top of its stack.
pub open spec fn is_depth(m: BranchMap, trunks: Seq<Seq<char>>, k: Seq<char>, d: nat) -> bool {
    ancestor_at(m, trunks, k, d) is Some && ancestor_at(m, trunks, k, d + 1) is None
}

/// The root of the stack of `k`: the last branch of the walk up from `k`.
pub open spec fn stack_root(m: BranchMap, trunks: Seq<Seq<char>>, k: Seq<char>) -> Seq<char> {
    let d = choose|d: nat| is_depth(m, trunks, k, d);
    ancestor_at(m, trunks, k, d)->0
}

/// `n` parent links lead from `x` to `r`, each through a tracked branch.
pub open spec fn links_to(m: BranchMap, x: Seq<char>, r: Seq<char>, n: nat) -> bool
    decreases n,
{
    if n == 0 {
        x == r
    } else {
        match parent_of(m, x) {
            Some(p) => links_to(m, p, r, (n - 1) as nat),
            None => false,
        }
    }
}

/// `x` is `r` or descends from `r` through recorded parents.
pub open spec fn descends_from(m: BranchMap, x: Seq<char>, r: Seq<char>) -> bool {
    exists|n: nat| #[trigger] links_to(m, x, r, n)
}

/// The branches of the stack that `k` belongs to, as `--current-stack` takes
/// it: `k`, the branches met walking up from it through tracked, non-trunk
/// parents, and every branch that descends from `k`. Siblings of `k` and of
/// its ancestors, and what descends from them, are left out. Empty when `k`
/// is not tracked.
pub open spec fn current_stack(m: BranchMap, trunks: Seq<Seq<char>>, k: Seq<char>) -> Set<Seq<char>> {
    if m.contains_key(k) {
        Set::new(
            |x: Seq<char>|
                (exists|n: nat| #[trigger] ancestor_at(m, trunks, k, n) == Some(x)) || descends_from(m, x, k),
        )
    } else {
        Set::empty()
    }
}

/// The branches whose recorded parent is `p`, optionally without the unnamed one.
pub open spec fn child_set(m: BranchMap, p: Seq<char>, include_unnamed: bool) -> Set<Seq<char>> {
    Set::new(
        |k: Seq<char>|
            m.contains_key(k) && opt_text(m[k].parent_branch) == Some(p) && (include_unnamed || k.len()
                > 0),
    )
}

pub proof fn lemma_ancestor_none_stays(m: BranchMap, trunks: Seq<Seq<char>>, k: Seq<char>, a: nat, b: nat)
    requires
        a <= b,
        ancestor_at(m, trunks, k, a) is None,
    ensures
        ancestor_at(m, trunks, k, b) is None,
    decreases b - a,
{
    if a < b {
        lemma_ancestor_none_stays(m, trunks, k, a, (b - 1) as nat);
    }
}

pub proof fn lemma_depth_unique(m: BranchMap, trunks: Seq<Seq<char>>, k: Seq<char>, d1: nat, d2: nat)
    requires
        is_depth(m, trunks, k, d1),
        is_depth(m, trunks, k, d2),
    ensures
        d1 == d2,
{
    if d1 < d2 {
        lemma_ancestor_none_stays(m, trunks, k, d1 + 1, d2);
    } else if d2 < d1 {
        lemma_ancestor_none_stays(m, trunks, k, d2 + 1, d1);
    }
}

/// A walk that ends has a depth.
pub proof fn lemma_depth_exists(m: BranchMap, trunks: Seq<Seq<char>>, k: Seq<char>)
    requires
        walk_ends(m, trunks, k),
    ensures
        exists|d: nat| is_depth(m, trunks, k, d),
{
    let n = choose|n: nat| #[trigger] ancestor_at(m, trunks, k, n) is None;
    lemma_depth_exists_below(m, trunks, k, n);
}

proof fn lemma_depth_exists_below(m: BranchMap, trunks: Seq<Seq<char>>, k: Seq<char>, n: nat)
    requires
        ancestor_at(m, trunks, k, n) is None,
    ensures
        exists|d: nat| is_depth(m, trunks, k, d),
    decreases n,
{
    if n == 0 {
        assert(false);
    } else if ancestor_at(m, trunks, k, (n - 1) as nat) is Some {
        assert(is_depth(m, trunks, k, (n - 1) as nat));
    } else {
        lemma_depth_exists_below(m, trunks, k, (n - 1) as nat);
    }
}

/// The walk up from a stack's root ends at once.
pub proof fn lemma_root_walk_ends(m: BranchMap, trunks: Seq<Seq<char>>, k: Seq<char>)
    requires
        walk_ends(m, trunks, k),
    ensures
        walk_ends(m, trunks, stack_root(m, trunks, k)),
        stack_root(m, trunks, stack_root(m, trunks, k)) == stack_root(m, trunks, k),
{
    lemma_depth_exists(m, trunks, k);
    let d = choose|d: nat| is_depth(m, trunks, k, d);
    let r = stack_root(m, trunks, k);
    assert(ancestor_at(m, trunks, k, d) == Some(r));
    assert(up_step(m, trunks, r) is None);
    assert(ancestor_at(m, trunks, r, 0) == Some(r));
    assert(ancestor_at(m, trunks, r, 1) is None);
    assert(is_depth(m, trunks, r, 0));
    let d2 = choose|d: nat| is_depth(m, trunks, r, d);
    lemma_depth_unique(m, trunks, r, 0, d2);
}

/// If the walk visits one branch twice it goes on forever.
proof fn lemma_repeat_shift(m: BranchMap, trunks: Seq<Seq<char>>, k: Seq<char>, i: nat, j: nat, t: nat)
    requires
        i < j,
        ancestor_at(m, trunks, k, i) is Some,
        ancestor_at(m, trunks, k, i) == ancestor_at(m, trunks, k, j),
    ensures
        ancestor_at(m, trunks, k, i + t) == ancestor_at(m, trunks, k, j + t),
    decreases t,
{
    if t > 0 {
        lemma_repeat_shift(m, trunks, k, i, j, (t - 1) as nat);
        assert(ancestor_at(m, trunks, k, i + t) == match ancestor_at(m, trunks, k, (i + t - 1) as nat) {
            Some(a) => up_step(m, trunks, a),
            None => None,
        });
        assert(ancestor_at(m, trunks, k, j + t) == match ancestor_at(m, trunks, k, (j + t - 1) as nat) {
            Some(a) => up_step(m, trunks, a),
            None => None,
        });
    }
}

pub proof fn lemma_repeat_never_ends(m: BranchMap, trunks: Seq<Seq<char>>, k: Seq<char>, i: nat, j: nat, n: nat)
    requires
        i < j,
        forall|q: nat| q <= j ==> #[trigger] ancestor_at(m, trunks, k, q) is Some,
        ancestor_at(m, trunks, k, i) == ancestor_at(m, trunks, k, j),
    ensures
        ancestor_at(m, trunks, k, n) is Some,
    decreases n,
{
    if n > j {
        let back = (n - (j - i)) as nat;
        lemma_repeat_never_ends(m, trunks, k, i, j, back);
        lemma_repeat_shift(m, trunks, k, i, j, (n - j) as nat);
        assert(i + (n - j) == back);
    } else {
        assert(ancestor_at(m, trunks, k, n) is Some);
    }
}

/// When the walk comes back at step `j` to where it was at step `i`, every
/// branch it ever visits is visited before step `j`.
pub proof fn lemma_cycle_within(m: BranchMap, trunks: Seq<Seq<char>>, k: Seq<char>, i: nat, j: nat, n: nat)
    requires
        i < j,
        ancestor_at(m, trunks, k, i) is Some,
        ancestor_at(m, trunks, k, i) == ancestor_at(m, trunks, k, j),
    ensures
        exists|q: nat| q < j && ancestor_at(m, trunks, k, q) == ancestor_at(m, trunks, k, n),
    decreases n,
{
    if n < j {
        assert(ancestor_at(m, trunks, k, n) == ancestor_at(m, trunks, k, n));
    } else {
        let back = (n - (j - i)) as nat;
        lemma_repeat_shift(m, trunks, k, i, j, (n - j) as nat);
        assert(i + (n - j) == back);
        lemma_cycle_within(m, trunks, k, i, j, back);
    }
}

/// Every branch that the walk visits after its start is tracked.
pub proof fn lemma_ancestor_tracked(m: BranchMap, trunks: Seq<Seq<char>>, k: Seq<char>, n: nat)
    requires
        n > 0,
        ancestor_at(m, trunks, k, n) is Some,
    ensures
        m.contains_key(ancestor_at(m, trunks, k, n)->0),
{
    let prev = ancestor_at(m, trunks, k, (n - 1) as nat);
    assert(prev is Some);
}

/// Pigeonhole: a walk that lasts `|dom|` steps from a tracked branch goes on
/// forever.
pub proof fn lemma_long_walk_never_ends(m: BranchMap, trunks: Seq<Seq<char>>, k: Seq<char>)
    requires
        m.dom().finite(),
        m.contains_key(k),
        ancestor_at(m, trunks, k, m.dom().len()) is Some,
    ensures
        !walk_ends(m, trunks, k),
{
    let n = m.dom().len();
    assert forall|q: nat| q <= n implies #[trigger] ancestor_at(m, trunks, k, q) is Some by {
        if ancestor_at(m, trunks, k, q) is None {
            lemma_ancestor_none_stays(m, trunks, k, q, n);
        }
    }
    let s = Seq::new((n + 1) as nat, |q: int| ancestor_at(m, trunks, k, q as nat)->0);
    assert forall|x: Seq<char>| s.to_set().contains(x) implies #[trigger] m.dom().contains(x) by {
        let q = choose|q: int| 0 <= q < s.len() && s[q] == x;
        if q > 0 {
            lemma_ancestor_tracked(m, trunks, k, q as nat);
        }
    }
    lemma_len_subset(s.to_set(), m.dom());
    if s.no_duplicates() {
        s.unique_seq_to_set();
        assert(false);
    }
    let (i, j) = choose|i: int, j: int| 0 <= i < s.len() && 0 <= j < s.len() && i != j && s[i] == s[j];
    let (lo, hi) = if i < j { (i, j) } else { (j, i) };
    assert(ancestor_at(m, trunks, k, lo as nat) == ancestor_at(m, trunks, k, hi as nat));
    assert forall|t: nat| !(#[trigger] ancestor_at(m, trunks, k, t) is None) by {
        lemma_repeat_never_ends(m, trunks, k, lo as nat, hi as nat, t);
    }
}

/// Whether `name` is one of the trunk branches.
pub fn is_trunk(trunk_branches: &Vec<String>, name: &str) -> (r: bool)
    ensures
        r == texts(trunk_branches@).contains(name@),
{
    contains_text(trunk_branches, name)
}

/// One step up from `name`: its parent when that parent is tracked and not a trunk.
pub fn step_up(all_meta: &MetadataState, trunk_branches: &Vec<String>, name: &str) -> (r: Option<String>)
    requires
        all_meta.wf(),
    ensures
        opt_text(r) == up_step(all_meta@.branches, texts(trunk_branches@), name@),
{
    match all_meta.branch(name) {
        Some(meta) => match &meta.parent_branch {
            Some(p) => {
                if all_meta.branch(p.as_str()).is_some() && !is_trunk(trunk_branches, p.as_str()) {
                    Some(p.clone())
                } else {
                    None
                }
            },
            None => None,
        },
        None => None,
    }
}

/// Whether the walk up from `name` ends; it goes on forever only where
/// recorded parents form a cycle of tracked, non-trunk branches.
pub fn ancestry_ends(all_meta: &MetadataState, trunk_branches: &Vec<String>, name: &str) -> (r: bool)
    requires
        all_meta.wf(),
    ensures
        r == walk_ends(all_meta@.branches, texts(trunk_branches@), name@),
{
    let ghost m = all_meta@.branches;
    let ghost t = texts(trunk_branches@);
    proof {
        lemma_branch_map_dom(all_meta.branches@);
    }
    if all_meta.branch(name).is_none() {
        assert(ancestor_at(m, t, name@, 0) == Some(name@));
        assert(ancestor_at(m, t, name@, 1) is None);
        return true;
    }
    let n = all_meta.branches.len();
    let mut cur = String::from_str(name);
    let mut steps: usize = 0;
    while steps < n
        invariant
            n == m.dom().len(),
            m.dom().finite(),
            m.contains_key(name@),
            steps <= n,
            ancestor_at(m, t, name@, steps as nat) == Some(cur@),
            all_meta.wf(),
            m == all_meta@.branches,
            t == texts(trunk_branches@),
        decreases n - steps,
    {
        match step_up(all_meta, trunk_branches, cur.as_str()) {
            Some(p) => {
                cur = p;
            },
            None => {
                assert(ancestor_at(m, t, name@, (steps + 1) as nat) is None);
                return true;
            },
        }
        steps = steps + 1;
    }
    proof {
        lemma_long_walk_never_ends(m, t, name@);
    }
    false
}

/// The root of the stack that `name` belongs to.
pub fn find_stack_root(all_meta: &MetadataState, trunk_branches: &Vec<String>, name: &str) -> (r: String)
    requires
        all_meta.wf(),
        walk_ends(all_meta@.branches, texts(trunk_branches@), name@),
    ensures
        r@ == stack_root(all_meta@.branches, texts(trunk_branches@), name@),
        all_meta@.branches.contains_key(name@) ==> all_meta@.branches.contains_key(r@),
{
    let ghost m = all_meta@.branches;
    let ghost t = texts(trunk_branches@);
    proof {
        lemma_depth_exists(m, t, name@);
    }
    let ghost d = choose|d: nat| is_depth(m, t, name@, d);
    let mut cur = String::from_str(name);
    let mut steps: usize = 0;
    let ghost mut gsteps: nat = 0;
    loop
        invariant
            ancestor_at(m, t, name@, gsteps) == Some(cur@),
            gsteps <= d,
            is_depth(m, t, name@, d),
            all_meta.wf(),
            m == all_meta@.branches,
            t == texts(trunk_branches@),
        decreases d - gsteps,
    {
        match step_up(all_meta, trunk_branches, cur.as_str()) {
            Some(p) => {
                cur = p;
                proof {
                    if gsteps == d {
                        assert(ancestor_at(m, t, name@, d + 1) is Some);
                    }
                    gsteps = gsteps + 1;
                }
            },
            None => {
                proof {
                    assert(is_depth(m, t, name@, gsteps));
                    let d2 = choose|d: nat| is_depth(m, t, name@, d);
                    assert(is_depth(m, t, name@, d2));
                    lemma_depth_unique(m, t, name@, gsteps, d2);
                    if gsteps > 0 {
                        lemma_ancestor_tracked(m, t, name@, gsteps);
                    }
                }
                return cur;
            },
        }
    }
}

/// The names of the branches whose recorded parent is `parent`, in increasing
/// order; the unnamed branch only when `include_unnamed`.
pub fn sorted_children(all_meta: &MetadataState, parent: &str, include_unnamed: bool) -> (r: Vec<String>)
    requires
        all_meta.wf(),
    ensures
        sorted_listing(texts(r@), child_set(all_meta@.branches, parent@, include_unnamed)),
{
    let ghost v = all_meta.branches@;
    let ghost m = all_meta@.branches;
    let mut out: Vec<String> = Vec::new();
    let mut i: usize = 0;
    while i < all_meta.branches.len()
        invariant
            v == all_meta.branches@,
            m == branch_map(v),
            all_meta.wf(),
            i <= v.len(),
            strictly_sorted(texts(out@)),
            forall|x: Seq<char>| #[trigger] texts(out@).contains(x) <==> (child_set(m, parent@, include_unnamed).contains(x)
                && exists|j: int| 0 <= j < i && v[j].name@ == x),
        decreases v.len() - i,
    {
        let b = &all_meta.branches[i];
        proof {
            lemma_branch_map_entry(v, i as int);
        }
        let is_child = match &b.parent_branch {
            Some(p) => same_text(p.as_str(), parent),
            None => false,
        };
        if is_child && (include_unnamed || b.name.as_str().unicode_len() > 0) {
            proof {
                if texts(out@).contains(b.name@) {
                    let j = choose|j: int| 0 <= j < i && v[j].name@ == b.name@;
                    assert(v[j].name@ == v[i as int].name@);
                }
            }
            insert_sorted(&mut out, b.name.clone());
        }
        proof {
            assert forall|x: Seq<char>| #[trigger] texts(out@).contains(x) <==> (child_set(m, parent@, include_unnamed).contains(x)
                && exists|j: int| 0 <= j < i + 1 && v[j].name@ == x) by {
                if x == v[i as int].name@ {
                    assert(v[i as int].name@ == x);
                }
                if exists|j: int| 0 <= j < i + 1 && v[j].name@ == x {
                    let j = choose|j: int| 0 <= j < i + 1 && v[j].name@ == x;
                    if j < i {
                        assert(exists|j: int| 0 <= j < i && v[j].name@ == x);
                    }
                }
            }
        }
        i = i + 1;
    }
    proof {
        assert forall|x: Seq<char>| #[trigger] child_set(m, parent@, include_unnamed).contains(x) implies texts(out@).contains(x) by {
            let j = name_index(v, x);
            assert(v[j].name@ == x);
        }
    }
    out
}

/// Every branch that `n` links lead from to `root` is among `members`, when
/// `root` is and every member's children are.
proof fn lemma_closed_holds_descendants(m: BranchMap, members: Seq<Seq<char>>, root: Seq<char>, x: Seq<char>, n: nat)
    requires
        members.contains(root),
        forall|q: int, c: Seq<char>|
            0 <= q < members.len() && m.contains_key(c) && parent_of(m, c) == Some(#[trigger] members[q])
                ==> #[trigger] members.contains(c),
        links_to(m, x, root, n),
    ensures
        members.contains(x),
    decreases n,
{
    if n > 0 {
        let p = parent_of(m, x)->0;
        lemma_closed_holds_descendants(m, members, root, p, (n - 1) as nat);
        let q = choose|q: int| 0 <= q < members.len() && members[q] == p;
        assert(m.contains_key(x));
        assert(parent_of(m, x) == Some(members[q]));
    }
}

/// The names of `root` and of every branch that descends from it.
pub fn descendants(all_meta: &MetadataState, root: &str) -> (r: Vec<String>)
    requires
        all_meta.wf(),
        all_meta@.branches.contains_key(root@),
    ensures
        texts(r@).no_duplicates(),
        forall|x: Seq<char>| #[trigger] texts(r@).contains(x) <==> descends_from(all_meta@.branches, x, root@),
{
    let ghost v = all_meta.branches@;
    let ghost m = all_meta@.branches;
    proof {
        lemma_branch_map_dom(v);
    }
    let mut members: Vec<String> = Vec::new();
    members.push(String::from_str(root));
    let mut head: usize = 0;
    proof {
        assert(links_to(m, root@, root@, 0));
        assert(texts(members@)[0] == root@);
    }
    while head < members.len()
        invariant
            v == all_meta.branches@,
            m == branch_map(v),
            all_meta.wf(),
            m.dom().finite(),
            m.dom().len() == v.len(),
            head <= members@.len(),
            texts(members@).no_duplicates(),
            texts(members@).contains(root@),
            forall|x: Seq<char>| #[trigger] texts(members@).contains(x) ==> m.contains_key(x) && descends_from(m, x, root@),
            forall|q: int, c: Seq<char>|
                0 <= q < head && m.contains_key(c) && parent_of(m, c) == Some(#[trigger] texts(members@)[q])
                    ==> #[trigger] texts(members@).contains(c),
        decreases v.len() - head,
    {
        proof {
            assert forall|x: Seq<char>| texts(members@).to_set().contains(x) implies #[trigger] m.dom().contains(x) by {
                assert(texts(members@).contains(x));
            }
            lemma_len_subset(texts(members@).to_set(), m.dom());
            texts(members@).unique_seq_to_set();
        }
        let x = members[head].clone();
        let ghost before = texts(members@);
        let mut i: usize = 0;
        while i < all_meta.branches.len()
            invariant
                v == all_meta.branches@,
                m == branch_map(v),
                all_meta.wf(),
                i <= v.len(),
                head < members@.len(),
                x@ == texts(members@)[head as int],
                texts(members@).no_duplicates(),
                texts(members@).contains(root@),
                forall|q: int| 0 <= q < before.len() ==> texts(members@)[q] == before[q],
                before.len() <= texts(members@).len(),
                forall|y: Seq<char>| #[trigger] texts(members@).contains(y) ==> m.contains_key(y) && descends_from(m, y, root@),
                forall|q: int, c: Seq<char>|
                    0 <= q < head && m.contains_key(c) && parent_of(m, c) == Some(#[trigger] texts(members@)[q])
                        ==> #[trigger] texts(members@).contains(c),
                forall|j: int| 0 <= j < i && parent_of(m, v[j].name@) == Some(x@) ==> #[trigger] texts(members@).contains(v[j].name@),
            decreases v.len() - i,
        {
            let b = &all_meta.branches[i];
            proof {
                lemma_branch_map_entry(v, i as int);
            }
            let is_child = match &b.parent_branch {
                Some(p) => same_text(p.as_str(), x.as_str()),
                None => false,
            };
            if is_child && !contains_text(&members, b.name.as_str()) {
                let ghost prev = texts(members@);
                members.push(b.name.clone());
                proof {
                    let now = texts(members@);
                    assert(now =~= prev.push(b.name@));
                    assert forall|y: Seq<char>| #[trigger] now.contains(y) implies prev.contains(y) || y == b.name@ by {
                        let k = choose|k: int| 0 <= k < now.len() && now[k] == y;
                        if k < prev.len() {
                            assert(prev[k] == y);
                        }
                    }
                    assert forall|y: Seq<char>| #[trigger] prev.contains(y) implies now.contains(y) by {
                        let k = choose|k: int| 0 <= k < prev.len() && prev[k] == y;
                        assert(now[k] == y);
                    }
                    assert(now[now.len() - 1] == b.name@);
                    assert(now.contains(b.name@));
                    assert(prev[head as int] == x@);
                    assert(prev.contains(x@));
                    assert(descends_from(m, x@, root@));
                    let hx = choose|n: nat| #[trigger] links_to(m, x@, root@, n);
                    assert(links_to(m, b.name@, root@, hx + 1));
                    assert forall|a: int, c: int| 0 <= a < c < now.len() implies now[a] != now[c] by {
                        if c == now.len() - 1 {
                            assert(prev.contains(prev[a]));
                        }
                    }
                    assert forall|q: int, c: Seq<char>|
                        0 <= q < head && m.contains_key(c) && parent_of(m, c) == Some(#[trigger] now[q])
                            implies #[trigger] now.contains(c) by {
                        assert(now[q] == prev[q]);
                        assert(prev.contains(c));
                    }
                    assert forall|j: int| 0 <= j < i + 1 && parent_of(m, v[j].name@) == Some(x@) implies #[trigger] now.contains(v[j].name@) by {
                        if j < i {
                            assert(prev.contains(v[j].name@));
                        }
                    }
                }
            } else {
                proof {
                    if is_child {
                        assert(parent_of(m, v[i as int].name@) == Some(x@));
                    }
                }
            }
            i = i + 1;
        }
        proof {
            let now = texts(members@);
            assert forall|q: int, c: Seq<char>|
                0 <= q < head + 1 && m.contains_key(c) && parent_of(m, c) == Some(#[trigger] now[q])
                    implies #[trigger] now.contains(c) by {
                if q == head {
                    let j = name_index(v, c);
                    assert(v[j].name@ == c);
                }
            }
        }
        head = head + 1;
    }
    proof {
        let fin = texts(members@);
        assert forall|x: Seq<char>| descends_from(m, x, root@) implies #[trigger] fin.contains(x) by {
            let n = choose|n: nat| #[trigger] links_to(m, x, root@, n);
            lemma_closed_holds_descendants(m, fin, root@, x, n);
        }
    }
    members
}

/// `current` and the branches met walking up from it through tracked,
/// non-trunk parents, stopping at the first branch met twice.
pub fn stack_ancestors(all_meta: &MetadataState, current: &str, trunk_branches: &Vec<String>) -> (r: Vec<String>)
    requires
        all_meta.wf(),
        all_meta@.branches.contains_key(current@),
    ensures
        texts(r@).no_duplicates(),
        forall|x: Seq<char>| #[trigger] texts(r@).contains(x) <==> exists|n: nat|
            ancestor_at(all_meta@.branches, texts(trunk_branches@), current@, n) == Some(x),
{
    let ghost m = all_meta@.branches;
    let ghost t = texts(trunk_branches@);
    proof {
        lemma_branch_map_dom(all_meta.branches@);
    }
    let mut members: Vec<String> = Vec::new();
    members.push(String::from_str(current));
    let mut cur = String::from_str(current);
    proof {
        assert(ancestor_at(m, t, current@, 0) == Some(current@));
    }
    loop
        invariant
            all_meta.wf(),
            m == all_meta@.branches,
            t == texts(trunk_branches@),
            m.dom().finite(),
            m.dom().len() == all_meta.branches@.len(),
            m.contains_key(current@),
            members@.len() >= 1,
            cur@ == members@[members@.len() - 1]@,
            texts(members@).no_duplicates(),
            forall|i: int| 0 <= i < members@.len() ==> ancestor_at(m, t, current@, i as nat) == Some(#[trigger] members@[i]@),
            forall|x: Seq<char>| #[trigger] texts(members@).contains(x) ==> m.contains_key(x),
        decreases m.dom().len() + 1 - members@.len(),
    {
        proof {
            assert forall|x: Seq<char>| texts(members@).to_set().contains(x) implies #[trigger] m.dom().contains(x) by {
                assert(texts(members@).contains(x));
            }
            lemma_len_subset(texts(members@).to_set(), m.dom());
            texts(members@).unique_seq_to_set();
        }
        let ghost len = members@.len();
        match step_up(all_meta, trunk_branches, cur.as_str()) {
            None => {
                proof {
                    assert(ancestor_at(m, t, current@, len as nat) is None);
                    assert forall|x: Seq<char>| #[trigger] texts(members@).contains(x) <==> exists|n: nat| ancestor_at(m, t, current@, n) == Some(x) by {
                        if texts(members@).contains(x) {
                            let i = choose|i: int| 0 <= i < texts(members@).len() && texts(members@)[i] == x;
                            assert(ancestor_at(m, t, current@, i as nat) == Some(members@[i]@));
                        }
                        if exists|n: nat| ancestor_at(m, t, current@, n) == Some(x) {
                            let n = choose|n: nat| ancestor_at(m, t, current@, n) == Some(x);
                            if n >= len {
                                lemma_ancestor_none_stays(m, t, current@, len as nat, n);
                            }
                            assert(texts(members@)[n as int] == x);
                        }
                    }
                }
                return members;
            },
            Some(p) => {
                if contains_text(&members, p.as_str()) {
                    proof {
                        let j = choose|j: int| 0 <= j < texts(members@).len() && texts(members@)[j] == p@;
                        assert(ancestor_at(m, t, current@, len as nat) == Some(p@));
                        assert(ancestor_at(m, t, current@, j as nat) == Some(p@));
                        assert forall|x: Seq<char>| #[trigger] texts(members@).contains(x) <==> exists|n: nat| ancestor_at(m, t, current@, n) == Some(x) by {
                            if texts(members@).contains(x) {
                                let i = choose|i: int| 0 <= i < texts(members@).len() && texts(members@)[i] == x;
                                assert(ancestor_at(m, t, current@, i as nat) == Some(members@[i]@));
                            }
                            if exists|n: nat| ancestor_at(m, t, current@, n) == Some(x) {
                                let n = choose|n: nat| ancestor_at(m, t, current@, n) == Some(x);
                                lemma_cycle_within(m, t, current@, j as nat, len as nat, n);
                                let k = choose|k: nat| k < len && ancestor_at(m, t, current@, k) == ancestor_at(m, t, current@, n);
                                assert(texts(members@)[k as int] == x);
                            }
                        }
                    }
                    return members;
                }
                let ghost before = members@;
                members.push(p.clone());
                cur = p;
                proof {
                    assert(texts(members@) =~= texts(before).push(cur@));
                    assert(ancestor_at(m, t, current@, len as nat) == Some(cur@));
                    lemma_ancestor_tracked(m, t, current@, len as nat);
                    assert forall|x: Seq<char>| #[trigger] texts(members@).contains(x) implies m.contains_key(x) by {
                        let i = choose|i: int| 0 <= i < texts(members@).len() && texts(members@)[i] == x;
                        if i < len {
                            assert(texts(before)[i] == x);
                            assert(texts(before).contains(x));
                        }
                    }
                    assert forall|a: int, c: int| 0 <= a < c < texts(members@).len() implies texts(members@)[a] != texts(members@)[c] by {
                        if c == len {
                            assert(texts(before).contains(texts(before)[a]));
                        } else {
                            assert(texts(before)[a] != texts(before)[c]);
                        }
                    }
                }
            },
        }
    }
}

/// The names of `a`, then those of `b` that `a` lacks.
fn merge_names(a: Vec<String>, b: &Vec<String>) -> (r: Vec<String>)
    requires
        texts(a@).no_duplicates(),
    ensures
        texts(r@).no_duplicates(),
        forall|x: Seq<char>| #[trigger] texts(r@).contains(x) <==> texts(a@).contains(x) || texts(b@).contains(x),
{
    let ghost ta = texts(a@);
    let mut r = a;
    let mut i: usize = 0;
    while i < b.len()
        invariant
            i <= b@.len(),
            texts(r@).no_duplicates(),
            forall|x: Seq<char>| #[trigger] texts(r@).contains(x) <==> ta.contains(x) || exists|j: int|
                0 <= j < i && b@[j]@ == x,
        decreases b.len() - i,
    {
        let ghost before = texts(r@);
        if !contains_text(&r, b[i].as_str()) {
            r.push(b[i].clone());
            proof {
                assert(texts(r@) =~= before.push(b@[i as int]@));
                assert forall|a: int, c: int| 0 <= a < c < texts(r@).len() implies texts(r@)[a] != texts(r@)[c] by {
                    if c == before.len() {
                        assert(before.contains(before[a]));
                    } else {
                        assert(before[a] != before[c]);
                    }
                }
            }
        }
        proof {
            assert forall|x: Seq<char>| #[trigger] texts(r@).contains(x) <==> ta.contains(x) || exists|j: int|
                0 <= j < i + 1 && b@[j]@ == x by {
                if texts(r@).contains(x) && !before.contains(x) {
                    assert(texts(r@)[before.len() as int] == x);
                    assert(b@[i as int]@ == x);
                }
                if before.contains(x) {
                    let k = choose|k: int| 0 <= k < before.len() && before[k] == x;
                    assert(texts(r@)[k] == x);
                }
                if ta.contains(x) || exists|j: int| 0 <= j < i + 1 && b@[j]@ == x {
                    if ta.contains(x) || exists|j: int| 0 <= j < i && b@[j]@ == x {
                        assert(before.contains(x));
                        let k = choose|k: int| 0 <= k < before.len() && before[k] == x;
                        assert(texts(r@)[k] == x);
                    } else if !before.contains(x) {
                        assert(b@[i as int]@ == x);
                        assert(texts(r@)[before.len() as int] == x);
                    } else {
                        let k = choose|k: int| 0 <= k < before.len() && before[k] == x;
                        assert(texts(r@)[k] == x);
                    }
                }
            }
        }
        i = i + 1;
    }
    proof {
        assert forall|x: Seq<char>| #[trigger] texts(r@).contains(x) <==> ta.contains(x) || texts(b@).contains(x) by {
            if texts(b@).contains(x) {
                let j = choose|j: int| 0 <= j < texts(b@).len() && texts(b@)[j] == x;
                assert(b@[j]@ == x);
            }
            if exists|j: int| 0 <= j < b@.len() && b@[j]@ == x {
                let j = choose|j: int| 0 <= j < b@.len() && b@[j]@ == x;
                assert(texts(b@)[j] == x);
            }
        }
    }
    r
}

/// The branches that `av stack sync --current-stack` syncs: the current
/// branch, the branches met walking up from it through tracked, non-trunk
/// parents, and every branch that descends from it. Empty when the branch is
/// not tracked.
pub fn get_current_stack_branches(
    current_branch_name: &str,
    all_meta: &MetadataState,
    trunk_branches: &Vec<String>,
) -> (r: Vec<String>)
    requires
        all_meta.wf(),
    ensures
        texts(r@).no_duplicates(),
        forall|x: Seq<char>| #[trigger] texts(r@).contains(x) <==> current_stack(
            all_meta@.branches,
            texts(trunk_branches@),
            current_branch_name@,
        ).contains(x),
{
    if all_meta.branch(current_branch_name).is_none() {
        let r: Vec<String> = Vec::new();
        assert(texts(r@) =~= Seq::<Seq<char>>::empty());
        return r;
    }
    let below = descendants(all_meta, current_branch_name);
    let above = stack_ancestors(all_meta, current_branch_name, trunk_branches);
    merge_names(below, &above)
}

} // verus!
