//! What each line of `av stack tree` says of its branch.
use vstd::prelude::*;

use crate::commands::stack::{display_roots, forest_lines, node_lines, tree_lines, TreeLineView};
use crate::meta::types::{lemma_branch_map_dom, MetadataState};
use crate::utils::stack_utils::{child_set, BranchMap};
use crate::utils::text::{lemma_sorted_listing_exists, sorted_names};

verus! {

/// Each line of `ls` that names a branch (rather than noting a cycle) names
/// a tracked branch, carries that branch's pull request number when it has
/// one and none otherwise, and is marked exactly when its branch is
/// `current`.
pub open spec fn lines_describe_branches(m: BranchMap, current: Option<Seq<char>>, ls: Seq<TreeLineView>) -> bool {
    forall|i: int|
        0 <= i < ls.len() && !(#[trigger] ls[i]).cycle ==> {
            &&& m.contains_key(ls[i].name)
            &&& ls[i].pr_number == match m[ls[i].name].pull_request {
                Some(pr) => Some(pr.number),
                None => None::<i64>,
            }
            &&& ls[i].is_current == (current == Some(ls[i].name))
        }
}

proof fn lemma_concat_describes(m: BranchMap, current: Option<Seq<char>>, a: Seq<TreeLineView>, b: Seq<TreeLineView>)
    requires
        lines_describe_branches(m, current, a),
        lines_describe_branches(m, current, b),
    ensures
        lines_describe_branches(m, current, a + b),
{
    let c = a + b;
    assert forall|i: int| 0 <= i < c.len() && !(#[trigger] c[i]).cycle implies {
        &&& m.contains_key(c[i].name)
        &&& c[i].pr_number == match m[c[i].name].pull_request {
            Some(pr) => Some(pr.number),
            None => None::<i64>,
        }
        &&& c[i].is_current == (current == Some(c[i].name))
    } by {
        if i < a.len() {
            assert(c[i] == a[i]);
        } else {
            assert(c[i] == b[i - a.len()]);
        }
    }
}

proof fn lemma_node_describes(
    m: BranchMap,
    current: Option<Seq<char>>,
    x: Seq<char>,
    indent: nat,
    path: Seq<Seq<char>>,
    fuel: nat,
)
    requires
        m.dom().finite(),
        m.contains_key(x),
    ensures
        lines_describe_branches(m, current, node_lines(m, current, x, indent, path, fuel)),
    decreases fuel, 0nat,
{
    let ls = node_lines(m, current, x, indent, path, fuel);
    if fuel == 0 {
    } else if path.contains(x) {
        assert(ls[1].cycle);
    } else {
        let kids = sorted_names(child_set(m, x, true));
        assert(child_set(m, x, true).subset_of(m.dom()));
        vstd::set_lib::lemma_set_subset_finite(m.dom(), child_set(m, x, true));
        lemma_sorted_listing_exists(child_set(m, x, true));
        assert forall|i: int| 0 <= i < kids.len() implies m.contains_key(#[trigger] kids[i]) by {
            assert(kids.contains(kids[i]));
            assert(child_set(m, x, true).contains(kids[i]));
        }
        lemma_forest_describes(m, current, kids, indent + 1, path.push(x), (fuel - 1) as nat);
        let head = seq![crate::commands::stack::name_line(m, current, x, indent)];
        assert(lines_describe_branches(m, current, head));
        lemma_concat_describes(
            m,
            current,
            head,
            forest_lines(m, current, kids, indent + 1, path.push(x), (fuel - 1) as nat),
        );
    }
}

proof fn lemma_forest_describes(
    m: BranchMap,
    current: Option<Seq<char>>,
    xs: Seq<Seq<char>>,
    indent: nat,
    path: Seq<Seq<char>>,
    fuel: nat,
)
    requires
        m.dom().finite(),
        forall|i: int| 0 <= i < xs.len() ==> m.contains_key(#[trigger] xs[i]),
    ensures
        lines_describe_branches(m, current, forest_lines(m, current, xs, indent, path, fuel)),
    decreases fuel, xs.len() + 1,
{
    if xs.len() > 0 {
        let init = xs.drop_last();
        assert forall|i: int| 0 <= i < init.len() implies m.contains_key(#[trigger] init[i]) by {
            assert(init[i] == xs[i]);
        }
        lemma_forest_describes(m, current, init, indent, path, fuel);
        lemma_node_describes(m, current, xs.last(), indent, path, fuel);
        lemma_concat_describes(
            m,
            current,
            forest_lines(m, current, init, indent, path, fuel),
            node_lines(m, current, xs.last(), indent, path, fuel),
        );
    }
}

/// Every line of `av stack tree` that names a branch names a tracked branch,
/// shows that branch's pull request number exactly when it has a pull
/// request, whether or not it is the branch checked out, and is marked
/// exactly when it is the branch checked out.
pub proof fn lemma_tree_lines_describe_branches(
    state: MetadataState,
    trunks: Seq<Seq<char>>,
    current: Option<Seq<char>>,
)
    requires
        state.wf(),
    ensures
        lines_describe_branches(state@.branches, current, tree_lines(state@.branches, trunks, current)),
{
    let m = state@.branches;
    lemma_branch_map_dom(state.branches@);
    let roots = display_roots(m, trunks);
    assert(roots.subset_of(m.dom()));
    vstd::set_lib::lemma_set_subset_finite(m.dom(), roots);
    lemma_sorted_listing_exists(roots);
    let xs = sorted_names(roots);
    assert forall|i: int| 0 <= i < xs.len() implies m.contains_key(#[trigger] xs[i]) by {
        assert(xs.contains(xs[i]));
        assert(roots.contains(xs[i]));
    }
    lemma_forest_describes(m, current, xs, 0, seq![], m.dom().len() + 1);
}

} // verus!
