//! Stack-wide decisions: the order in which branches are synced.
use vstd::prelude::*;
use vstd::set_lib::lemma_len_subset;
use vstd::string::*;

use crate::meta::types::{
    branch_map, has_name, keyed_by_name, lemma_branch_map_dom, lemma_branch_map_entry, name_index,
    BranchMeta, MetadataState,
};
use crate::gh::types::PullRequestState;
use crate::utils::decimal::{decimal_text, signed_decimal};
use crate::utils::search::{find_from, first_occurrence_from, occurs_at, occurs_from};
use crate::utils::stack_utils::{
    ancestor_at, child_set, is_trunk, lemma_ancestor_none_stays, lemma_ancestor_tracked, lemma_cycle_within,
    parent_of, sorted_children, stack_ancestors, step_up, BranchMap,
};
use crate::utils::text::{
    chars_of, contains_text, insert_sorted, lemma_sorted_names, opt_text, same_text, sorted_listing, sorted_names,
    strictly_sorted, texts,
};

verus! {

pub struct StackOpts {
    pub command: StackCommand,
}

pub enum StackCommand {
    /// Display the stack tree.
    Tree(StackTreeOpts),
    /// Synchronize branches with their parents, the remote and pull requests.
    Sync(StackSyncOpts),
    /// Open pull requests for the stack.
    Submit(StackSubmitOpts),
}

pub struct StackTreeOpts {}

pub struct StackSyncOpts {
    pub no_fetch: bool,
    pub prune: bool,
    pub rebase: bool,
    pub push: bool,
    pub prune_merged: bool,
    pub current_stack: bool,
}

pub struct StackSubmitOpts {
    pub draft: bool,
    pub current: bool,
}

/// A branch where syncing starts: it has a name, is tracked, and has no
/// tracked parent.
pub open spec fn is_sync_root(m: BranchMap, k: Seq<char>) -> bool {
    &&& m.contains_key(k)
    &&& k.len() > 0
    &&& !(parent_of(m, k) matches Some(p) && m.contains_key(p))
}

pub open spec fn sync_roots(m: BranchMap) -> Set<Seq<char>> {
    Set::new(|k: Seq<char>| is_sync_root(m, k))
}

/// The named children of each branch of `level`, group by group in the order
/// of `level`, each group in increasing order.
pub open spec fn children_of_level(m: BranchMap, level: Seq<Seq<char>>) -> Seq<Seq<char>>
    decreases level.len(),
{
    if level.len() == 0 {
        seq![]
    } else {
        children_of_level(m, level.drop_last()) + sorted_names(child_set(m, level.last(), false))
    }
}

/// `level` followed by up to `fuel - 1` further levels of children.
pub open spec fn order_from(m: BranchMap, level: Seq<Seq<char>>, fuel: nat) -> Seq<Seq<char>>
    decreases fuel,
{
    if fuel == 0 {
        seq![]
    } else {
        level + order_from(m, children_of_level(m, level), (fuel - 1) as nat)
    }
}

/// The order in which branches are synced: the roots in increasing order,
/// then level by level the children of the previous level, each parent's
/// children together and in increasing order (breadth first).
pub open spec fn sync_order(m: BranchMap) -> Seq<Seq<char>> {
    order_from(m, sorted_names(sync_roots(m)), m.dom().len())
}

proof fn lemma_order_from_empty(m: BranchMap, fuel: nat)
    ensures
        order_from(m, seq![], fuel) == Seq::<Seq<char>>::empty(),
    decreases fuel,
{
    if fuel > 0 {
        assert(children_of_level(m, seq![]) == Seq::<Seq<char>>::empty());
        lemma_order_from_empty(m, (fuel - 1) as nat);
        assert(seq![] + order_from(m, seq![], (fuel - 1) as nat) =~= Seq::<Seq<char>>::empty());
    }
}

/// The names of the sync roots, in increasing order.
fn sync_root_names(all_meta: &MetadataState) -> (r: Vec<String>)
    requires
        all_meta.wf(),
    ensures
        sorted_listing(texts(r@), sync_roots(all_meta@.branches)),
{
    let ghost v = all_meta.branches@;
    let ghost m = all_meta@.branches;
    let mut out: Vec<String> = Vec::new();
    let mut i: usize = 0;
    while i < all_meta.branches.len()
        invariant
            v == all_meta.branches@,
            m == branch_map(v),
            all_meta.wf(),
            i <= v.len(),
            strictly_sorted(texts(out@)),
            forall|x: Seq<char>| #[trigger] texts(out@).contains(x) <==> (sync_roots(m).contains(x)
                && exists|j: int| 0 <= j < i && v[j].name@ == x),
        decreases v.len() - i,
    {
        let b = &all_meta.branches[i];
        proof {
            lemma_branch_map_entry(v, i as int);
        }
        let is_root = match &b.parent_branch {
            Some(p) => all_meta.branch(p.as_str()).is_none(),
            None => true,
        };
        if is_root && b.name.as_str().unicode_len() > 0 {
            proof {
                if texts(out@).contains(b.name@) {
                    let j = choose|j: int| 0 <= j < i && v[j].name@ == b.name@;
                    assert(v[j].name@ == v[i as int].name@);
                }
            }
            insert_sorted(&mut out, b.name.clone());
        }
        proof {
            assert forall|x: Seq<char>| #[trigger] texts(out@).contains(x) <==> (sync_roots(m).contains(x)
                && exists|j: int| 0 <= j < i + 1 && v[j].name@ == x) by {
                if x == v[i as int].name@ {
                    assert(v[i as int].name@ == x);
                }
                if exists|j: int| 0 <= j < i + 1 && v[j].name@ == x {
                    let j = choose|j: int| 0 <= j < i + 1 && v[j].name@ == x;
                    if j < i {
                        assert(exists|j: int| 0 <= j < i && v[j].name@ == x);
                    }
                }
            }
        }
        i = i + 1;
    }
    proof {
        assert forall|x: Seq<char>| #[trigger] sync_roots(m).contains(x) implies texts(out@).contains(x) by {
            let j = name_index(v, x);
            assert(v[j].name@ == x);
        }
    }
    out
}

/// The named children of each branch of `level`, group by group, each group
/// in increasing order.
fn children_of_names(all_meta: &MetadataState, level: &Vec<String>) -> (r: Vec<String>)
    requires
        all_meta.wf(),
    ensures
        texts(r@) == children_of_level(all_meta@.branches, texts(level@)),
        forall|x: Seq<char>| #[trigger] texts(r@).contains(x) ==> all_meta@.branches.contains_key(x),
{
    let ghost m = all_meta@.branches;
    let mut next: Vec<String> = Vec::new();
    let mut j: usize = 0;
    while j < level.len()
        invariant
            all_meta.wf(),
            m == all_meta@.branches,
            j <= level@.len(),
            texts(next@) == children_of_level(m, texts(level@).take(j as int)),
            forall|x: Seq<char>| #[trigger] texts(next@).contains(x) ==> m.contains_key(x),
        decreases level.len() - j,
    {
        let mut ch = sorted_children(all_meta, level[j].as_str(), false);
        let ghost before = texts(next@);
        let ghost chv = texts(ch@);
        proof {
            lemma_sorted_names(chv, child_set(m, level@[j as int]@, false));
            let lt = texts(level@).take(j + 1);
            assert(lt.drop_last() =~= texts(level@).take(j as int));
            assert(lt.last() == level@[j as int]@);
        }
        next.append(&mut ch);
        proof {
            assert(texts(next@) =~= before + chv);
            assert forall|x: Seq<char>| #[trigger] texts(next@).contains(x) implies m.contains_key(x) by {
                let k = choose|k: int| 0 <= k < texts(next@).len() && texts(next@)[k] == x;
                if k < before.len() {
                    assert(before[k] == x);
                    assert(before.contains(x));
                } else {
                    assert(chv[k - before.len()] == x);
                    assert(chv.contains(x));
                    assert(child_set(m, level@[j as int]@, false).contains(x));
                }
            }
        }
        j = j + 1;
    }
    assert(texts(level@).take(level@.len() as int) =~= texts(level@));
    next
}

/// The tracked branches in the order in which they are synced: parents
/// before children, roots and siblings in increasing order of name.
pub fn get_branches_in_sync_order<'a>(all_meta: &'a MetadataState) -> (r: Vec<&'a BranchMeta>)
    requires
        all_meta.wf(),
    ensures
        r@.map_values(|b: &BranchMeta| b.name@) == sync_order(all_meta@.branches),
        forall|i: int|
            0 <= i < r@.len() ==> all_meta@.branches.contains_key(#[trigger] r@[i].name@)
                && all_meta@.branches[r@[i].name@] == *r@[i],
{
    let ghost m = all_meta@.branches;
    proof {
        lemma_branch_map_dom(all_meta.branches@);
    }
    let roots = sync_root_names(all_meta);
    proof {
        lemma_sorted_names(texts(roots@), sync_roots(m));
        assert forall|x: Seq<char>| #[trigger] texts(roots@).contains(x) implies m.contains_key(x) by {
            assert(sync_roots(m).contains(x));
        }
    }
    let mut order: Vec<String> = Vec::new();
    let mut level = roots;
    let mut fuel: usize = all_meta.branches.len();
    while fuel > 0 && level.len() > 0
        invariant
            all_meta.wf(),
            m == all_meta@.branches,
            texts(order@) + order_from(m, texts(level@), fuel as nat) == sync_order(m),
            forall|x: Seq<char>| #[trigger] texts(level@).contains(x) ==> m.contains_key(x),
            forall|x: Seq<char>| #[trigger] texts(order@).contains(x) ==> m.contains_key(x),
        decreases fuel,
    {
        let next = children_of_names(all_meta, &level);
        proof {
            let lv = texts(level@);
            let ov = texts(order@);
            assert(order_from(m, lv, fuel as nat) == lv + order_from(m, children_of_level(m, lv), (fuel - 1) as nat));
            assert(ov + (lv + order_from(m, texts(next@), (fuel - 1) as nat)) =~= (ov + lv) + order_from(m, texts(next@), (fuel - 1) as nat));
        }
        let ghost ov = texts(order@);
        let ghost lv = texts(level@);
        order.append(&mut level);
        proof {
            assert(texts(order@) =~= ov + lv);
            assert forall|x: Seq<char>| #[trigger] texts(order@).contains(x) implies m.contains_key(x) by {
                let k = choose|k: int| 0 <= k < texts(order@).len() && texts(order@)[k] == x;
                if k < ov.len() {
                    assert(ov[k] == x);
                    assert(ov.contains(x));
                } else {
                    assert(lv[k - ov.len()] == x);
                    assert(lv.contains(x));
                }
            }
        }
        level = next;
        fuel = fuel - 1;
    }
    proof {
        if fuel > 0 {
            assert(texts(level@) =~= Seq::<Seq<char>>::empty());
            lemma_order_from_empty(m, fuel as nat);
        }
        assert(texts(order@) =~= sync_order(m));
    }
    let mut r: Vec<&'a BranchMeta> = Vec::new();
    let mut i: usize = 0;
    while i < order.len()
        invariant
            all_meta.wf(),
            m == all_meta@.branches,
            keyed_by_name(m),
            texts(order@) == sync_order(m),
            forall|x: Seq<char>| #[trigger] texts(order@).contains(x) ==> m.contains_key(x),
            i <= order@.len(),
            r@.len() == i,
            forall|k: int| 0 <= k < i ==> #[trigger] r@[k].name@ == order@[k]@,
            forall|k: int|
                0 <= k < i ==> m.contains_key(#[trigger] r@[k].name@) && m[r@[k].name@] == *r@[k],
        decreases order.len() - i,
    {
        proof {
            assert(texts(order@)[i as int] == order@[i as int]@);
            assert(texts(order@).contains(order@[i as int]@));
        }
        match all_meta.branch(order[i].as_str()) {
            Some(b) => {
                r.push(b);
            },
            None => {
                assert(false);
            },
        }
        i = i + 1;
    }
    proof {
        assert(r@.map_values(|b: &BranchMeta| b.name@) =~= texts(order@));
    }
    r
}

/// One line of `av stack tree`.
pub struct TreeLine {
    /// Depth in the tree; each level is printed two spaces further in.
    pub indent: usize,
    pub name: String,
    /// The branch is the one checked out.
    pub is_current: bool,
    /// The number of the branch's pull request, if it has one.
    pub pr_number: Option<i64>,
    /// This is the note that `name` was met again below itself.
    pub cycle: bool,
}

pub struct TreeLineView {
    pub indent: nat,
    pub name: Seq<char>,
    pub is_current: bool,
    pub pr_number: Option<i64>,
    pub cycle: bool,
}

impl View for TreeLine {
    type V = TreeLineView;

    open spec fn view(&self) -> TreeLineView {
        TreeLineView {
            indent: self.indent as nat,
            name: self.name@,
            is_current: self.is_current,
            pr_number: self.pr_number,
            cycle: self.cycle,
        }
    }
}

/// The line that names the tracked branch `x`.
pub open spec fn name_line(m: BranchMap, current: Option<Seq<char>>, x: Seq<char>, indent: nat) -> TreeLineView {
    TreeLineView {
        indent,
        name: x,
        is_current: current == Some(x),
        pr_number: match m[x].pull_request {
            Some(pr) => Some(pr.number),
            None => None,
        },
        cycle: false,
    }
}

/// The lines that show `x` and, below it, its children, unless `x` is
/// already on `path` (the branches above it), where a cycle note ends it.
pub open spec fn node_lines(
    m: BranchMap,
    current: Option<Seq<char>>,
    x: Seq<char>,
    indent: nat,
    path: Seq<Seq<char>>,
    fuel: nat,
) -> Seq<TreeLineView>
    decreases fuel, 0nat,
{
    if fuel == 0 {
        seq![]
    } else if path.contains(x) {
        seq![
            name_line(m, current, x, indent),
            TreeLineView { indent, name: x, is_current: false, pr_number: None, cycle: true },
        ]
    } else {
        seq![name_line(m, current, x, indent)] + forest_lines(
            m,
            current,
            sorted_names(child_set(m, x, true)),
            indent + 1,
            path.push(x),
            (fuel - 1) as nat,
        )
    }
}

/// The lines of each branch of `xs` in turn, all below `path`.
pub open spec fn forest_lines(
    m: BranchMap,
    current: Option<Seq<char>>,
    xs: Seq<Seq<char>>,
    indent: nat,
    path: Seq<Seq<char>>,
    fuel: nat,
) -> Seq<TreeLineView>
    decreases fuel, xs.len() + 1,
{
    if xs.len() == 0 {
        seq![]
    } else {
        forest_lines(m, current, xs.drop_last(), indent, path, fuel) + node_lines(
            m,
            current,
            xs.last(),
            indent,
            path,
            fuel,
        )
    }
}

/// The tracked branch `k` has no parent, a parent that av does not track, or
/// a trunk parent.
pub open spec fn starts_tree(m: BranchMap, trunks: Seq<Seq<char>>, k: Seq<char>) -> bool {
    m.contains_key(k) && match parent_of(m, k) {
        Some(p) => !m.contains_key(p) || trunks.contains(p),
        None => true,
    }
}

pub open spec fn tree_starts(m: BranchMap, trunks: Seq<Seq<char>>) -> Set<Seq<char>> {
    Set::new(|k: Seq<char>| starts_tree(m, trunks, k))
}

/// The branches at which the tree starts: those without a parent, with a
/// parent that av does not track, or with a trunk parent; when there are
/// none, every tracked branch.
pub open spec fn display_roots(m: BranchMap, trunks: Seq<Seq<char>>) -> Set<Seq<char>> {
    let roots = tree_starts(m, trunks);
    if roots.is_empty() {
        m.dom()
    } else {
        roots
    }
}

/// The lines of `av stack tree`: each display root in increasing order of
/// name, with the branches below it.
pub open spec fn tree_lines(m: BranchMap, trunks: Seq<Seq<char>>, current: Option<Seq<char>>) -> Seq<TreeLineView> {
    forest_lines(m, current, sorted_names(display_roots(m, trunks)), 0, seq![], m.dom().len() + 1)
}

/// The views of a sequence of tree lines.
pub open spec fn line_views(v: Seq<TreeLine>) -> Seq<TreeLineView> {
    v.map_values(|l: TreeLine| l@)
}

/// Appends the lines of `name` and its children to `out`.
fn push_node_lines(
    all_meta: &MetadataState,
    current: &Option<String>,
    name: &String,
    indent: usize,
    path: &mut Vec<String>,
    fuel: u128,
    out: &mut Vec<TreeLine>,
)
    requires
        old(path)@.len() + fuel <= all_meta.branches@.len() + 1,
        indent == old(path)@.len(),
        all_meta.wf(),
        all_meta@.branches.contains_key(name@),
    ensures
        final(path)@ == old(path)@,
        line_views(final(out)@) == line_views(old(out)@) + node_lines(
            all_meta@.branches,
            opt_text(*current),
            name@,
            indent as nat,
            texts(old(path)@),
            fuel as nat,
        ),
    decreases fuel, 0nat,
{
    let ghost m = all_meta@.branches;
    let ghost before = line_views(out@);
    if fuel == 0 {
        assert(line_views(out@) =~= before + Seq::<TreeLineView>::empty());
        return;
    }
    let meta = match all_meta.branch(name.as_str()) {
        Some(meta) => meta,
        None => {
            return;
        },
    };
    let is_current = match current {
        Some(c) => same_text(c.as_str(), name.as_str()),
        None => false,
    };
    let pr_number = match &meta.pull_request {
        Some(pr) => Some(pr.number),
        None => None,
    };
    out.push(TreeLine { indent, name: name.clone(), is_current, pr_number, cycle: false });
    let ghost with_line = line_views(out@);
    proof {
        assert(with_line =~= before.push(name_line(m, opt_text(*current), name@, indent as nat)));
    }
    if contains_text(path, name.as_str()) {
        out.push(TreeLine { indent, name: name.clone(), is_current: false, pr_number: None, cycle: true });
        proof {
            assert(line_views(out@) =~= before + seq![
                name_line(m, opt_text(*current), name@, indent as nat),
                TreeLineView { indent: indent as nat, name: name@, is_current: false, pr_number: None, cycle: true },
            ]);
        }
        return;
    }
    let ghost old_path = path@;
    let children = sorted_children(all_meta, name.as_str(), true);
    proof {
        lemma_sorted_names(texts(children@), child_set(m, name@, true));
        assert(texts(old_path.push(*name)) =~= texts(old_path).push(name@));
        assert forall|x: Seq<char>| #[trigger] texts(children@).contains(x) implies m.contains_key(x) by {
            assert(child_set(m, name@, true).contains(x));
        }
    }
    let n = all_meta.branches.len();
    if fuel == 1 {
        proof {
            lemma_forest_lines_no_fuel(m, opt_text(*current), texts(children@), (indent + 1) as nat, texts(old_path).push(name@));
            assert(line_views(out@) =~= with_line + Seq::<TreeLineView>::empty());
        }
        return;
    }
    path.push(name.clone());
    push_forest_lines(all_meta, current, &children, indent + 1, path, fuel - 1, out);
    path.pop();
    proof {
        assert(path@ =~= old_path);
    }
}

proof fn lemma_forest_lines_no_fuel(
    m: BranchMap,
    current: Option<Seq<char>>,
    xs: Seq<Seq<char>>,
    indent: nat,
    path: Seq<Seq<char>>,
)
    ensures
        forest_lines(m, current, xs, indent, path, 0) == Seq::<TreeLineView>::empty(),
    decreases xs.len(),
{
    if xs.len() > 0 {
        lemma_forest_lines_no_fuel(m, current, xs.drop_last(), indent, path);
        assert(forest_lines(m, current, xs.drop_last(), indent, path, 0) + node_lines(m, current, xs.last(), indent, path, 0) =~= Seq::<TreeLineView>::empty());
    }
}

/// Appends the lines of each branch of `names` in turn to `out`.
fn push_forest_lines(
    all_meta: &MetadataState,
    current: &Option<String>,
    names: &Vec<String>,
    indent: usize,
    path: &mut Vec<String>,
    fuel: u128,
    out: &mut Vec<TreeLine>,
)
    requires
        old(path)@.len() + fuel <= all_meta.branches@.len() + 1,
        indent == old(path)@.len(),
        all_meta.wf(),
        forall|x: Seq<char>| #[trigger] texts(names@).contains(x) ==> all_meta@.branches.contains_key(x),
    ensures
        final(path)@ == old(path)@,
        line_views(final(out)@) == line_views(old(out)@) + forest_lines(
            all_meta@.branches,
            opt_text(*current),
            texts(names@),
            indent as nat,
            texts(old(path)@),
            fuel as nat,
        ),
    decreases fuel, 1nat,
{
    let ghost m = all_meta@.branches;
    let ghost before = line_views(out@);
    let ghost p0 = path@;
    let mut i: usize = 0;
    assert(texts(names@).take(0) =~= Seq::<Seq<char>>::empty());
    assert(before =~= before + Seq::<TreeLineView>::empty());
    while i < names.len()
        invariant
            all_meta.wf(),
            m == all_meta@.branches,
            path@ == p0,
            p0.len() + fuel <= all_meta.branches@.len() + 1,
            indent == p0.len(),
            i <= names@.len(),
            forall|x: Seq<char>| #[trigger] texts(names@).contains(x) ==> m.contains_key(x),
            line_views(out@) == before + forest_lines(m, opt_text(*current), texts(names@).take(i as int), indent as nat, texts(p0), fuel as nat),
        decreases names.len() - i,
    {
        proof {
            assert(texts(names@)[i as int] == names@[i as int]@);
            assert(texts(names@).contains(names@[i as int]@));
        }
        let ghost mid = line_views(out@);
        push_node_lines(all_meta, current, &names[i], indent, path, fuel, out);
        proof {
            let t = texts(names@).take(i + 1);
            assert(t.drop_last() =~= texts(names@).take(i as int));
            assert(t.last() == names@[i as int]@);
        }
        i = i + 1;
    }
    assert(texts(names@).take(names@.len() as int) =~= texts(names@));
}

/// The names at which `av stack tree` starts, in increasing order.
fn display_root_names(all_meta: &MetadataState, trunk_branches: &Vec<String>) -> (r: Vec<String>)
    requires
        all_meta.wf(),
    ensures
        sorted_listing(texts(r@), display_roots(all_meta@.branches, texts(trunk_branches@))),
{
    let ghost v = all_meta.branches@;
    let ghost m = all_meta@.branches;
    let ghost t = texts(trunk_branches@);
    let mut out: Vec<String> = Vec::new();
    let mut i: usize = 0;
    while i < all_meta.branches.len()
        invariant
            v == all_meta.branches@,
            m == branch_map(v),
            all_meta.wf(),
            t == texts(trunk_branches@),
            i <= v.len(),
            strictly_sorted(texts(out@)),
            forall|x: Seq<char>| #[trigger] texts(out@).contains(x) <==> (tree_starts(m, t).contains(x)
                && exists|j: int| 0 <= j < i && v[j].name@ == x),
        decreases v.len() - i,
    {
        let b = &all_meta.branches[i];
        proof {
            lemma_branch_map_entry(v, i as int);
        }
        let starts = match &b.parent_branch {
            Some(p) => all_meta.branch(p.as_str()).is_none() || is_trunk(trunk_branches, p.as_str()),
            None => true,
        };
        proof {
            assert(m[b.name@] == *b);
            assert(parent_of(m, b.name@) == opt_text(b.parent_branch));
            assert(starts_tree(m, t, b.name@) == starts);
        }
        if starts {
            proof {
                if texts(out@).contains(b.name@) {
                    let j = choose|j: int| 0 <= j < i && v[j].name@ == b.name@;
                    assert(v[j].name@ == v[i as int].name@);
                }
            }
            insert_sorted(&mut out, b.name.clone());
        }
        proof {
            assert forall|x: Seq<char>| #[trigger] texts(out@).contains(x) <==> (tree_starts(m, t).contains(x)
                && exists|j: int| 0 <= j < i + 1 && v[j].name@ == x) by {
                if x == v[i as int].name@ {
                    assert(v[i as int].name@ == x);
                }
                if exists|j: int| 0 <= j < i + 1 && v[j].name@ == x {
                    let j = choose|j: int| 0 <= j < i + 1 && v[j].name@ == x;
                    if j < i {
                        assert(exists|j: int| 0 <= j < i && v[j].name@ == x);
                    }
                }
            }
        }
        i = i + 1;
    }
    proof {
        assert forall|x: Seq<char>| #[trigger] tree_starts(m, t).contains(x) implies texts(out@).contains(x) by {
            let j = name_index(v, x);
            assert(v[j].name@ == x);
        }
    }
    if out.len() == 0 {
        proof {
            assert forall|x: Seq<char>| !#[trigger] tree_starts(m, t).contains(x) by {
                if tree_starts(m, t).contains(x) {
                    assert(texts(out@).contains(x));
                }
            }
            assert(tree_starts(m, t) =~= Set::<Seq<char>>::empty());
        }
        let mut all: Vec<String> = Vec::new();
        let mut k: usize = 0;
        while k < all_meta.branches.len()
            invariant
                v == all_meta.branches@,
                m == branch_map(v),
                all_meta.wf(),
                k <= v.len(),
                strictly_sorted(texts(all@)),
                forall|x: Seq<char>| #[trigger] texts(all@).contains(x) <==> exists|j: int| 0 <= j < k && v[j].name@ == x,
            decreases v.len() - k,
        {
            proof {
                if texts(all@).contains(v[k as int].name@) {
                    let j = choose|j: int| 0 <= j < k && v[j].name@ == v[k as int].name@;
                    assert(v[j].name@ == v[k as int].name@);
                }
            }
            insert_sorted(&mut all, all_meta.branches[k].name.clone());
            proof {
                assert forall|x: Seq<char>| #[trigger] texts(all@).contains(x) <==> exists|j: int| 0 <= j < k + 1 && v[j].name@ == x by {
                    if x == v[k as int].name@ {
                        assert(v[k as int].name@ == x);
                    }
                    if exists|j: int| 0 <= j < k + 1 && v[j].name@ == x {
                        let j = choose|j: int| 0 <= j < k + 1 && v[j].name@ == x;
                        if j < k {
                            assert(exists|j: int| 0 <= j < k && v[j].name@ == x);
                        }
                    }
                }
            }
            k = k + 1;
        }
        proof {
            assert forall|x: Seq<char>| #[trigger] m.dom().contains(x) <==> texts(all@).contains(x) by {
                if m.dom().contains(x) {
                    let j = name_index(v, x);
                    assert(v[j].name@ == x);
                }
                if texts(all@).contains(x) {
                    let j = choose|j: int| 0 <= j < v.len() && v[j].name@ == x;
                    assert(has_name(v, x));
                }
            }
        }
        return all;
    }
    proof {
        assert(texts(out@).contains(texts(out@)[0]));
        assert(tree_starts(m, t).contains(texts(out@)[0]));
    }
    out
}

/// The lines of `av stack tree`: from each display root in increasing order
/// of name, the branch and, two spaces further in per level, the branches
/// below it in increasing order of name, each marked when it is `current`,
/// with a note where a branch turns up again below itself.
pub fn stack_tree_lines(
    all_meta: &MetadataState,
    current: &Option<String>,
    trunk_branches: &Vec<String>,
) -> (r: Vec<TreeLine>)
    requires
        all_meta.wf(),
    ensures
        line_views(r@) == tree_lines(all_meta@.branches, texts(trunk_branches@), opt_text(*current)),
{
    let ghost m = all_meta@.branches;
    proof {
        lemma_branch_map_dom(all_meta.branches@);
    }
    let roots = display_root_names(all_meta, trunk_branches);
    proof {
        lemma_sorted_names(texts(roots@), display_roots(m, texts(trunk_branches@)));
        assert forall|x: Seq<char>| #[trigger] texts(roots@).contains(x) implies m.contains_key(x) by {
            assert(display_roots(m, texts(trunk_branches@)).contains(x));
        }
    }
    let mut out: Vec<TreeLine> = Vec::new();
    let mut path: Vec<String> = Vec::new();
    let fuel: u128 = all_meta.branches.len() as u128 + 1;
    proof {
        assert(texts(path@) =~= Seq::<Seq<char>>::empty());
        assert(line_views(out@) =~= Seq::<TreeLineView>::empty());
    }
    push_forest_lines(all_meta, current, &roots, 0, &mut path, fuel, &mut out);
    proof {
        assert(line_views(out@) =~= tree_lines(m, texts(trunk_branches@), opt_text(*current)));
    }
    out
}

/// The spaces that put a line `k` levels in: two per level.
pub open spec fn indentation(k: nat) -> Seq<char> {
    Seq::new(2 * k, |i: int| ' ')
}

/// The text that `av stack tree` prints for one line: the indentation, `*`
/// for the branch checked out (a space otherwise), the name and, when the
/// branch has one, ` (PR #<number>)`; a cycle note reads
/// `  └─<cycle detected with <name>>` after the indentation.
pub open spec fn line_text(l: TreeLineView) -> Seq<char> {
    if l.cycle {
        indentation(l.indent) + "  └─<cycle detected with "@ + l.name + ">"@
    } else {
        indentation(l.indent) + (if l.is_current {
            "*"@
        } else {
            " "@
        }) + l.name + match l.pr_number {
            Some(n) => " (PR #"@ + signed_decimal(n as int) + ")"@,
            None => Seq::<char>::empty(),
        }
    }
}

/// The text of one line of `av stack tree`; see `line_text`.
pub fn tree_line_text(line: &TreeLine) -> (r: String)
    ensures
        r@ == line_text(line@),
{
    let mut out = String::new();
    let mut i: usize = 0;
    while i < line.indent
        invariant
            i <= line.indent,
            out@ == indentation(i as nat),
        decreases line.indent - i,
    {
        out.append("  ");
        proof {
            reveal_strlit("  ");
            assert(indentation((i + 1) as nat) =~= indentation(i as nat) + "  "@);
        }
        i = i + 1;
    }
    if line.cycle {
        out.append("  └─<cycle detected with ");
        out.append(line.name.as_str());
        out.append(">");
    } else {
        if line.is_current {
            out.append("*");
        } else {
            out.append(" ");
        }
        out.append(line.name.as_str());
        match line.pr_number {
            Some(n) => {
                let digits = decimal_text(n);
                out.append(" (PR #");
                out.append(digits.as_str());
                out.append(")");
            },
            None => {
                assert(out@ + Seq::<char>::empty() =~= out@);
            },
        }
    }
    out
}

/// The branches of `order` whose names are in `names`, in the order of `order`.
pub fn select_in_order<'a>(order: &Vec<&'a BranchMeta>, names: &Vec<String>) -> (r: Vec<&'a BranchMeta>)
    ensures
        r@ == order@.filter(|b: &BranchMeta| texts(names@).contains(b.name@)),
{
    let ghost keep = |b: &BranchMeta| texts(names@).contains(b.name@);
    let mut r: Vec<&'a BranchMeta> = Vec::new();
    let mut i: usize = 0;
    while i < order.len()
        invariant
            i <= order@.len(),
            keep == (|b: &BranchMeta| texts(names@).contains(b.name@)),
            r@ == order@.take(i as int).filter(keep),
        decreases order.len() - i,
    {
        let b = order[i];
        proof {
            reveal(Seq::filter);
            assert(order@.take(i + 1).drop_last() =~= order@.take(i as int));
        }
        if contains_text(names, b.name.as_str()) {
            r.push(b);
        }
        i = i + 1;
    }
    assert(order@.take(order@.len() as int) =~= order@);
    r
}

/// The head commit av records for `parent`, when av tracks it.
pub fn recorded_head(all_meta: &MetadataState, parent: &str) -> (r: Option<String>)
    requires
        all_meta.wf(),
    ensures
        r is Some <==> all_meta@.branches.contains_key(parent@),
        r matches Some(h) ==> h@ == all_meta@.branches[parent@].head_commit@,
{
    match all_meta.branch(parent) {
        Some(meta) => Some(meta.head_commit.clone()),
        None => None,
    }
}

/// Why syncing stops.
pub enum SyncError {
    /// The head of the parent branch could not be found.
    MissingParentHead { parent: String },
    /// The branch does not record the parent head it was made from.
    MissingParentCommit,
    /// The checked-out branch `branch` is to be pruned, but it has no parent
    /// and the repository's default branch is unknown, so there is nothing
    /// to check out instead.
    UnprunableCurrent { branch: String },
}

/// Whether a failed rebase stopped on conflicts, judged by git's message.
pub fn rebase_conflicted(message: &str) -> (r: bool)
    ensures
        r == (occurs_from(message@, "Merge conflict"@, 0) || occurs_from(message@, "Resolve all conflicts"@, 0)
            || occurs_from(message@, "applied an RERERE"@, 0)),
{
    let s = chars_of(message);
    find_from(&s, &chars_of("Merge conflict"), 0).is_some() || find_from(&s, &chars_of("Resolve all conflicts"), 0).is_some()
        || find_from(&s, &chars_of("applied an RERERE"), 0).is_some()
}

/// The first line of `message`: everything before its first line break.
pub fn first_line(message: &str) -> (r: String)
    ensures
        !occurs_from(message@, "\n"@, 0) ==> r@ == message@,
        forall|i: int| first_occurrence_from(message@, "\n"@, 0, i) ==> r@ == message@.subrange(0, i),
{
    let s = chars_of(message);
    let nl = chars_of("\n");
    match find_from(&s, &nl, 0) {
        Some(i) => {
            proof {
                reveal_strlit("\n");
                assert forall|j: int| first_occurrence_from(message@, "\n"@, 0, j) implies j == i by {
                    if j < i {
                        assert(!occurs_at(message@, "\n"@, j));
                    } else if i < j {
                        assert(!occurs_at(message@, "\n"@, i as int));
                    }
                }
            }
            String::from_str(message.substring_char(0, i))
        },
        None => String::from_str(message),
    }
}

/// The branches that `av stack submit --current` considers: `current` and
/// the branches met walking up from it through tracked, non-trunk parents,
/// stopping at the first branch met twice; `None` when `current` is not
/// tracked.
pub fn submit_scope(all_meta: &MetadataState, current: &str, trunk_branches: &Vec<String>) -> (r: Option<Vec<String>>)
    requires
        all_meta.wf(),
    ensures
        r is None <==> !all_meta@.branches.contains_key(current@),
        r matches Some(v) ==> texts(v@).no_duplicates() && forall|x: Seq<char>| #[trigger] texts(v@).contains(x) <==> exists|n: nat|
            ancestor_at(all_meta@.branches, texts(trunk_branches@), current@, n) == Some(x),
{
    if all_meta.branch(current).is_none() {
        None
    } else {
        Some(stack_ancestors(all_meta, current, trunk_branches))
    }
}

/// What `av stack submit` does about one branch.
pub enum SubmitAction {
    /// Open a pull request from `branch` onto `base`.
    Create { branch: String, base: String },
    /// Update the existing pull request `pr_id` (number `number`) of
    /// `branch`, pointing it at `base` when that is known.
    Update { branch: String, pr_id: String, number: i64, base: Option<String> },
    /// `branch` has no recorded parent and the repository's default branch is
    /// unknown, so no base can be chosen: submitting stops here.
    MissingBase { branch: String },
}

/// The base of a pull request of `b`: its recorded parent, else the
/// repository's default branch.
pub open spec fn submit_base(b: BranchMeta, default_branch: Option<String>) -> Option<String> {
    match b.parent_branch {
        Some(p) => Some(p),
        None => default_branch,
    }
}

/// What submitting does about `b`: update its pull request when it has one,
/// else open one onto its base, or stop when there is no base.
pub open spec fn submit_action(b: BranchMeta, default_branch: Option<String>) -> SubmitAction {
    match b.pull_request {
        Some(pr) => SubmitAction::Update {
            branch: b.name,
            pr_id: pr.id,
            number: pr.number,
            base: submit_base(b, default_branch),
        },
        None => match submit_base(b, default_branch) {
            Some(base) => SubmitAction::Create { branch: b.name, base },
            None => SubmitAction::MissingBase { branch: b.name },
        },
    }
}

/// Submitting updates the pull request of a branch that has one, and
/// otherwise opens one onto the branch's recorded parent, or onto the
/// repository's default branch when it has no parent; it stops only at a
/// branch with neither a pull request, a parent nor a known default branch.
pub proof fn lemma_submit_actions(b: BranchMeta, default_branch: Option<String>)
    ensures
        b.pull_request matches Some(pr) ==> submit_action(b, default_branch) is Update
            && submit_action(b, default_branch)->Update_pr_id == pr.id
            && submit_action(b, default_branch)->Update_number == pr.number,
        b.pull_request is None && b.parent_branch is Some ==> submit_action(b, default_branch) == (SubmitAction::Create {
            branch: b.name,
            base: b.parent_branch->0,
        }),
        b.pull_request is None && b.parent_branch is None && default_branch is Some ==> submit_action(
            b,
            default_branch,
        ) == (SubmitAction::Create { branch: b.name, base: default_branch->0 }),
        submit_action(b, default_branch) is MissingBase <==> b.pull_request is None && b.parent_branch is None
            && default_branch is None,
{
}

fn copy_text(o: &Option<String>) -> (r: Option<String>)
    ensures
        r == *o,
{
    match o {
        Some(x) => Some(x.clone()),
        None => None,
    }
}

fn submit_action_of(b: &BranchMeta, default_branch: &Option<String>) -> (r: SubmitAction)
    ensures
        r == submit_action(*b, *default_branch),
{
    let base = match &b.parent_branch {
        Some(p) => Some(p.clone()),
        None => copy_text(default_branch),
    };
    match &b.pull_request {
        Some(pr) => SubmitAction::Update { branch: b.name.clone(), pr_id: pr.id.clone(), number: pr.number, base },
        None => match base {
            Some(base) => SubmitAction::Create { branch: b.name.clone(), base },
            None => SubmitAction::MissingBase { branch: b.name.clone() },
        },
    }
}

/// The plan of `av stack submit`: for each selected branch, in order, what
/// to do about it (see `submit_action`); `default_branch` is the
/// repository's default branch when it is known.
pub fn submit_plan(selected: &Vec<&BranchMeta>, default_branch: &Option<String>) -> (r: Vec<SubmitAction>)
    ensures
        r@.len() == selected@.len(),
        forall|i: int| 0 <= i < r@.len() ==> #[trigger] r@[i] == submit_action(*selected@[i], *default_branch),
{
    let mut r: Vec<SubmitAction> = Vec::new();
    let mut i: usize = 0;
    while i < selected.len()
        invariant
            i <= selected@.len(),
            r@.len() == i,
            forall|j: int| 0 <= j < i ==> #[trigger] r@[j] == submit_action(*selected@[j], *default_branch),
        decreases selected.len() - i,
    {
        r.push(submit_action_of(selected[i], default_branch));
        i = i + 1;
    }
    r
}

/// The title of a pull request opened by `av stack submit`: the branch name
/// when the branch has no commits of its own, else the summary of its top
/// commit, and the branch name when that is unknown.
pub fn submission_title(branch_name: &str, head: &str, parent_head: &str, top_summary: Option<String>) -> (r: String)
    ensures
        r@ == (if head@ == parent_head@ {
            branch_name@
        } else {
            match top_summary {
                Some(s) => s@,
                None => branch_name@,
            }
        }),
{
    if same_text(head, parent_head) {
        String::from_str(branch_name)
    } else {
        match top_summary {
            Some(s) => s,
            None => String::from_str(branch_name),
        }
    }
}

/// The body of a pull request opened by `av stack submit`: `PR for branch <name>.`
pub fn submission_body(branch_name: &str) -> (r: String)
    ensures
        r@ == "PR for branch "@ + branch_name@ + "."@,
{
    String::from_str("PR for branch ").concat(branch_name).concat(".")
}

} // verus!
