//! Moving along a stack: the next branch up, the previous one down, and the
//! trunk a stack grows from.
use vstd::prelude::*;
use vstd::string::*;

use crate::meta::types::MetadataState;
use crate::utils::stack_laws::lemma_stack_holds_branch_and_root;
use crate::utils::stack_utils::{
    child_set, find_stack_root, is_trunk, lemma_root_walk_ends, parent_of, sorted_children, stack_root,
    walk_ends, BranchMap,
};
use crate::utils::text::{lemma_sorted_listing_min, lemma_text_order, opt_text, text_lt, texts};

verus! {

pub struct NextOpts {
    /// Check out the trunk that the current stack grows from.
    pub trunk: bool,
}

pub struct PrevOpts {
    /// Check out the trunk that the current stack grows from.
    pub trunk: bool,
}

/// The trunk that the stack rooted at `root` grows from, found by walking up
/// from `root` through tracked, non-trunk parents to the last such branch
/// `top`: the parent of `top` when it has one (a trunk, or a branch av does
/// not track); otherwise `top` itself when it is a trunk, and else the
/// repository's default branch. An untracked `root` is its own answer when it
/// is a trunk and has none otherwise.
pub open spec fn trunk_ancestor(
    m: BranchMap,
    trunks: Seq<Seq<char>>,
    root: Seq<char>,
    default_branch: Option<Seq<char>>,
) -> Option<Seq<char>> {
    if !m.contains_key(root) {
        if trunks.contains(root) {
            Some(root)
        } else {
            None
        }
    } else {
        let top = stack_root(m, trunks, root);
        match parent_of(m, top) {
            Some(p) => Some(p),
            None => if trunks.contains(top) {
                Some(top)
            } else {
                default_branch
            },
        }
    }
}

/// The trunk a tracked branch's stack grows from is the recorded parent of
/// the stack's top branch whenever that branch has one, whether that parent
/// is listed as a trunk or is a branch av does not track, and whatever the
/// repository's default branch is; that parent is never a tracked,
/// non-trunk branch. When the top has no parent, the answer is the top when
/// it is a trunk, and otherwise the default branch.
pub proof fn lemma_trunk_ancestor_is_top_parent(
    m: BranchMap,
    trunks: Seq<Seq<char>>,
    k: Seq<char>,
    default_branch: Option<Seq<char>>,
)
    requires
        m.contains_key(k),
        walk_ends(m, trunks, k),
    ensures
        parent_of(m, stack_root(m, trunks, k)) matches Some(p) ==> trunk_ancestor(m, trunks, k, default_branch)
            == Some(p) && !(m.contains_key(p) && !trunks.contains(p)),
        parent_of(m, stack_root(m, trunks, k)) is None ==> trunk_ancestor(m, trunks, k, default_branch) == if trunks.contains(
            stack_root(m, trunks, k),
        ) {
            Some(stack_root(m, trunks, k))
        } else {
            default_branch
        },
{
    lemma_stack_holds_branch_and_root(m, trunks, k);
}

/// The trunk that the stack rooted at `stack_root_name` grows from; see
/// `trunk_ancestor`. `default_branch` is the repository's default branch, when
/// it could be determined.
pub fn get_stack_trunk_ancestor(
    stack_root_name: &str,
    all_meta: &MetadataState,
    trunk_branches: &Vec<String>,
    default_branch: Option<String>,
) -> (r: Option<String>)
    requires
        all_meta.wf(),
        walk_ends(all_meta@.branches, texts(trunk_branches@), stack_root_name@),
    ensures
        opt_text(r) == trunk_ancestor(
            all_meta@.branches,
            texts(trunk_branches@),
            stack_root_name@,
            opt_text(default_branch),
        ),
{
    if all_meta.branch(stack_root_name).is_none() {
        if is_trunk(trunk_branches, stack_root_name) {
            return Some(String::from_str(stack_root_name));
        } else {
            return None;
        }
    }
    let top = find_stack_root(all_meta, trunk_branches, stack_root_name);
    let meta = match all_meta.branch(top.as_str()) {
        Some(meta) => meta,
        None => {
            return None;
        },
    };
    match &meta.parent_branch {
        Some(p) => Some(p.clone()),
        None => {
            if is_trunk(trunk_branches, top.as_str()) {
                Some(top)
            } else {
                default_branch
            }
        },
    }
}

/// Where `av next` goes: the child of `current` whose name comes first.
pub open spec fn next_target(m: BranchMap, current: Seq<char>) -> Option<Seq<char>> {
    let children = child_set(m, current, true);
    if children.is_empty() {
        None
    } else {
        Some(choose|c: Seq<char>| children.contains(c) && forall|d: Seq<char>| #[trigger] children.contains(d) ==> c == d || text_lt(c, d))
    }
}

/// The branch that `av next` checks out: among the tracked branches whose
/// parent is `current`, the one whose name comes first; `None` at the top of
/// a stack.
pub fn next_branch(all_meta: &MetadataState, current: &str) -> (r: Option<String>)
    requires
        all_meta.wf(),
    ensures
        opt_text(r) == next_target(all_meta@.branches, current@),
{
    let mut children = sorted_children(all_meta, current, true);
    let ghost cs = child_set(all_meta@.branches, current@, true);
    if children.len() == 0 {
        proof {
            if !cs.is_empty() {
                let x = cs.choose();
                assert(cs.contains(x));
                assert(texts(children@).contains(x));
            }
        }
        None
    } else {
        let ghost all = texts(children@);
        let first = children.remove(0);
        proof {
            lemma_sorted_listing_min(all, cs);
            assert(all[0] == first@);
            let c = choose|c: Seq<char>| cs.contains(c) && forall|d: Seq<char>| #[trigger] cs.contains(d) ==> c == d || text_lt(c, d);
            assert(cs.contains(c) && forall|d: Seq<char>| #[trigger] cs.contains(d) ==> c == d || text_lt(c, d));
            lemma_text_order();
            if c != first@ {
                assert(text_lt(c, first@));
                assert(text_lt(first@, c));
            }
        }
        Some(first)
    }
}

/// Why `av prev` cannot move.
pub enum NavError {
    /// The current branch is not tracked by av.
    NotTracked,
}

/// The branch that `av prev` checks out: the recorded parent of `current`;
/// `None` at the bottom of a stack; an error when `current` is not tracked.
pub fn prev_branch(all_meta: &MetadataState, current: &str) -> (r: Result<Option<String>, NavError>)
    requires
        all_meta.wf(),
    ensures
        r is Err <==> !all_meta@.branches.contains_key(current@),
        r matches Ok(p) ==> opt_text(p) == parent_of(all_meta@.branches, current@),
{
    match all_meta.branch(current) {
        Some(meta) => match &meta.parent_branch {
            Some(p) => Ok(Some(p.clone())),
            None => Ok(None),
        },
        None => Err(NavError::NotTracked),
    }
}

/// What `av next --trunk` and `av prev --trunk` check out.
pub enum TrunkTarget {
    /// The current branch is in no stack: check out the repository's default branch.
    RepositoryDefault,
    /// Check out this branch.
    Branch(String),
    /// No trunk could be determined: stay on the current branch.
    Stay,
}

/// The trunk to check out for the stack of `current`: the trunk that the
/// stack's root grows from.
pub fn trunk_checkout_target(
    all_meta: &MetadataState,
    current: &str,
    trunk_branches: &Vec<String>,
    default_branch: Option<String>,
) -> (r: TrunkTarget)
    requires
        all_meta.wf(),
        walk_ends(all_meta@.branches, texts(trunk_branches@), current@),
    ensures
        r is RepositoryDefault <==> !all_meta@.branches.contains_key(current@),
        r matches TrunkTarget::Branch(b) ==> trunk_ancestor(
            all_meta@.branches,
            texts(trunk_branches@),
            stack_root(all_meta@.branches, texts(trunk_branches@), current@),
            opt_text(default_branch),
        ) == Some(b@),
        r is Stay ==> trunk_ancestor(
            all_meta@.branches,
            texts(trunk_branches@),
            stack_root(all_meta@.branches, texts(trunk_branches@), current@),
            opt_text(default_branch),
        ) is None,
{
    if all_meta.branch(current).is_none() {
        return TrunkTarget::RepositoryDefault;
    }
    let root = find_stack_root(all_meta, trunk_branches, current);
    proof {
        let m = all_meta@.branches;
        let t = texts(trunk_branches@);
        lemma_root_walk_ends(m, t, current@);
    }
    match get_stack_trunk_ancestor(root.as_str(), all_meta, trunk_branches, default_branch) {
        Some(b) => TrunkTarget::Branch(b),
        None => TrunkTarget::Stay,
    }
}

} // verus!
