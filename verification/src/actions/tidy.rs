//! Tidying: which branches whose pull requests are closed may go.
use vstd::prelude::*;
use vstd::string::*;

use crate::gh::types::PullRequestState;
use crate::meta::types::{branch_map, lemma_branch_map_entry, name_index, BranchMeta, MetadataState};
use crate::utils::stack_utils::{parent_of, BranchMap};
use crate::utils::text::{contains_text, opt_text, texts};

verus! {

pub struct TidyOpts<'a> {
    pub dry_run: bool,
    pub remote_name: &'a str,
}

/// The tracked branches that are the recorded parent of some tracked branch.
pub open spec fn parents_in_use(m: BranchMap) -> Set<Seq<char>> {
    Set::new(|p: Seq<char>| m.contains_key(p) && exists|k: Seq<char>| #[trigger] parent_of(m, k) == Some(p))
}

/// The tracked branches that another tracked branch names as its parent;
/// tidying leaves them alone.
pub fn branches_kept_for_parenting(all_meta: &MetadataState) -> (r: Vec<String>)
    requires
        all_meta.wf(),
    ensures
        texts(r@).no_duplicates(),
        forall|x: Seq<char>| #[trigger] texts(r@).contains(x) <==> parents_in_use(all_meta@.branches).contains(x),
{
    let ghost v = all_meta.branches@;
    let ghost m = all_meta@.branches;
    let mut kept: Vec<String> = Vec::new();
    let mut i: usize = 0;
    while i < all_meta.branches.len()
        invariant
            v == all_meta.branches@,
            m == branch_map(v),
            all_meta.wf(),
            i <= v.len(),
            texts(kept@).no_duplicates(),
            forall|x: Seq<char>| #[trigger] texts(kept@).contains(x) <==> (m.contains_key(x) && exists|j: int|
                0 <= j < i && parent_of(m, v[j].name@) == Some(x)),
        decreases v.len() - i,
    {
        let b = &all_meta.branches[i];
        proof {
            lemma_branch_map_entry(v, i as int);
        }
        let ghost before = texts(kept@);
        if let Some(p) = &b.parent_branch {
            if all_meta.branch(p.as_str()).is_some() && !contains_text(&kept, p.as_str()) {
                kept.push(p.clone());
                proof {
                    assert(texts(kept@)[before.len() as int] == p@);
                    assert(texts(kept@) =~= before.push(p@));
                    assert forall|a: int, c: int| 0 <= a < c < texts(kept@).len() implies texts(kept@)[a] != texts(kept@)[c] by {
                        if c == before.len() {
                            assert(before.contains(before[a]));
                        } else {
                            assert(before[a] != before[c]);
                        }
                    }
                }
            }
        }
        proof {
            assert forall|x: Seq<char>| #[trigger] texts(kept@).contains(x) <==> (m.contains_key(x) && exists|j: int|
                0 <= j < i + 1 && parent_of(m, v[j].name@) == Some(x)) by {
                if texts(kept@).contains(x) && !before.contains(x) {
                    assert(parent_of(m, v[i as int].name@) == Some(x));
                }
                if before.contains(x) {
                    let k = choose|k: int| 0 <= k < before.len() && before[k] == x;
                    assert(texts(kept@)[k] == x);
                }
                if m.contains_key(x) && exists|j: int| 0 <= j < i + 1 && parent_of(m, v[j].name@) == Some(x) {
                    let j = choose|j: int| 0 <= j < i + 1 && parent_of(m, v[j].name@) == Some(x);
                    if j < i {
                        assert(exists|j: int| 0 <= j < i && parent_of(m, v[j].name@) == Some(x));
                    } else if before.contains(x) {
                        let k = choose|k: int| 0 <= k < before.len() && before[k] == x;
                        assert(texts(kept@)[k] == x);
                    } else {
                        assert(texts(kept@).len() == before.len() + 1);
                        assert(texts(kept@)[before.len() as int] == x);
                    }
                }
            }
        }
        i = i + 1;
    }
    proof {
        assert forall|x: Seq<char>| #[trigger] texts(kept@).contains(x) <==> parents_in_use(m).contains(x) by {
            if parents_in_use(m).contains(x) {
                let k = choose|k: Seq<char>| #[trigger] parent_of(m, k) == Some(x);
                assert(m.contains_key(k));
                let j = name_index(v, k);
                assert(v[j].name@ == k);
            }
            if texts(kept@).contains(x) {
                let j = choose|j: int| 0 <= j < v.len() && parent_of(m, v[j].name@) == Some(x);
                assert(parent_of(m, v[j].name@) == Some(x));
            }
        }
    }
    kept
}

/// What tidying does with a branch that has a pull request.
pub enum TidyVerdict {
    /// The pull request is still open or in an unknown state.
    Keep,
    /// Merged or closed, but another tracked branch stacks on it.
    KeepAsParent,
    /// Merged or closed: delete the branch and its record.
    Remove,
}

/// The fate of the branch `name` whose pull request is in `state`, when the
/// branches in `kept` are kept as parents.
pub open spec fn verdict_of(name: Seq<char>, state: PullRequestState, kept: Seq<Seq<char>>) -> TidyVerdict {
    if state == PullRequestState::Merged || state == PullRequestState::Closed {
        if kept.contains(name) {
            TidyVerdict::KeepAsParent
        } else {
            TidyVerdict::Remove
        }
    } else {
        TidyVerdict::Keep
    }
}

/// Decides the fate of the branch `name` whose pull request is in `state`.
pub fn tidy_verdict(name: &str, state: &PullRequestState, kept: &Vec<String>) -> (r: TidyVerdict)
    ensures
        r == verdict_of(name@, *state, texts(kept@)),
{
    match state {
        PullRequestState::Merged | PullRequestState::Closed => {
            if contains_text(kept, name) {
                TidyVerdict::KeepAsParent
            } else {
                TidyVerdict::Remove
            }
        },
        _ => TidyVerdict::Keep,
    }
}

/// Tidying deletes a branch whose pull request was merged or closed, unless
/// another tracked branch stacks on it; a branch whose pull request was
/// merged or closed and that is kept as a parent is kept for that reason
/// alone; and a branch whose pull request is still open, or in an unknown
/// state, is left alone.
pub proof fn lemma_tidy_verdicts(name: Seq<char>, state: PullRequestState, kept: Seq<Seq<char>>)
    ensures
        (state == PullRequestState::Merged || state == PullRequestState::Closed) && !kept.contains(name)
            ==> verdict_of(name, state, kept) == TidyVerdict::Remove,
        (state == PullRequestState::Merged || state == PullRequestState::Closed) && kept.contains(name)
            ==> verdict_of(name, state, kept) == TidyVerdict::KeepAsParent,
        (state == PullRequestState::Open || state == PullRequestState::Unknown) ==> verdict_of(
            name,
            state,
            kept,
        ) == TidyVerdict::Keep,
        verdict_of(name, PullRequestState::Merged, kept) == verdict_of(name, PullRequestState::Closed, kept),
{
}

/// Tidying never removes a tracked branch that another tracked branch names
/// as its parent, whatever the state of its pull request, when the kept
/// branches are those that `branches_kept_for_parenting` returns.
pub proof fn lemma_tidy_keeps_parents(
    m: BranchMap,
    kept: Seq<Seq<char>>,
    name: Seq<char>,
    child: Seq<char>,
    state: PullRequestState,
)
    requires
        forall|x: Seq<char>| #[trigger] kept.contains(x) <==> parents_in_use(m).contains(x),
        m.contains_key(name),
        parent_of(m, child) == Some(name),
    ensures
        verdict_of(name, state, kept) != TidyVerdict::Remove,
{
    assert(parents_in_use(m).contains(name));
}

/// Tidying removes a branch only when its pull request is merged or closed.
pub proof fn lemma_tidy_removes_only_finished(name: Seq<char>, state: PullRequestState, kept: Seq<Seq<char>>)
    requires
        verdict_of(name, state, kept) == TidyVerdict::Remove,
    ensures
        state == PullRequestState::Merged || state == PullRequestState::Closed,
        !kept.contains(name),
{
}

/// The branch to check out before the current branch is deleted: its
/// parent, else the default branch of the remote, else that of `origin`,
/// else `main`.
pub fn tidy_checkout_target(
    parent: Option<String>,
    remote_default: Option<String>,
    origin_default: Option<String>,
) -> (r: String)
    ensures
        r@ == match (parent, remote_default, origin_default) {
            (Some(p), _, _) => p@,
            (None, Some(d), _) => d@,
            (None, None, Some(o)) => o@,
            (None, None, None) => "main"@,
        },
{
    match parent {
        Some(p) => p,
        None => match remote_default {
            Some(d) => d,
            None => match origin_default {
                Some(o) => o,
                None => String::from_str("main"),
            },
        },
    }
}

/// The refspec that deletes the remote branch of that name.
pub fn delete_refspec(branch: &str) -> (r: String)
    ensures
        r@ == ":refs/heads/"@ + branch@,
{
    String::from_str(":refs/heads/").concat(branch)
}

} // verus!
