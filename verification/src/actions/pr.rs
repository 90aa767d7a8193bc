//! Recording a pull request that was opened for a branch.
use vstd::prelude::*;
use vstd::string::*;

use crate::gh::types::PullRequestNode;
use crate::meta::types::{lemma_branch_map_dom, BranchMeta, MetadataState, MetadataStateView, PullRequestMeta};

verus! {

/// The options of opening a pull request for a branch.
pub struct CreatePullRequestOpts<'a> {
    pub repo_owner: &'a str,
    pub repo_name: &'a str,
    pub repo_node_id: &'a str,
    pub head_ref_name: &'a str,
    pub base_ref_name: &'a str,
    pub title: String,
    pub body: String,
    pub is_draft: bool,
    pub no_push: bool,
    pub default_remote_name: &'a str,
}

/// Why a pull request could not be recorded.
pub enum RecordPrError {
    /// The branch is not tracked by av.
    BranchNotTracked,
}

/// The record of `node` as av stores it.
pub open spec fn pr_meta_of(node: PullRequestNode) -> PullRequestMeta {
    PullRequestMeta { id: node.id, number: node.number, permalink: node.permalink }
}

/// The state after the branch `name` is given the pull request `pr`.
pub open spec fn with_pull_request(s: MetadataStateView, name: Seq<char>, pr: PullRequestMeta) -> MetadataStateView {
    s.with_branch(BranchMeta { pull_request: Some(pr), ..s.branches[name] })
}

/// The refspec that pushes the local branch to the remote branch of that name.
pub fn push_refspec(branch: &str) -> (r: String)
    ensures
        r@ == "refs/heads/"@ + branch@ + ":refs/heads/"@ + branch@,
{
    String::from_str("refs/heads/").concat(branch).concat(":refs/heads/").concat(branch)
}

/// Records the pull request `node` on the branch `head_ref_name` and returns
/// the record; fails, changing nothing, when the branch is not tracked.
pub fn record_pull_request(all_meta: &mut MetadataState, head_ref_name: &str, node: PullRequestNode) -> (r: Result<
    PullRequestMeta,
    RecordPrError,
>)
    requires
        old(all_meta).wf(),
    ensures
        final(all_meta).wf(),
        r is Err <==> !old(all_meta)@.branches.contains_key(head_ref_name@),
        r is Err ==> final(all_meta)@ == old(all_meta)@,
        r matches Ok(pr) ==> pr == pr_meta_of(node) && final(all_meta)@ == with_pull_request(
            old(all_meta)@,
            head_ref_name@,
            pr,
        ),
{
    let ghost before = all_meta@;
    proof {
        lemma_branch_map_dom(all_meta.branches@);
    }
    match all_meta.delete_branch(head_ref_name) {
        None => {
            assert(all_meta@.branches =~= before.branches);
            Err(RecordPrError::BranchNotTracked)
        },
        Some(mut meta) => {
            let stored = PullRequestMeta { id: node.id.clone(), number: node.number, permalink: node.permalink.clone() };
            meta.pull_request = Some(stored);
            all_meta.upsert_branch(meta);
            proof {
                assert(all_meta@.branches =~= with_pull_request(before, head_ref_name@, pr_meta_of(node)).branches);
            }
            Ok(PullRequestMeta { id: node.id, number: node.number, permalink: node.permalink })
        },
    }
}

} // verus!
