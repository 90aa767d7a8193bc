//! `av branch create`: the record of a new stacked branch.
use vstd::prelude::*;

use crate::meta::types::{BranchMeta, MetadataState};

verus! {

pub struct BranchOpts {
    pub command: BranchCommand,
}

pub enum BranchCommand {
    Create(CreateBranchOpts),
}

pub struct CreateBranchOpts {
    pub branch_name: String,
    pub parent: Option<String>,
}

/// The record of a branch `name` just made from `parent`, whose head was
/// `parent_head`; the new branch's head is `head`, and it has no pull request.
pub open spec fn new_branch_meta(name: String, parent: String, parent_head: String, head: String) -> BranchMeta {
    BranchMeta {
        name,
        parent_branch: Some(parent),
        parent_commit: Some(parent_head),
        head_commit: head,
        pull_request: None,
    }
}

/// Starts tracking the branch `name` made from `parent`; see `new_branch_meta`.
pub fn track_new_branch(
    all_meta: &mut MetadataState,
    name: String,
    parent: String,
    parent_head: String,
    head: String,
)
    requires
        old(all_meta).wf(),
    ensures
        final(all_meta).wf(),
        final(all_meta)@ == old(all_meta)@.with_branch(new_branch_meta(name, parent, parent_head, head)),
{
    let meta = BranchMeta {
        name,
        parent_branch: Some(parent),
        parent_commit: Some(parent_head),
        head_commit: head,
        pull_request: None,
    };
    all_meta.upsert_branch(meta);
}

} // verus!
