//! What the metadata operations promise of each other.
use vstd::prelude::*;

use crate::meta::types::{
    keyed_by_name, lemma_branch_map_dom, BranchMeta, MetadataState, MetadataStateView, RepositoryMeta,
};

verus! {

/// A well-formed state files every branch record under the record's own
/// name, and tracks finitely many branches.
pub proof fn lemma_state_keyed_by_name(state: MetadataState)
    requires
        state.wf(),
    ensures
        keyed_by_name(state@.branches),
        state@.branches.dom().finite(),
{
    lemma_branch_map_dom(state.branches@);
}

/// Reading a branch back after recording it gives the record that was written.
pub proof fn lemma_read_after_upsert(s: MetadataStateView, b: BranchMeta)
    ensures
        s.with_branch(b).branches.contains_key(b.name@),
        s.with_branch(b).branches[b.name@] == b,
{
}

/// Recording a branch leaves every other branch, and the repository details,
/// as they were.
pub proof fn lemma_upsert_keeps_others(s: MetadataStateView, b: BranchMeta, other: Seq<char>)
    requires
        other != b.name@,
    ensures
        s.with_branch(b).branches.get(other) == s.branches.get(other),
        s.with_branch(b).repository == s.repository,
{
}

/// Recording the same branch twice is the same as recording it once.
pub proof fn lemma_upsert_idempotent(s: MetadataStateView, b: BranchMeta)
    ensures
        s.with_branch(b).with_branch(b) == s.with_branch(b),
{
    assert(s.with_branch(b).with_branch(b).branches =~= s.with_branch(b).branches);
}

/// A later record of a branch replaces an earlier one.
pub proof fn lemma_upsert_overwrites(s: MetadataStateView, b1: BranchMeta, b2: BranchMeta)
    requires
        b1.name@ == b2.name@,
    ensures
        s.with_branch(b1).with_branch(b2) == s.with_branch(b2),
{
    assert(s.with_branch(b1).with_branch(b2).branches =~= s.with_branch(b2).branches);
}

/// Deleting a branch that was just recorded, when it was not tracked before,
/// gives back the state before.
pub proof fn lemma_delete_undoes_upsert(s: MetadataStateView, b: BranchMeta)
    requires
        !s.branches.contains_key(b.name@),
    ensures
        s.with_branch(b).without_branch(b.name@) == s,
{
    assert(s.with_branch(b).without_branch(b.name@).branches =~= s.branches);
}

/// After a branch is deleted it is no longer tracked; other branches and the
/// repository details stay.
pub proof fn lemma_read_after_delete(s: MetadataStateView, name: Seq<char>, other: Seq<char>)
    ensures
        !s.without_branch(name).branches.contains_key(name),
        other != name ==> s.without_branch(name).branches.get(other) == s.branches.get(other),
        s.without_branch(name).repository == s.repository,
{
}

/// Recording a branch in a state keyed by name keeps it keyed by name.
pub proof fn lemma_upsert_keeps_keying(s: MetadataStateView, b: BranchMeta)
    requires
        keyed_by_name(s.branches),
    ensures
        keyed_by_name(s.with_branch(b).branches),
{
}

/// Reading the repository details back after setting them gives what was
/// set; the branches stay.
pub proof fn lemma_read_after_set_repository(s: MetadataStateView, repo: RepositoryMeta)
    ensures
        s.with_repository(repo).repository == Some(repo),
        s.with_repository(repo).branches == s.branches,
{
}

} // verus!
