//! `av commit`: the checks on its options and the update of the branch record.
use vstd::prelude::*;
use vstd::string::*;

use crate::meta::types::{lemma_branch_map_dom, BranchMeta, MetadataState};

verus! {

pub struct CommitOpts {
    pub message: Option<String>,
    pub amend: bool,
}

/// Why `av commit` refuses its options.
pub enum CommitError {
    /// A new commit needs a message.
    MessageRequired,
}

/// A new commit needs a message; amending does not.
pub fn check_commit_opts(opts: &CommitOpts) -> (r: Result<(), CommitError>)
    ensures
        r is Err <==> !opts.amend && opts.message is None,
{
    if !opts.amend && opts.message.is_none() {
        Err(CommitError::MessageRequired)
    } else {
        Ok(())
    }
}

/// The message of an amended commit: the given one, else the previous
/// commit's message, else empty.
pub fn amend_message(message: &Option<String>, previous: Option<String>) -> (r: String)
    ensures
        r@ == match message {
            Some(m) => m@,
            None => match previous {
                Some(p) => p@,
                None => Seq::<char>::empty(),
            },
        },
{
    match message {
        Some(m) => m.clone(),
        None => match previous {
            Some(p) => p,
            None => String::new(),
        },
    }
}

/// Moves the recorded head of `branch` to `new_head` and returns the head it
/// had; a branch that av does not track is left alone and `None` returned.
pub fn record_commit(all_meta: &mut MetadataState, branch: &str, new_head: String) -> (r: Option<String>)
    requires
        old(all_meta).wf(),
    ensures
        final(all_meta).wf(),
        r is None <==> !old(all_meta)@.branches.contains_key(branch@),
        r is None ==> final(all_meta)@ == old(all_meta)@,
        r matches Some(h) ==> h == old(all_meta)@.branches[branch@].head_commit && final(all_meta)@
            == old(all_meta)@.with_branch(
            BranchMeta { head_commit: new_head, ..old(all_meta)@.branches[branch@] },
        ),
{
    let ghost before = all_meta@;
    proof {
        lemma_branch_map_dom(all_meta.branches@);
    }
    match all_meta.delete_branch(branch) {
        None => {
            assert(all_meta@.branches =~= before.branches);
            None
        },
        Some(mut meta) => {
            let old_head = meta.head_commit;
            meta.head_commit = new_head;
            all_meta.upsert_branch(meta);
            proof {
                assert(all_meta@.branches =~= before.branches.insert(
                    branch@,
                    BranchMeta { head_commit: new_head, ..before.branches[branch@] },
                ));
            }
            Some(old_head)
        },
    }
}

} // verus!
