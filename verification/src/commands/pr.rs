//! `av pr create`: the checks before a pull request is opened, and its title.
use vstd::prelude::*;
use vstd::string::*;

use crate::meta::types::MetadataState;
use crate::utils::stack_utils::parent_of;

verus! {

pub struct PrOpts {
    pub command: PrCommand,
}

pub enum PrCommand {
    Create(PrCreateOpts),
}

pub struct PrCreateOpts {
    pub title: Option<String>,
    pub body: Option<String>,
    pub draft: bool,
    pub no_push: bool,
}

/// Why `av pr create` refuses a branch.
pub enum PrCreateError {
    /// The current branch is a trunk branch.
    TrunkBranch,
    /// The current branch is not tracked by av.
    NotTracked,
    /// The branch already has the pull request of this number.
    AlreadyHasPr { number: i64 },
    /// The branch records no parent to use as the base.
    NoParent,
}

/// The base of the pull request for `current`: its recorded parent. Refused,
/// in this order of checks, for a trunk branch, an untracked branch, a branch
/// that already has a pull request, and a branch without a parent.
pub fn pr_create_base(all_meta: &MetadataState, current: &str, current_is_trunk: bool) -> (r: Result<
    String,
    PrCreateError,
>)
    requires
        all_meta.wf(),
    ensures
        current_is_trunk <==> r matches Err(PrCreateError::TrunkBranch),
        !current_is_trunk ==> (r matches Err(PrCreateError::NotTracked) <==> !all_meta@.branches.contains_key(current@)),
        !current_is_trunk && all_meta@.branches.contains_key(current@) ==> match all_meta@.branches[current@].pull_request {
            Some(pr) => r matches Err(PrCreateError::AlreadyHasPr { number }) && number == pr.number,
            None => match parent_of(all_meta@.branches, current@) {
                Some(p) => r matches Ok(base) && base@ == p,
                None => r matches Err(PrCreateError::NoParent),
            },
        },
{
    if current_is_trunk {
        return Err(PrCreateError::TrunkBranch);
    }
    let meta = match all_meta.branch(current) {
        Some(meta) => meta,
        None => {
            return Err(PrCreateError::NotTracked);
        },
    };
    if let Some(pr) = &meta.pull_request {
        return Err(PrCreateError::AlreadyHasPr { number: pr.number });
    }
    match &meta.parent_branch {
        Some(p) => Ok(p.clone()),
        None => Err(PrCreateError::NoParent),
    }
}

/// The title of the pull request for `current`: the given title, else the
/// summary of the branch's top commit, else `PR for <current>`.
pub fn pr_title(title: Option<String>, current: &str, top_summary: Option<String>) -> (r: String)
    ensures
        r@ == match title {
            Some(t) => t@,
            None => match top_summary {
                Some(s) => s@,
                None => "PR for "@ + current@,
            },
        },
{
    match title {
        Some(t) => t,
        None => match top_summary {
            Some(s) => s,
            None => String::from_str("PR for ").concat(current),
        },
    }
}

/// The body of the pull request: the given body, else empty.
pub fn pr_body(body: Option<String>) -> (r: String)
    ensures
        r@ == match body {
            Some(b) => b@,
            None => Seq::<char>::empty(),
        },
{
    match body {
        Some(b) => b,
        None => String::new(),
    }
}

} // verus!
