//! Records exchanged with GitHub.
use vstd::prelude::*;

verus! {

pub struct GhOwner {
    pub login: String,
}

pub struct GhRepositoryDetails {
    pub id: String,
    pub owner: GhOwner,
    pub name: String,
}

/// A pull request as GitHub reports it after creation.
pub struct PullRequestNode {
    pub id: String,
    pub number: i64,
    pub permalink: String,
}

/// The state of a pull request; `Unknown` stands for any state not listed.
#[derive(Debug, PartialEq, Eq, Structural)]
pub enum PullRequestState {
    Merged,
    Open,
    Closed,
    Unknown,
}

impl Default for PullRequestState {
    fn default() -> (s: Self)
        ensures
            s == PullRequestState::Unknown,
    {
        PullRequestState::Unknown
    }
}

pub struct PrStatusInfo {
    pub id: String,
    pub number: i64,
    pub state: PullRequestState,
    pub is_draft: bool,
    pub head_ref_name: String,
    pub base_ref_name: String,
}

pub struct PullRequestDetails {
    pub id: String,
    pub body: Option<String>,
}

} // verus!
