//! The decisions of `av stack sync` about one branch, one event at a time:
//! rebase onto the parent, push, read the pull request's state, prune. The
//! program performs each action and reports what came of it.
use vstd::prelude::*;
use vstd::string::*;

use crate::commands::stack::{StackSyncOpts, SyncError};
use crate::gh::types::PullRequestState;
use crate::meta::types::{BranchMeta, PullRequestMeta};
use crate::utils::text::same_text;

verus! {

/// Where syncing a branch stands.
pub enum SyncStage {
    /// Nothing done yet; waiting for the head of the parent.
    Start,
    /// A rebase onto `onto` was asked for.
    AwaitRebase { onto: String },
    /// The branch's local and remote heads were asked for.
    AwaitHeads,
    /// A push was asked for.
    AwaitPush,
    /// The state of the pull request was asked for.
    AwaitPr,
    /// Pruning was asked for.
    AwaitPrune,
    /// The branch is done with.
    Done,
}

/// Syncing one branch.
pub struct BranchSync {
    /// The branch's record, as syncing has made it so far.
    pub meta: BranchMeta,
    /// The branch that was checked out when syncing began.
    pub initial_branch: Option<String>,
    /// The branch was rebased.
    pub was_rebased: bool,
    pub stage: SyncStage,
}

/// What the program reports back.
pub enum SyncEvent {
    /// Syncing of the branch begins; `parent_head` is the head of its parent,
    /// when it could be found.
    Begin { parent_head: Option<String> },
    /// The rebase succeeded and the branch's head is now `new_head`.
    Rebased { new_head: String },
    /// The rebase failed.
    RebaseFailed,
    /// The branch's head locally and on the remote, where they exist.
    Heads { local: Option<String>, remote: Option<String> },
    /// The push was tried, with or without success.
    PushTried,
    /// The state of the branch's pull request, when it could be read, and
    /// the repository's default branch, when it is known.
    PrStatus { state: Option<PullRequestState>, default_branch: Option<String> },
    /// The branch was pruned.
    Pruned,
}

/// What the program is to do next.
pub enum SyncAction {
    /// Check out the branch and move it from `old_base` onto `onto`.
    Rebase { onto: String, old_base: String },
    /// Report the branch's local and remote heads.
    ReadHeads,
    /// Push the branch to the remote, forcing when `force`.
    Push { force: bool },
    /// Report the state of the branch's pull request.
    ReadPrStatus,
    /// Delete the branch locally and on the remote, and forget its record,
    /// after checking out `checkout` when there is one.
    Prune { checkout: Option<String> },
    /// Stop syncing with this error.
    Fail(SyncError),
    /// The branch is done with: check out `restore` again when there is one
    /// (and it is not checked out already), and store `record` when there is
    /// one.
    Finish { restore: Option<String>, record: Option<BranchMeta> },
    /// The event does not fit the stage; nothing is to be done.
    Ignore,
}

/// Syncing of `meta` before anything is done.
pub open spec fn sync_start(meta: BranchMeta, initial_branch: Option<String>) -> BranchSync {
    BranchSync { meta, initial_branch, was_rebased: false, stage: SyncStage::Start }
}

/// The branch is done with; its record is stored when it was rebased.
pub open spec fn finish(s: BranchSync) -> (BranchSync, SyncAction) {
    (
        BranchSync { stage: SyncStage::Done, ..s },
        SyncAction::Finish { restore: None, record: if s.was_rebased {
            Some(s.meta)
        } else {
            None
        } },
    )
}

/// After pushing, or deciding not to: the pull request's state is read when
/// the branch has one; else the branch is done with.
pub open spec fn after_push(s: BranchSync) -> (BranchSync, SyncAction) {
    if s.meta.pull_request is Some {
        (BranchSync { stage: SyncStage::AwaitPr, ..s }, SyncAction::ReadPrStatus)
    } else {
        finish(s)
    }
}

/// The local head differs from the remote's copy: always when the remote has
/// none, never when the local head is unknown.
pub open spec fn out_of_step(local: Option<String>, remote: Option<String>) -> bool {
    match (local, remote) {
        (Some(l), Some(h)) => l@ != h@,
        (Some(_), None) => true,
        _ => false,
    }
}

/// The next stage of syncing `s` and the next action, when `e` comes.
/// - At the start: with rebasing off, or for a branch without a parent, the
///   heads are read. Otherwise the parent's head must be known, else syncing
///   fails; when the branch was made from that head the heads are read;
///   else the branch must record the parent head it was made from (else
///   syncing fails) and is rebased from it onto the parent's head.
/// - After a rebase the record takes the new head and the parent's head, and
///   the heads are read. A failed rebase ends the branch: the branch checked
///   out at the start is checked out again and nothing is stored.
/// - With the heads known: when pushing is on and the branch is out of step
///   with the remote or was rebased, it is pushed, forced after a rebase.
/// - After the push (or none): the pull request's state is read when there is
///   one; else the branch is done with, its record stored when rebased.
/// - When the pull request is merged and pruning of merged branches is on,
///   the branch is pruned, after checking out its parent (or else the
///   default branch) when it is the branch checked out at the start; with
///   neither known, syncing fails. Otherwise the branch is done with.
/// - After pruning, the branch is done with and nothing is stored.
pub open spec fn sync_next(opts: StackSyncOpts, s: BranchSync, e: SyncEvent) -> (BranchSync, SyncAction) {
    let done = BranchSync { stage: SyncStage::Done, ..s };
    match (s.stage, e) {
        (SyncStage::Start, SyncEvent::Begin { parent_head }) => {
            if !opts.rebase || s.meta.parent_branch is None {
                (BranchSync { stage: SyncStage::AwaitHeads, ..s }, SyncAction::ReadHeads)
            } else {
                match parent_head {
                    None => (done, SyncAction::Fail(SyncError::MissingParentHead { parent: s.meta.parent_branch->0 })),
                    Some(h) => match s.meta.parent_commit {
                        Some(pc) => if pc@ == h@ {
                            (BranchSync { stage: SyncStage::AwaitHeads, ..s }, SyncAction::ReadHeads)
                        } else {
                            (
                                BranchSync { stage: SyncStage::AwaitRebase { onto: h }, ..s },
                                SyncAction::Rebase { onto: h, old_base: pc },
                            )
                        },
                        None => (done, SyncAction::Fail(SyncError::MissingParentCommit)),
                    },
                }
            }
        },
        (SyncStage::AwaitRebase { onto }, SyncEvent::Rebased { new_head }) => (
            BranchSync {
                meta: BranchMeta { head_commit: new_head, parent_commit: Some(onto), ..s.meta },
                was_rebased: true,
                stage: SyncStage::AwaitHeads,
                ..s
            },
            SyncAction::ReadHeads,
        ),
        (SyncStage::AwaitRebase { onto }, SyncEvent::RebaseFailed) => (
            done,
            SyncAction::Finish { restore: s.initial_branch, record: None },
        ),
        (SyncStage::AwaitHeads, SyncEvent::Heads { local, remote }) => {
            if opts.push && (out_of_step(local, remote) || s.was_rebased) {
                (BranchSync { stage: SyncStage::AwaitPush, ..s }, SyncAction::Push { force: s.was_rebased })
            } else {
                after_push(s)
            }
        },
        (SyncStage::AwaitPush, SyncEvent::PushTried) => after_push(s),
        (SyncStage::AwaitPr, SyncEvent::PrStatus { state, default_branch }) => {
            if opts.prune_merged && state == Some(PullRequestState::Merged) {
                if s.initial_branch matches Some(i) && i@ == s.meta.name@ {
                    match s.meta.parent_branch {
                        Some(p) => (BranchSync { stage: SyncStage::AwaitPrune, ..s }, SyncAction::Prune { checkout: Some(p) }),
                        None => match default_branch {
                            Some(d) => (
                                BranchSync { stage: SyncStage::AwaitPrune, ..s },
                                SyncAction::Prune { checkout: Some(d) },
                            ),
                            None => (done, SyncAction::Fail(SyncError::UnprunableCurrent { branch: s.meta.name })),
                        },
                    }
                } else {
                    (BranchSync { stage: SyncStage::AwaitPrune, ..s }, SyncAction::Prune { checkout: None })
                }
            } else {
                finish(s)
            }
        },
        (SyncStage::AwaitPrune, SyncEvent::Pruned) => (done, SyncAction::Finish { restore: None, record: None }),
        _ => (s, SyncAction::Ignore),
    }
}

/// Syncing keeps its order: a rebase is only asked for at the start, a push
/// only once the heads are known, the pull request's state only after the
/// push (or the decision not to push), and pruning only once that state is
/// known to be merged, with pruning of merged branches on.
pub proof fn lemma_sync_order(opts: StackSyncOpts, s: BranchSync, e: SyncEvent)
    ensures
        ({
            let (t, a) = sync_next(opts, s, e);
            &&& a is Rebase ==> s.stage is Start && opts.rebase
            &&& a is Push ==> s.stage is AwaitHeads && opts.push
            &&& a is ReadPrStatus ==> (s.stage is AwaitHeads || s.stage is AwaitPush) && s.meta.pull_request is Some
            &&& a is Prune ==> (s.stage is AwaitPr && opts.prune_merged && (e matches SyncEvent::PrStatus { state, .. }
                && state == Some(PullRequestState::Merged)))
        }),
{
}

/// A branch's record is stored only when the branch was rebased, and then
/// it is the record as syncing has made it.
pub proof fn lemma_sync_stores_only_rebased(opts: StackSyncOpts, s: BranchSync, e: SyncEvent)
    ensures
        ({
            let (t, a) = sync_next(opts, s, e);
            a matches SyncAction::Finish { record: Some(r), .. } ==> t.was_rebased && r == t.meta
        }),
{
}

/// A failed rebase ends the branch: nothing more is done about it, nothing
/// is stored, and the branch checked out at the start is checked out again.
pub proof fn lemma_failed_rebase_ends_branch(opts: StackSyncOpts, s: BranchSync)
    requires
        s.stage is AwaitRebase,
    ensures
        sync_next(opts, s, SyncEvent::RebaseFailed).0.stage is Done,
        sync_next(opts, s, SyncEvent::RebaseFailed).1 == (SyncAction::Finish {
            restore: s.initial_branch,
            record: None,
        }),
{
}

/// Once a branch is done with, nothing more is done about it.
pub proof fn lemma_done_is_final(opts: StackSyncOpts, s: BranchSync, e: SyncEvent)
    requires
        s.stage is Done,
    ensures
        sync_next(opts, s, e) == (s, SyncAction::Ignore),
{
}

/// A branch that has a pull request has its state read once pushing is
/// settled, whether a push was tried or none was needed; the branch's
/// record and whether it was rebased are carried along unchanged.
pub proof fn lemma_pr_read_after_push(opts: StackSyncOpts, s: BranchSync, local: Option<String>, remote: Option<String>)
    requires
        s.meta.pull_request is Some,
    ensures
        s.stage is AwaitPush ==> ({
            let (t, a) = sync_next(opts, s, SyncEvent::PushTried);
            &&& a is ReadPrStatus
            &&& t.stage is AwaitPr
            &&& t.meta == s.meta
            &&& t.was_rebased == s.was_rebased
        }),
        s.stage is AwaitHeads ==> ({
            let (t, a) = sync_next(opts, s, SyncEvent::Heads { local, remote });
            a is Push || (a is ReadPrStatus && t.stage is AwaitPr && t.meta == s.meta)
        }),
{
}

/// A branch that was rebased is finished with its updated record stored,
/// whether or not it has a pull request and whatever that pull request's
/// state, unless it is pruned; a branch that was not rebased is finished
/// with nothing stored.
pub proof fn lemma_rebased_record_stored(
    opts: StackSyncOpts,
    s: BranchSync,
    state: Option<PullRequestState>,
    default_branch: Option<String>,
)
    ensures
        s.stage is AwaitPr && !(opts.prune_merged && state == Some(PullRequestState::Merged)) ==> ({
            let (t, a) = sync_next(opts, s, SyncEvent::PrStatus { state, default_branch });
            &&& t.stage is Done
            &&& s.was_rebased ==> a == SyncAction::Finish { restore: None, record: Some(s.meta) }
            &&& !s.was_rebased ==> a == SyncAction::Finish { restore: None, record: None }
        }),
        s.stage is AwaitPush && s.meta.pull_request is None ==> ({
            let a = sync_next(opts, s, SyncEvent::PushTried).1;
            &&& s.was_rebased ==> a == SyncAction::Finish { restore: None, record: Some(s.meta) }
            &&& !s.was_rebased ==> a == SyncAction::Finish { restore: None, record: None }
        }),
{
}

/// After a successful rebase the branch's record takes the new head and the
/// parent head it was moved onto, and keeps its name, parent and pull
/// request; the branch counts as rebased and its heads are read next.
pub proof fn lemma_rebase_updates_record(opts: StackSyncOpts, s: BranchSync, new_head: String)
    requires
        s.stage is AwaitRebase,
    ensures
        ({
            let (t, a) = sync_next(opts, s, SyncEvent::Rebased { new_head });
            &&& a is ReadHeads
            &&& t.was_rebased
            &&& t.meta.head_commit == new_head
            &&& t.meta.parent_commit == Some(s.stage->onto)
            &&& t.meta.name == s.meta.name
            &&& t.meta.parent_branch == s.meta.parent_branch
            &&& t.meta.pull_request == s.meta.pull_request
            &&& t.initial_branch == s.initial_branch
        }),
{
}

/// At the start, with rebasing on, a branch with a parent whose head `h` is
/// known and that was made from another head `pc` is rebased from `pc` onto
/// `h`; one made from `h` itself, or any branch with rebasing off, goes
/// straight to reading its heads, with its record untouched.
pub proof fn lemma_sync_begin(opts: StackSyncOpts, s: BranchSync, h: String)
    requires
        s.stage is Start,
    ensures
        ({
            let (t, a) = sync_next(opts, s, SyncEvent::Begin { parent_head: Some(h) });
            let (t0, a0) = sync_next(opts, s, SyncEvent::Begin { parent_head: None });
            &&& (opts.rebase && s.meta.parent_branch is Some && (s.meta.parent_commit matches Some(pc) && pc@ != h@))
                ==> a == (SyncAction::Rebase { onto: h, old_base: s.meta.parent_commit->0 })
            &&& (opts.rebase && s.meta.parent_branch is Some && (s.meta.parent_commit matches Some(pc) && pc@ == h@))
                ==> (a is ReadHeads && t.meta == s.meta)
            &&& !opts.rebase ==> (a is ReadHeads && a0 is ReadHeads && t.meta == s.meta && t.was_rebased == s.was_rebased)
        }),
{
}

/// With pushing on, a branch is pushed when its local head differs from the
/// remote's, when the remote has none, or when it was rebased, and the push
/// is forced exactly after a rebase; with pushing off it is never pushed,
/// nor is a branch whose local head is unknown and that was not rebased.
pub proof fn lemma_sync_push(opts: StackSyncOpts, s: BranchSync, local: Option<String>, remote: Option<String>)
    requires
        s.stage is AwaitHeads,
    ensures
        ({
            let a = sync_next(opts, s, SyncEvent::Heads { local, remote }).1;
            &&& (opts.push && (s.was_rebased || (local matches Some(l) && (remote matches Some(r) ==> l@ != r@))))
                ==> a == (SyncAction::Push { force: s.was_rebased })
            &&& !opts.push ==> !(a is Push)
            &&& (!s.was_rebased && local is None) ==> !(a is Push)
        }),
{
}

/// With pruning of merged branches on, a branch whose pull request is merged
/// is pruned; when it is the branch checked out at the start, its parent is
/// checked out first, or else the default branch.
pub proof fn lemma_sync_prune(opts: StackSyncOpts, s: BranchSync, default_branch: Option<String>)
    requires
        s.stage is AwaitPr,
        opts.prune_merged,
    ensures
        ({
            let a = sync_next(opts, s, SyncEvent::PrStatus { state: Some(PullRequestState::Merged), default_branch }).1;
            &&& !(s.initial_branch matches Some(i) && i@ == s.meta.name@) ==> a == SyncAction::Prune {
                checkout: None,
            }
            &&& (s.initial_branch matches Some(i) && i@ == s.meta.name@) && s.meta.parent_branch is Some
                ==> a == SyncAction::Prune { checkout: s.meta.parent_branch }
            &&& (s.initial_branch matches Some(i) && i@ == s.meta.name@) && s.meta.parent_branch is None
                && default_branch is Some ==> a == SyncAction::Prune { checkout: default_branch }
        }),
{
}

/// Syncing of the branch `meta`, before anything is done; `initial_branch`
/// is the branch checked out when syncing began.
pub fn begin_sync(meta: BranchMeta, initial_branch: Option<String>) -> (r: BranchSync)
    ensures
        r == sync_start(meta, initial_branch),
{
    BranchSync { meta, initial_branch, was_rebased: false, stage: SyncStage::Start }
}

fn copy_text(o: &Option<String>) -> (r: Option<String>)
    ensures
        r == *o,
{
    match o {
        Some(x) => Some(x.clone()),
        None => None,
    }
}

/// A copy of the record `b`.
fn copy_meta(b: &BranchMeta) -> (r: BranchMeta)
    ensures
        r == *b,
{
    let pull_request = match &b.pull_request {
        Some(pr) => Some(PullRequestMeta { id: pr.id.clone(), number: pr.number, permalink: pr.permalink.clone() }),
        None => None,
    };
    BranchMeta {
        name: b.name.clone(),
        parent_branch: copy_text(&b.parent_branch),
        parent_commit: copy_text(&b.parent_commit),
        head_commit: b.head_commit.clone(),
        pull_request,
    }
}

fn finish_step(s: BranchSync) -> (r: (BranchSync, SyncAction))
    ensures
        r == finish(s),
{
    let record = if s.was_rebased {
        Some(copy_meta(&s.meta))
    } else {
        None
    };
    (BranchSync { stage: SyncStage::Done, ..s }, SyncAction::Finish { restore: None, record })
}

fn after_push_step(s: BranchSync) -> (r: (BranchSync, SyncAction))
    ensures
        r == after_push(s),
{
    if s.meta.pull_request.is_some() {
        (BranchSync { stage: SyncStage::AwaitPr, ..s }, SyncAction::ReadPrStatus)
    } else {
        finish_step(s)
    }
}

/// Decides the next stage and action of syncing `s` when `e` comes; see
/// `sync_next`.
pub fn sync_step(opts: &StackSyncOpts, s: BranchSync, e: SyncEvent) -> (r: (BranchSync, SyncAction))
    ensures
        r == sync_next(*opts, s, e),
{
    match (&s.stage, e) {
        (SyncStage::Start, SyncEvent::Begin { parent_head }) => {
            if !opts.rebase || s.meta.parent_branch.is_none() {
                return (BranchSync { stage: SyncStage::AwaitHeads, ..s }, SyncAction::ReadHeads);
            }
            match parent_head {
                None => {
                    let parent = match &s.meta.parent_branch {
                        Some(p) => p.clone(),
                        None => String::new(),
                    };
                    (BranchSync { stage: SyncStage::Done, ..s }, SyncAction::Fail(SyncError::MissingParentHead { parent }))
                },
                Some(h) => {
                    let pc = match &s.meta.parent_commit {
                        Some(pc) => pc.clone(),
                        None => {
                            return (BranchSync { stage: SyncStage::Done, ..s }, SyncAction::Fail(SyncError::MissingParentCommit));
                        },
                    };
                    if same_text(pc.as_str(), h.as_str()) {
                        (BranchSync { stage: SyncStage::AwaitHeads, ..s }, SyncAction::ReadHeads)
                    } else {
                        let onto = h.clone();
                        (BranchSync { stage: SyncStage::AwaitRebase { onto }, ..s }, SyncAction::Rebase { onto: h, old_base: pc })
                    }
                },
            }
        },
        (SyncStage::AwaitRebase { onto }, SyncEvent::Rebased { new_head }) => {
            let onto = onto.clone();
            let meta = BranchMeta { head_commit: new_head, parent_commit: Some(onto), ..s.meta };
            (
                BranchSync { meta, initial_branch: s.initial_branch, was_rebased: true, stage: SyncStage::AwaitHeads },
                SyncAction::ReadHeads,
            )
        },
        (SyncStage::AwaitRebase { onto: _ }, SyncEvent::RebaseFailed) => {
            let restore = match &s.initial_branch {
                Some(i) => Some(i.clone()),
                None => None,
            };
            (BranchSync { stage: SyncStage::Done, ..s }, SyncAction::Finish { restore, record: None })
        },
        (SyncStage::AwaitHeads, SyncEvent::Heads { local, remote }) => {
            let out = match (&local, &remote) {
                (Some(l), Some(h)) => !same_text(l.as_str(), h.as_str()),
                (Some(_), None) => true,
                _ => false,
            };
            if opts.push && (out || s.was_rebased) {
                let force = s.was_rebased;
                (BranchSync { stage: SyncStage::AwaitPush, ..s }, SyncAction::Push { force })
            } else {
                after_push_step(s)
            }
        },
        (SyncStage::AwaitPush, SyncEvent::PushTried) => after_push_step(s),
        (SyncStage::AwaitPr, SyncEvent::PrStatus { state, default_branch }) => {
            let merged = match state {
                Some(PullRequestState::Merged) => true,
                _ => false,
            };
            if opts.prune_merged && merged {
                let is_initial = match &s.initial_branch {
                    Some(i) => same_text(i.as_str(), s.meta.name.as_str()),
                    None => false,
                };
                if is_initial {
                    match &s.meta.parent_branch {
                        Some(p) => {
                            let p = p.clone();
                            (BranchSync { stage: SyncStage::AwaitPrune, ..s }, SyncAction::Prune { checkout: Some(p) })
                        },
                        None => match default_branch {
                            Some(d) => (BranchSync { stage: SyncStage::AwaitPrune, ..s }, SyncAction::Prune { checkout: Some(d) }),
                            None => {
                                let branch = s.meta.name.clone();
                                (BranchSync { stage: SyncStage::Done, ..s }, SyncAction::Fail(SyncError::UnprunableCurrent { branch }))
                            },
                        },
                    }
                } else {
                    (BranchSync { stage: SyncStage::AwaitPrune, ..s }, SyncAction::Prune { checkout: None })
                }
            } else {
                finish_step(s)
            }
        },
        (SyncStage::AwaitPrune, SyncEvent::Pruned) => {
            (BranchSync { stage: SyncStage::Done, ..s }, SyncAction::Finish { restore: None, record: None })
        },
        _ => (s, SyncAction::Ignore),
    }
}

} // verus!
