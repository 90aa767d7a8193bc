use av_rs::commands::stack::{submit_plan, StackSyncOpts, SubmitAction, SyncError};
use av_rs::commands::sync_step::{begin_sync, sync_step, BranchSync, SyncAction, SyncEvent, SyncStage};
use av_rs::gh::types::PullRequestState;
use av_rs::meta::types::{BranchMeta, PullRequestMeta};

fn meta(name: &str, parent: Option<&str>, parent_commit: Option<&str>) -> BranchMeta {
    BranchMeta {
        name: name.to_string(),
        parent_branch: parent.map(|p| p.to_string()),
        parent_commit: parent_commit.map(|p| p.to_string()),
        head_commit: format!("{}-head", name),
        pull_request: None,
    }
}

fn with_pr(mut m: BranchMeta, number: i64) -> BranchMeta {
    m.pull_request = Some(PullRequestMeta { id: format!("PR_{}", number), number, permalink: String::new() });
    m
}

fn opts(rebase: bool, push: bool, prune_merged: bool) -> StackSyncOpts {
    StackSyncOpts { no_fetch: true, prune: false, rebase, push, prune_merged, current_stack: false }
}

fn step(o: &StackSyncOpts, s: BranchSync, e: SyncEvent) -> (BranchSync, SyncAction) {
    sync_step(o, s, e)
}

#[test]
fn sync_rebases_pushes_and_stores() {
    let o = opts(true, true, false);
    let s = begin_sync(meta("f", Some("main"), Some("old")), None);
    let (s, a) = step(&o, s, SyncEvent::Begin { parent_head: Some("new".to_string()) });
    assert!(matches!(a, SyncAction::Rebase { ref onto, ref old_base } if onto == "new" && old_base == "old"));
    let (s, a) = step(&o, s, SyncEvent::Rebased { new_head: "f2".to_string() });
    assert!(matches!(a, SyncAction::ReadHeads));
    assert!(s.was_rebased);
    let (s, a) = step(&o, s, SyncEvent::Heads { local: Some("f2".to_string()), remote: Some("f2".to_string()) });
    assert!(matches!(a, SyncAction::Push { force: true }));
    let (s, a) = step(&o, s, SyncEvent::PushTried);
    match a {
        SyncAction::Finish { restore: None, record: Some(r) } => {
            assert_eq!(r.head_commit, "f2");
            assert_eq!(r.parent_commit.as_deref(), Some("new"));
        }
        _ => panic!("expected the rebased record to be stored"),
    }
    assert!(matches!(s.stage, SyncStage::Done));
    let (_, a) = step(&o, s, SyncEvent::PushTried);
    assert!(matches!(a, SyncAction::Ignore));
}

#[test]
fn sync_up_to_date_branch_without_changes_stores_nothing() {
    let o = opts(true, true, false);
    let s = begin_sync(meta("f", Some("main"), Some("h")), None);
    let (s, a) = step(&o, s, SyncEvent::Begin { parent_head: Some("h".to_string()) });
    assert!(matches!(a, SyncAction::ReadHeads));
    let (_, a) = step(&o, s, SyncEvent::Heads { local: Some("x".to_string()), remote: Some("x".to_string()) });
    assert!(matches!(a, SyncAction::Finish { restore: None, record: None }));
}

#[test]
fn sync_failed_rebase_restores_checkout() {
    let o = opts(true, true, false);
    let s = begin_sync(meta("f", Some("main"), Some("old")), Some("g".to_string()));
    let (s, _) = step(&o, s, SyncEvent::Begin { parent_head: Some("new".to_string()) });
    let (s, a) = step(&o, s, SyncEvent::RebaseFailed);
    assert!(matches!(a, SyncAction::Finish { restore: Some(ref g), record: None } if g == "g"));
    assert!(matches!(s.stage, SyncStage::Done));
}

#[test]
fn sync_errors() {
    let o = opts(true, true, false);
    let s = begin_sync(meta("f", Some("main"), Some("old")), None);
    let (_, a) = step(&o, s, SyncEvent::Begin { parent_head: None });
    assert!(matches!(a, SyncAction::Fail(SyncError::MissingParentHead { ref parent }) if parent == "main"));
    let s = begin_sync(meta("f", Some("main"), None), None);
    let (_, a) = step(&o, s, SyncEvent::Begin { parent_head: Some("h".to_string()) });
    assert!(matches!(a, SyncAction::Fail(SyncError::MissingParentCommit)));
}

#[test]
fn sync_without_rebase_or_push() {
    let o = opts(false, false, false);
    let s = begin_sync(meta("f", Some("main"), Some("old")), None);
    let (s, a) = step(&o, s, SyncEvent::Begin { parent_head: None });
    assert!(matches!(a, SyncAction::ReadHeads));
    let (_, a) = step(&o, s, SyncEvent::Heads { local: Some("a".to_string()), remote: None });
    assert!(matches!(a, SyncAction::Finish { restore: None, record: None }));
}

#[test]
fn sync_prunes_merged_current_branch() {
    let o = opts(false, true, true);
    let s = begin_sync(with_pr(meta("f", Some("p"), None), 3), Some("f".to_string()));
    let (s, _) = step(&o, s, SyncEvent::Begin { parent_head: None });
    let (s, a) = step(&o, s, SyncEvent::Heads { local: Some("a".to_string()), remote: Some("a".to_string()) });
    assert!(matches!(a, SyncAction::ReadPrStatus));
    let (s, a) = step(&o, s, SyncEvent::PrStatus { state: Some(PullRequestState::Merged), default_branch: None });
    assert!(matches!(a, SyncAction::Prune { checkout: Some(ref p) } if p == "p"));
    let (_, a) = step(&o, s, SyncEvent::Pruned);
    assert!(matches!(a, SyncAction::Finish { restore: None, record: None }));
}

#[test]
fn sync_prune_cases() {
    let o = opts(false, false, true);
    let start = |m: BranchMeta, initial: Option<&str>| {
        let s = begin_sync(m, initial.map(|i| i.to_string()));
        let (s, _) = step(&o, s, SyncEvent::Begin { parent_head: None });
        let (s, _) = step(&o, s, SyncEvent::Heads { local: None, remote: None });
        s
    };
    let s = start(with_pr(meta("f", None, None), 1), Some("f"));
    let (_, a) = step(&o, s, SyncEvent::PrStatus { state: Some(PullRequestState::Merged), default_branch: Some("main".to_string()) });
    assert!(matches!(a, SyncAction::Prune { checkout: Some(ref d) } if d == "main"));
    let s = start(with_pr(meta("f", None, None), 1), Some("f"));
    let (_, a) = step(&o, s, SyncEvent::PrStatus { state: Some(PullRequestState::Merged), default_branch: None });
    assert!(matches!(a, SyncAction::Fail(SyncError::UnprunableCurrent { ref branch }) if branch == "f"));
    let s = start(with_pr(meta("f", None, None), 1), Some("g"));
    let (_, a) = step(&o, s, SyncEvent::PrStatus { state: Some(PullRequestState::Merged), default_branch: None });
    assert!(matches!(a, SyncAction::Prune { checkout: None }));
    let s = start(with_pr(meta("f", None, None), 1), Some("g"));
    let (_, a) = step(&o, s, SyncEvent::PrStatus { state: Some(PullRequestState::Open), default_branch: None });
    assert!(matches!(a, SyncAction::Finish { restore: None, record: None }));
    let o2 = opts(false, false, false);
    let s = begin_sync(with_pr(meta("f", None, None), 1), None);
    let (s, _) = step(&o2, s, SyncEvent::Begin { parent_head: None });
    let (s, _) = step(&o2, s, SyncEvent::Heads { local: None, remote: None });
    let (_, a) = step(&o2, s, SyncEvent::PrStatus { state: Some(PullRequestState::Merged), default_branch: None });
    assert!(matches!(a, SyncAction::Finish { .. }));
}

#[test]
fn submit_plan_creates_updates_and_stops() {
    let a = meta("a", Some("main"), None);
    let b = with_pr(meta("b", Some("a"), None), 7);
    let r = meta("r", None, None);
    let selected = vec![&a, &b, &r];
    let plan = submit_plan(&selected, &Some("trunk".to_string()));
    assert_eq!(plan.len(), 3);
    assert!(matches!(plan[0], SubmitAction::Create { ref branch, ref base } if branch == "a" && base == "main"));
    assert!(matches!(plan[1], SubmitAction::Update { ref branch, ref pr_id, number: 7, base: Some(ref base) }
        if branch == "b" && pr_id == "PR_7" && base == "a"));
    assert!(matches!(plan[2], SubmitAction::Create { ref branch, ref base } if branch == "r" && base == "trunk"));
    let plan = submit_plan(&vec![&r], &None);
    assert!(matches!(plan[0], SubmitAction::MissingBase { ref branch } if branch == "r"));
    assert!(submit_plan(&Vec::new(), &None).is_empty());
}

#[test]
fn sync_branch_without_parent_skips_rebase() {
    let o = opts(true, true, false);
    let s = begin_sync(meta("f", None, None), None);
    let (_, a) = step(&o, s, SyncEvent::Begin { parent_head: None });
    assert!(matches!(a, SyncAction::ReadHeads));
}

#[test]
fn sync_push_decisions() {
    let o = opts(false, true, false);
    let heads = |l: Option<&str>, r: Option<&str>| {
        let s = begin_sync(meta("f", None, None), None);
        let (s, _) = step(&o, s, SyncEvent::Begin { parent_head: None });
        let (_, a) = step(&o, s, SyncEvent::Heads { local: l.map(|x| x.to_string()), remote: r.map(|x| x.to_string()) });
        a
    };
    assert!(matches!(heads(Some("a"), Some("b")), SyncAction::Push { force: false }));
    assert!(matches!(heads(Some("a"), None), SyncAction::Push { force: false }));
    assert!(matches!(heads(Some("a"), Some("a")), SyncAction::Finish { .. }));
    assert!(matches!(heads(None, Some("a")), SyncAction::Finish { .. }));
    assert!(matches!(heads(None, None), SyncAction::Finish { .. }));
}
