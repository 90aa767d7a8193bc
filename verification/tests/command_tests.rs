use av_rs::actions::pr::{push_refspec, record_pull_request, RecordPrError};
use av_rs::actions::tidy::{branches_kept_for_parenting, delete_refspec, tidy_checkout_target, tidy_verdict, TidyVerdict};
use av_rs::commands::branch::track_new_branch;
use av_rs::commands::commit::{amend_message, check_commit_opts, record_commit, CommitError, CommitOpts};
use av_rs::commands::init::{init_write, parse_github_slug, SlugError};
use av_rs::gh::types::{GhOwner, GhRepositoryDetails};
use av_rs::meta::db::JsonFileDb;
use av_rs::commands::pr::{pr_body, pr_create_base, pr_title, PrCreateError};
use av_rs::commands::stack::{
    first_line, rebase_conflicted, recorded_head, submission_body, submission_title,
};
use av_rs::commands::tidy::tidy_remote;
use av_rs::gh::types::{PullRequestNode, PullRequestState};
use av_rs::meta::types::{BranchMeta, MetadataState, PullRequestMeta};

fn meta(name: &str, parent: Option<&str>) -> BranchMeta {
    BranchMeta {
        name: name.to_string(),
        parent_branch: parent.map(|p| p.to_string()),
        parent_commit: None,
        head_commit: format!("{}-head", name),
        pull_request: None,
    }
}

fn slug(url: &str) -> Result<(String, String), SlugError> {
    parse_github_slug(url)
}

#[test]
fn slug_from_ssh_url() {
    assert!(matches!(slug("git@github.com:owner/repo.git"), Ok((ref o, ref r)) if o == "owner" && r == "repo"));
}

#[test]
fn slug_from_https_url() {
    assert!(matches!(slug("https://github.com/owner/repo.git"), Ok((ref o, ref r)) if o == "owner" && r == "repo"));
    assert!(matches!(slug("https://github.com/owner/repo"), Ok((ref o, ref r)) if o == "owner" && r == "repo"));
}

#[test]
fn slug_trims_every_trailing_git() {
    assert!(matches!(slug("https://github.com/owner/repo.git.git"), Ok((ref o, ref r)) if o == "owner" && r == "repo"));
}

#[test]
fn slug_of_non_github_url() {
    assert!(matches!(slug("https://gitlab.com/owner/repo.git"), Err(SlugError::NotGitHubUrl)));
    assert!(matches!(slug(""), Err(SlugError::NotGitHubUrl)));
}

#[test]
fn slug_not_owner_repo() {
    assert!(matches!(slug("https://github.com/owner"), Err(SlugError::NotOwnerRepo { ref slug }) if slug == "owner"));
    assert!(matches!(slug("https://github.com/a/b/c"), Err(SlugError::NotOwnerRepo { ref slug }) if slug == "a/b/c"));
    assert!(matches!(slug("https://github.com//repo"), Err(SlugError::NotOwnerRepo { .. })));
    assert!(matches!(slug("https://github.com/owner/.git"), Err(SlugError::NotOwnerRepo { ref slug }) if slug == "owner/"));
}

#[test]
fn slug_segment_stops_at_next_marker() {
    assert!(matches!(slug("https://github.com/o/rgithub.com/x"), Ok((ref o, ref r)) if o == "o" && r == "r"));
}

#[test]
fn ssh_marker_wins() {
    assert!(matches!(slug("https://github.com/x/github.com:own/rep"), Ok((ref o, ref r)) if o == "own" && r == "rep"));
}

#[test]
fn init_metadata_path() {
    let mut state = MetadataState::new();
    state.upsert_branch(meta("f", Some("main")));
    let details = GhRepositoryDetails {
        id: "R_1".to_string(),
        owner: GhOwner { login: "octo".to_string() },
        name: "repo".to_string(),
    };
    let (path, written) = init_write("/r/.git", state, details);
    assert_eq!(path, "/r/.git/av/av_metadata.json");
    assert_eq!(path, JsonFileDb::new("/r/.git").metadata_file_path());
    let repo = written.repository().expect("repository details are set");
    assert_eq!(repo.id, "R_1");
    assert_eq!(repo.owner.login, "octo");
    assert_eq!(repo.name, "repo");
    assert!(written.branch("f").is_some());
}

#[test]
fn recorded_head_of_parent() {
    let mut s = MetadataState::new();
    s.upsert_branch(meta("p", None));
    assert_eq!(recorded_head(&s, "p"), Some("p-head".to_string()));
    assert_eq!(recorded_head(&s, "q"), None);
}

#[test]
fn conflict_messages() {
    assert!(rebase_conflicted("error: Merge conflict in a.txt"));
    assert!(rebase_conflicted("hint: Resolve all conflicts manually"));
    assert!(rebase_conflicted("Staged 'x' using previous resolution. applied an RERERE"));
    assert!(!rebase_conflicted("could not lock ref"));
}

#[test]
fn first_line_of_message() {
    assert_eq!(first_line("one\ntwo"), "one");
    assert_eq!(first_line("single"), "single");
    assert_eq!(first_line("\nrest"), "");
    assert_eq!(first_line(""), "");
}

#[test]
fn submission_texts() {
    assert_eq!(submission_title("feat", "h", "h", Some("Summary".to_string())), "feat");
    assert_eq!(submission_title("feat", "h", "p", Some("Summary".to_string())), "Summary");
    assert_eq!(submission_title("feat", "h", "p", None), "feat");
    assert_eq!(submission_body("feat"), "PR for branch feat.");
}

#[test]
fn pr_create_checks() {
    let mut s = MetadataState::new();
    s.upsert_branch(meta("f", Some("main")));
    s.upsert_branch(meta("orphan", None));
    let mut withpr = meta("done", Some("main"));
    withpr.pull_request = Some(PullRequestMeta { id: "I".to_string(), number: 3, permalink: "P".to_string() });
    s.upsert_branch(withpr);
    assert!(matches!(pr_create_base(&s, "main", true), Err(PrCreateError::TrunkBranch)));
    assert!(matches!(pr_create_base(&s, "nope", false), Err(PrCreateError::NotTracked)));
    assert!(matches!(pr_create_base(&s, "done", false), Err(PrCreateError::AlreadyHasPr { number: 3 })));
    assert!(matches!(pr_create_base(&s, "orphan", false), Err(PrCreateError::NoParent)));
    assert!(matches!(pr_create_base(&s, "f", false), Ok(ref b) if b == "main"));
}

#[test]
fn pr_texts() {
    assert_eq!(pr_title(Some("T".to_string()), "f", Some("S".to_string())), "T");
    assert_eq!(pr_title(None, "f", Some("S".to_string())), "S");
    assert_eq!(pr_title(None, "f", None), "PR for f");
    assert_eq!(pr_body(None), "");
    assert_eq!(pr_body(Some("B".to_string())), "B");
}

#[test]
fn commit_checks() {
    assert!(matches!(check_commit_opts(&CommitOpts { message: None, amend: false }), Err(CommitError::MessageRequired)));
    assert!(check_commit_opts(&CommitOpts { message: None, amend: true }).is_ok());
    assert!(check_commit_opts(&CommitOpts { message: Some("m".to_string()), amend: false }).is_ok());
    assert_eq!(amend_message(&Some("new".to_string()), Some("old".to_string())), "new");
    assert_eq!(amend_message(&None, Some("old".to_string())), "old");
    assert_eq!(amend_message(&None, None), "");
}

#[test]
fn commit_moves_head() {
    let mut s = MetadataState::new();
    s.upsert_branch(meta("f", Some("main")));
    assert_eq!(record_commit(&mut s, "f", "n1".to_string()), Some("f-head".to_string()));
    assert_eq!(s.branch("f").unwrap().head_commit, "n1");
    assert_eq!(s.branch("f").unwrap().parent_branch.as_deref(), Some("main"));
    assert_eq!(record_commit(&mut s, "g", "n2".to_string()), None);
    assert!(s.branch("g").is_none());
}

#[test]
fn new_branch_is_tracked() {
    let mut s = MetadataState::new();
    track_new_branch(&mut s, "f".to_string(), "main".to_string(), "ph".to_string(), "ph".to_string());
    let b = s.branch("f").unwrap();
    assert_eq!(b.parent_branch.as_deref(), Some("main"));
    assert_eq!(b.parent_commit.as_deref(), Some("ph"));
    assert_eq!(b.head_commit, "ph");
    assert!(b.pull_request.is_none());
}

#[test]
fn pull_request_is_recorded() {
    let mut s = MetadataState::new();
    s.upsert_branch(meta("f", Some("main")));
    let node = PullRequestNode { id: "PR_9".to_string(), number: 9, permalink: "https://gh/9".to_string() };
    let pr = record_pull_request(&mut s, "f", node).ok().unwrap();
    assert_eq!(pr.number, 9);
    assert_eq!(pr.id, "PR_9");
    let stored = s.branch("f").unwrap().pull_request.as_ref().unwrap();
    assert_eq!(stored.permalink, "https://gh/9");
    assert_eq!(s.branch("f").unwrap().head_commit, "f-head");
    let node2 = PullRequestNode { id: "X".to_string(), number: 1, permalink: "Y".to_string() };
    assert!(matches!(record_pull_request(&mut s, "g", node2), Err(RecordPrError::BranchNotTracked)));
}

#[test]
fn refspecs() {
    assert_eq!(push_refspec("f"), "refs/heads/f:refs/heads/f");
    assert_eq!(delete_refspec("f"), ":refs/heads/f");
}

#[test]
fn tidy_keeps_parents() {
    let mut s = MetadataState::new();
    s.upsert_branch(meta("a", Some("main")));
    s.upsert_branch(meta("b", Some("a")));
    s.upsert_branch(meta("c", Some("a")));
    s.upsert_branch(meta("d", Some("b")));
    let mut kept = branches_kept_for_parenting(&s);
    kept.sort();
    assert_eq!(kept, vec!["a".to_string(), "b".to_string()]);
    assert!(matches!(tidy_verdict("a", &PullRequestState::Merged, &kept), TidyVerdict::KeepAsParent));
    assert!(matches!(tidy_verdict("c", &PullRequestState::Closed, &kept), TidyVerdict::Remove));
    assert!(matches!(tidy_verdict("c", &PullRequestState::Open, &kept), TidyVerdict::Keep));
    assert!(matches!(tidy_verdict("c", &PullRequestState::Unknown, &kept), TidyVerdict::Keep));
}

#[test]
fn tidy_targets() {
    assert_eq!(tidy_checkout_target(Some("p".to_string()), Some("d".to_string()), None), "p");
    assert_eq!(tidy_checkout_target(None, Some("d".to_string()), Some("o".to_string())), "d");
    assert_eq!(tidy_checkout_target(None, None, Some("o".to_string())), "o");
    assert_eq!(tidy_checkout_target(None, None, None), "main");
    assert_eq!(tidy_remote(&Some("up".to_string()), &Some("cfg".to_string())), "up");
    assert_eq!(tidy_remote(&None, &Some("cfg".to_string())), "cfg");
    assert_eq!(tidy_remote(&None, &None), "origin");
}
