use av_rs::gh::types::{GhOwner, GhRepositoryDetails};
use av_rs::meta::db::JsonFileDb;
use av_rs::meta::types::{BranchMeta, MetadataState, PullRequestMeta};

fn meta(name: &str, parent: Option<&str>, head: &str) -> BranchMeta {
    BranchMeta {
        name: name.to_string(),
        parent_branch: parent.map(|p| p.to_string()),
        parent_commit: None,
        head_commit: head.to_string(),
        pull_request: None,
    }
}

#[test]
fn new_state_is_empty() {
    let s = MetadataState::new();
    assert!(s.repository().is_none());
    assert!(s.branch("main").is_none());
    assert_eq!(s.branches.len(), 0);
}

#[test]
fn upsert_then_read_back() {
    let mut s = MetadataState::new();
    s.upsert_branch(meta("feature", Some("main"), "abc"));
    let b = s.branch("feature").expect("recorded branch is found");
    assert_eq!(b.name, "feature");
    assert_eq!(b.parent_branch.as_deref(), Some("main"));
    assert_eq!(b.head_commit, "abc");
    assert!(s.branch("other").is_none());
}

#[test]
fn upsert_replaces_record_of_same_name() {
    let mut s = MetadataState::new();
    s.upsert_branch(meta("feature", Some("main"), "abc"));
    s.upsert_branch(meta("other", None, "111"));
    s.upsert_branch(meta("feature", Some("dev"), "def"));
    assert_eq!(s.branches.len(), 2);
    let b = s.branch("feature").unwrap();
    assert_eq!(b.head_commit, "def");
    assert_eq!(b.parent_branch.as_deref(), Some("dev"));
    assert_eq!(s.branch("other").unwrap().head_commit, "111");
}

#[test]
fn delete_returns_record_and_forgets_it() {
    let mut s = MetadataState::new();
    s.upsert_branch(meta("a", None, "1"));
    s.upsert_branch(meta("b", Some("a"), "2"));
    let gone = s.delete_branch("a").expect("a was tracked");
    assert_eq!(gone.head_commit, "1");
    assert!(s.branch("a").is_none());
    assert_eq!(s.branch("b").unwrap().head_commit, "2");
    assert!(s.delete_branch("a").is_none());
    assert!(s.delete_branch("missing").is_none());
}

#[test]
fn delete_undoes_upsert_of_new_branch() {
    let mut s = MetadataState::new();
    s.upsert_branch(meta("a", None, "1"));
    s.upsert_branch(meta("new", Some("a"), "9"));
    s.delete_branch("new");
    assert_eq!(s.branches.len(), 1);
    assert_eq!(s.branch("a").unwrap().head_commit, "1");
}

#[test]
fn set_repository_then_read_back() {
    let mut s = MetadataState::new();
    s.set_repository(GhRepositoryDetails {
        id: "R_1".to_string(),
        owner: GhOwner { login: "octo".to_string() },
        name: "repo".to_string(),
    });
    let r = s.repository().unwrap();
    assert_eq!(r.id, "R_1");
    assert_eq!(r.owner.login, "octo");
    assert_eq!(r.name, "repo");
}

#[test]
fn default_state_is_empty() {
    let s = MetadataState::default();
    assert!(s.repository.is_none());
    assert!(s.branches.is_empty());
}

#[test]
fn pull_request_survives_upsert() {
    let mut s = MetadataState::new();
    let mut b = meta("a", None, "1");
    b.pull_request = Some(PullRequestMeta { id: "PR_1".to_string(), number: 7, permalink: "https://x/7".to_string() });
    s.upsert_branch(b);
    assert_eq!(s.branch("a").unwrap().pull_request.as_ref().unwrap().number, 7);
}

#[test]
fn metadata_paths() {
    let db = JsonFileDb::new("/repo/.git");
    assert_eq!(db.av_metadata_dir(), "/repo/.git/av");
    assert_eq!(db.metadata_file_path(), "/repo/.git/av/av_metadata.json");
    let db2 = JsonFileDb::new("/repo/.git/");
    assert_eq!(db2.metadata_file_path(), "/repo/.git/av/av_metadata.json");
    let db3 = JsonFileDb::new("");
    assert_eq!(db3.metadata_file_path(), "av/av_metadata.json");
}
