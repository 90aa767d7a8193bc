use av_rs::config::env::{aviator_setting, github_token_setting, nested_setting};
use av_rs::config::settings::default_remote;
use av_rs::config::user_state::UserState;
use av_rs::config::{AvConfig, AviatorConfig, GitHubConfig, PullRequestConfig};
use av_rs::gh::client::{check_status, graphql_result, join_messages, GhClient, GhError};
use av_rs::gh::types::PullRequestState;
use av_rs::utils::paths::join_path;
use av_rs::utils::text::{insert_sorted, text_precedes};

#[test]
fn config_defaults() {
    let pr = PullRequestConfig::default();
    assert!(!pr.draft && pr.open_browser && pr.rebase_with_draft.is_none());
    assert!(!pr.no_wip_detection && pr.branch_name_prefix.is_none() && !pr.write_stack);
    let av = AviatorConfig::default();
    assert_eq!(av.api_host.as_deref(), Some("https://api.aviator.co"));
    assert!(av.api_token.is_none());
    let gh = GitHubConfig::default();
    assert!(gh.token.is_none() && gh.base_url.is_none());
    let c = AvConfig::default();
    assert!(c.additional_trunk_branches.is_empty());
    assert!(c.remote.is_none());
    assert!(c.pull_request.open_browser);
    assert!(!UserState::default().notified_stack_sync_change);
    assert!(PullRequestState::default() == PullRequestState::Unknown);
}

#[test]
fn remote_defaults_to_origin() {
    let mut c = AvConfig::default();
    assert_eq!(default_remote(&c), "origin");
    c.remote = Some("upstream".to_string());
    assert_eq!(default_remote(&c), "upstream");
}

#[test]
fn env_settings() {
    assert_eq!(github_token_setting("AV_GITHUB_TOKEN", true).as_deref(), Some("github.token"));
    assert_eq!(github_token_setting("GITHUB_TOKEN", true), None);
    assert_eq!(github_token_setting("GITHUB_TOKEN", false).as_deref(), Some("github.token"));
    assert_eq!(github_token_setting("AV_GITHUB_TOKEN", false), None);
    assert_eq!(aviator_setting("AV_API_TOKEN").as_deref(), Some("aviator.api_token"));
    assert_eq!(aviator_setting("AV_API_HOST").as_deref(), Some("aviator.api_host"));
    assert_eq!(aviator_setting("AV_OTHER"), None);
    assert_eq!(nested_setting("pull_request__draft"), "pull_request.draft");
    assert_eq!(nested_setting("a___b"), "a._b");
    assert_eq!(nested_setting("remote"), "remote");
    assert_eq!(nested_setting("____"), "..");
}

#[test]
fn client_endpoint_and_header() {
    let c = GhClient::new("tok", None);
    assert_eq!(c.graphql_url(), "https://api.github.com/graphql");
    assert_eq!(c.authorization(), "bearer tok");
    let e = GhClient::new("t2", Some("https://ghe.example/api"));
    assert_eq!(e.graphql_url(), "https://ghe.example/api/graphql");
}

#[test]
fn status_check() {
    assert!(check_status(200, String::new()).is_ok());
    assert!(check_status(299, String::new()).is_ok());
    assert!(matches!(check_status(404, "nf".to_string()), Err(GhError::RequestFailed { status: 404, ref body }) if body == "nf"));
    assert!(check_status(199, String::new()).is_err());
    assert!(check_status(300, String::new()).is_err());
}

#[test]
fn graphql_replies() {
    assert!(matches!(graphql_result(None, Some(5)), Ok(5)));
    assert!(matches!(graphql_result(Some(Vec::new()), Some(5)), Ok(5)));
    assert!(matches!(graphql_result::<i32>(None, None), Err(GhError::MissingData)));
    let r = graphql_result(Some(vec!["a".to_string(), "b".to_string()]), Some(5));
    assert!(matches!(r, Err(GhError::GraphQl { ref messages }) if messages == "a, b"));
    assert_eq!(join_messages(&vec!["x".to_string()]), "x");
    assert_eq!(join_messages(&Vec::new()), "");
}

#[test]
fn text_order_matches_string_order() {
    let words = ["", "a", "b", "ab", "ba", "Z", "é", "a b", "abc"];
    for x in words.iter() {
        for y in words.iter() {
            assert_eq!(text_precedes(x, y), x < y, "{} vs {}", x, y);
        }
    }
}

#[test]
fn sorted_insertion() {
    let mut v: Vec<String> = Vec::new();
    for w in ["m", "c", "x", "a", "d"] {
        insert_sorted(&mut v, w.to_string());
    }
    assert_eq!(v, vec!["a", "c", "d", "m", "x"]);
}

#[test]
fn path_joining() {
    assert_eq!(join_path("/a", "b"), "/a/b");
    assert_eq!(join_path("/a/", "b"), "/a/b");
    assert_eq!(join_path("", "b"), "b");
}
