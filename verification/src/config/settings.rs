//! av's settings and their defaults.
use vstd::prelude::*;
use vstd::string::*;

verus! {

pub struct GitHubConfig {
    pub token: Option<String>,
    pub base_url: Option<String>,
}

pub struct PullRequestConfig {
    pub draft: bool,
    pub open_browser: bool,
    pub rebase_with_draft: Option<bool>,
    pub no_wip_detection: bool,
    pub branch_name_prefix: Option<String>,
    pub write_stack: bool,
}

pub struct AviatorConfig {
    pub api_host: Option<String>,
    pub api_token: Option<String>,
}

pub struct AvConfig {
    pub pull_request: PullRequestConfig,
    pub github: GitHubConfig,
    pub aviator: AviatorConfig,
    pub additional_trunk_branches: Vec<String>,
    pub remote: Option<String>,
}

impl Default for GitHubConfig {
    /// No token and GitHub's own API.
    fn default() -> (c: Self)
        ensures
            c.token is None,
            c.base_url is None,
    {
        GitHubConfig { token: None, base_url: None }
    }
}

impl Default for PullRequestConfig {
    /// Pull requests are not drafts and are opened in the browser.
    fn default() -> (c: Self)
        ensures
            !c.draft,
            c.open_browser,
            c.rebase_with_draft is None,
            !c.no_wip_detection,
            c.branch_name_prefix is None,
            !c.write_stack,
    {
        PullRequestConfig {
            draft: false,
            open_browser: true,
            rebase_with_draft: None,
            no_wip_detection: false,
            branch_name_prefix: None,
            write_stack: false,
        }
    }
}

impl Default for AviatorConfig {
    /// Aviator's public API and no token.
    fn default() -> (c: Self)
        ensures
            c.api_host matches Some(h) && h@ == "https://api.aviator.co"@,
            c.api_token is None,
    {
        AviatorConfig { api_host: Some(String::from_str("https://api.aviator.co")), api_token: None }
    }
}

impl Default for AvConfig {
    /// Every part at its default, no extra trunk branches and no remote.
    fn default() -> (c: Self)
        ensures
            !c.pull_request.draft,
            c.pull_request.open_browser,
            c.pull_request.rebase_with_draft is None,
            !c.pull_request.no_wip_detection,
            c.pull_request.branch_name_prefix is None,
            !c.pull_request.write_stack,
            c.github.token is None,
            c.github.base_url is None,
            c.aviator.api_host matches Some(h) && h@ == "https://api.aviator.co"@,
            c.aviator.api_token is None,
            c.additional_trunk_branches@.len() == 0,
            c.remote is None,
    {
        AvConfig {
            pull_request: PullRequestConfig::default(),
            github: GitHubConfig::default(),
            aviator: AviatorConfig::default(),
            additional_trunk_branches: Vec::new(),
            remote: None,
        }
    }
}

/// The remote av works with: the configured one, else `origin`.
pub fn default_remote(config: &AvConfig) -> (r: String)
    ensures
        r@ == match config.remote {
            Some(x) => x@,
            None => "origin"@,
        },
{
    match &config.remote {
        Some(x) => x.clone(),
        None => String::from_str("origin"),
    }
}

} // verus!
