pub mod env;
pub mod settings;
pub mod user_state;

pub use settings::{AvConfig, AviatorConfig, GitHubConfig, PullRequestConfig};
