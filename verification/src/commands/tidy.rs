//! `av tidy`: the remote it works with.
use vstd::prelude::*;
use vstd::string::*;

verus! {

pub struct TidyCliOpts {
    pub dry_run: bool,
    pub remote: Option<String>,
}

/// The remote to fetch from and delete on: the one given, else the
/// configured one, else `origin`.
pub fn tidy_remote(given: &Option<String>, configured: &Option<String>) -> (r: String)
    ensures
        r@ == match (given, configured) {
            (Some(g), _) => g@,
            (None, Some(c)) => c@,
            (None, None) => "origin"@,
        },
{
    match given {
        Some(g) => g.clone(),
        None => match configured {
            Some(c) => c.clone(),
            None => String::from_str("origin"),
        },
    }
}

} // verus!
