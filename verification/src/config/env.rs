//! How environment variables name settings.
use vstd::prelude::*;
use vstd::string::*;

use crate::utils::text::same_text;

verus! {

/// The setting that the GitHub token variable `key` fills: `github.token` for
/// `AV_GITHUB_TOKEN` when that variable is set, else for `GITHUB_TOKEN`.
pub fn github_token_setting(key: &str, av_token_set: bool) -> (r: Option<String>)
    ensures
        r is Some <==> key@ == (if av_token_set {
            "AV_GITHUB_TOKEN"@
        } else {
            "GITHUB_TOKEN"@
        }),
        r matches Some(s) ==> s@ == "github.token"@,
{
    let source = if av_token_set {
        "AV_GITHUB_TOKEN"
    } else {
        "GITHUB_TOKEN"
    };
    if same_text(key, source) {
        Some(String::from_str("github.token"))
    } else {
        None
    }
}

/// The Aviator setting that the variable `key` fills, if any.
pub fn aviator_setting(key: &str) -> (r: Option<String>)
    ensures
        key@ == "AV_API_TOKEN"@ ==> (r matches Some(s) && s@ == "aviator.api_token"@),
        key@ == "AV_API_HOST"@ ==> (r matches Some(s) && s@ == "aviator.api_host"@),
        key@ != "AV_API_TOKEN"@ && key@ != "AV_API_HOST"@ ==> r is None,
{
    proof {
        reveal_strlit("AV_API_TOKEN");
        reveal_strlit("AV_API_HOST");
        assert("AV_API_TOKEN"@.len() != "AV_API_HOST"@.len());
    }
    if same_text(key, "AV_API_TOKEN") {
        Some(String::from_str("aviator.api_token"))
    } else if same_text(key, "AV_API_HOST") {
        Some(String::from_str("aviator.api_host"))
    } else {
        None
    }
}

/// `s` with each `__`, read from the left, turned into `.`.
pub open spec fn nest_key(s: Seq<char>) -> Seq<char>
    decreases s.len(),
{
    if s.len() == 0 {
        s
    } else if s.len() >= 2 && s[0] == '_' && s[1] == '_' {
        seq!['.'] + nest_key(s.skip(2))
    } else {
        seq![s[0]] + nest_key(s.drop_first())
    }
}

/// The setting path that the key of an `AV_` variable names: `__` marks
/// nesting, as in `pull_request__draft` for `pull_request.draft`.
pub fn nested_setting(key: &str) -> (r: String)
    ensures
        r@ == nest_key(key@),
{
    let n = key.unicode_len();
    let mut out = String::new();
    let mut i: usize = 0;
    proof {
        reveal_strlit(".");
        assert(key@.skip(0) =~= key@);
    }
    while i < n
        invariant
            n == key@.len(),
            i <= n,
            out@ + nest_key(key@.skip(i as int)) == nest_key(key@),
        decreases n - i,
    {
        let ghost rest = key@.skip(i as int);
        let ghost prev = out@;
        if i + 1 < n && key.get_char(i) == '_' && key.get_char(i + 1) == '_' {
            out.append(".");
            proof {
                reveal_strlit(".");
                assert(out@ == prev + seq!['.']);
                assert(rest[0] == '_' && rest[1] == '_');
                assert(rest.skip(2) =~= key@.skip(i + 2));
                assert(nest_key(rest) == seq!['.'] + nest_key(rest.skip(2)));
                assert(out@ + nest_key(key@.skip(i + 2)) =~= nest_key(key@));
            }
            i = i + 2;
        } else {
            out.append(key.substring_char(i, i + 1));
            proof {
                assert(rest.drop_first() =~= key@.skip(i + 1));
                assert(key@.subrange(i as int, i + 1) =~= seq![rest[0]]);
                assert(nest_key(rest) == seq![rest[0]] + nest_key(rest.drop_first()));
                assert(out@ + nest_key(key@.skip(i + 1)) =~= nest_key(key@));
            }
            i = i + 1;
        }
    }
    proof {
        assert(key@.skip(n as int) =~= Seq::<char>::empty());
        assert(out@ =~= out@ + nest_key(key@.skip(n as int)));
    }
    out
}

} // verus!
