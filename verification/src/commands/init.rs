//! Reading the GitHub owner and repository name out of a remote URL.
use vstd::prelude::*;
use vstd::string::*;

use crate::utils::search::{first_occurrence_from, find_from, occurs_at, occurs_from, trim_end_all, trimmed_len};
use crate::meta::db::{metadata_path, JsonFileDb};
use crate::meta::types::{MetadataState, RepositoryMeta};
use crate::utils::text::chars_of;

verus! {

/// Why a remote URL names no GitHub repository.
pub enum SlugError {
    /// The URL holds neither `github.com:` nor `github.com/`.
    NotGitHubUrl,
    /// What follows the host, once trailing `.git` is removed, is not `owner/repo`.
    NotOwnerRepo { slug: String },
}

/// The host marker that decides how `url` is read: the SSH form is tried first.
pub open spec fn github_marker(url: Seq<char>) -> Option<Seq<char>> {
    if occurs_from(url, "github.com:"@, 0) {
        Some("github.com:"@)
    } else if occurs_from(url, "github.com/"@, 0) {
        Some("github.com/"@)
    } else {
        None
    }
}

/// The part of `url` after the first occurrence of `marker`, up to the next
/// occurrence of `marker` or the end.
pub open spec fn segment_after(url: Seq<char>, marker: Seq<char>) -> Seq<char> {
    let i = choose|i: int| first_occurrence_from(url, marker, 0, i);
    let start = i + marker.len();
    let end = if occurs_from(url, marker, start) {
        choose|j: int| first_occurrence_from(url, marker, start, j)
    } else {
        url.len() as int
    };
    url.subrange(start, end)
}

/// The slug of `url`: the segment after the host, without trailing `.git`.
pub open spec fn slug_of(url: Seq<char>, marker: Seq<char>) -> Seq<char> {
    trim_end_all(segment_after(url, marker), ".git"@)
}

/// `s` holds one `/`, at position `k`.
pub open spec fn single_slash_at(s: Seq<char>, k: int) -> bool {
    &&& 0 <= k < s.len()
    &&& s[k] == '/'
    &&& forall|j: int| 0 <= j < s.len() && j != k ==> #[trigger] s[j] != '/'
}

/// Owner and name of a slug of the form `owner/repo`, both non-empty.
pub open spec fn owner_and_repo(s: Seq<char>) -> Option<(Seq<char>, Seq<char>)> {
    if exists|k: int| #[trigger] single_slash_at(s, k) && 0 < k && k + 1 < s.len() {
        let k = choose|k: int| #[trigger] single_slash_at(s, k) && 0 < k && k + 1 < s.len();
        Some((s.subrange(0, k), s.subrange(k + 1, s.len() as int)))
    } else {
        None
    }
}

proof fn lemma_first_occurrence_unique(s: Seq<char>, p: Seq<char>, from: int, i: int, j: int)
    requires
        first_occurrence_from(s, p, from, i),
        first_occurrence_from(s, p, from, j),
    ensures
        i == j,
{
    if i < j {
        assert(!occurs_at(s, p, i));
    } else if j < i {
        assert(!occurs_at(s, p, j));
    }
}

/// Reads `(owner, repo)` out of a GitHub remote URL such as
/// `git@github.com:owner/repo.git` or `https://github.com/owner/repo`.
pub fn parse_github_slug(url: &str) -> (r: Result<(String, String), SlugError>)
    ensures
        github_marker(url@) is None <==> r is Err && r->Err_0 is NotGitHubUrl,
        github_marker(url@) matches Some(m) ==> match r {
            Ok((owner, repo)) => owner_and_repo(slug_of(url@, m)) == Some((owner@, repo@)),
            Err(SlugError::NotOwnerRepo { slug }) => slug@ == slug_of(url@, m) && owner_and_repo(
                slug_of(url@, m),
            ) is None,
            Err(SlugError::NotGitHubUrl) => false,
        },
{
    let s = chars_of(url);
    let ssh = chars_of("github.com:");
    let https = chars_of("github.com/");
    let marker = match find_from(&s, &ssh, 0) {
        Some(_) => ssh,
        None => match find_from(&s, &https, 0) {
            Some(_) => https,
            None => {
                return Err(SlugError::NotGitHubUrl);
            },
        },
    };
    let ghost m = marker@;
    assert(github_marker(url@) == Some(m));
    let i = match find_from(&s, &marker, 0) {
        Some(i) => i,
        None => {
            return Err(SlugError::NotGitHubUrl);
        },
    };
    assert(occurs_at(s@, marker@, i as int));
    let s_len = s.len();
    assert(occurs_at(s@, marker@, i as int));
    assert(i + marker@.len() <= s_len);
    let start = i + marker.len();
    let end = match find_from(&s, &marker, start) {
        Some(j) => j,
        None => s.len(),
    };
    proof {
        let ci = choose|i: int| first_occurrence_from(url@, m, 0, i);
        lemma_first_occurrence_unique(url@, m, 0, i as int, ci);
        if occurs_from(url@, m, start as int) {
            let cj = choose|j: int| first_occurrence_from(url@, m, start as int, j);
            lemma_first_occurrence_unique(url@, m, start as int, end as int, cj);
        }
    }
    let segment = url.substring_char(start, end);
    let seg = chars_of(segment);
    let git = chars_of(".git");
    let t_len = trimmed_len(&seg, &git);
    let trimmed = segment.substring_char(0, t_len);
    let t = chars_of(trimmed);
    let ghost ts = t@;
    assert(ts == slug_of(url@, m));
    let slash = chars_of("/");
    proof {
        reveal_strlit("/");
    }
    match find_from(&t, &slash, 0) {
        Some(k) => {
            let rest = find_from(&t, &slash, k + 1);
            proof {
                assert(t@.subrange(k as int, k + 1)[0] == '/');
            }
            if rest.is_none() && k > 0 && k + 1 < t.len() {
                proof {
                    assert forall|j: int| 0 <= j < ts.len() && j != k implies #[trigger] ts[j] != '/' by {
                        if ts[j] == '/' {
                            assert(ts.subrange(j, j + 1) =~= "/"@);
                            assert(occurs_at(ts, slash@, j));
                        }
                    }
                    assert(single_slash_at(ts, k as int));
                    let ck = choose|c: int| #[trigger] single_slash_at(ts, c) && 0 < c && c + 1 < ts.len();
                    if ck != k {
                        assert(ts[ck] == '/');
                    }
                }
                let owner = String::from_str(trimmed.substring_char(0, k));
                let repo = String::from_str(trimmed.substring_char(k + 1, t.len()));
                Ok((owner, repo))
            } else {
                proof {
                    if exists|c: int| #[trigger] single_slash_at(ts, c) && 0 < c && c + 1 < ts.len() {
                        let c = choose|c: int| #[trigger] single_slash_at(ts, c) && 0 < c && c + 1 < ts.len();
                        if c != k {
                            assert(ts[k as int] == '/');
                        }
                        if let Some(r2) = rest {
                            assert(ts.subrange(r2 as int, r2 + 1)[0] == '/');
                            assert(ts[r2 as int] == '/');
                        }
                    }
                }
                Err(SlugError::NotOwnerRepo { slug: String::from_str(trimmed) })
            }
        },
        None => {
            proof {
                if exists|c: int| #[trigger] single_slash_at(ts, c) && 0 < c && c + 1 < ts.len() {
                    let c = choose|c: int| #[trigger] single_slash_at(ts, c) && 0 < c && c + 1 < ts.len();
                    assert(ts.subrange(c, c + 1) =~= "/"@);
                    assert(occurs_at(ts, slash@, c));
                }
            }
            Err(SlugError::NotOwnerRepo { slug: String::from_str(trimmed) })
        },
    }
}

/// `s` ends with `t`.
pub open spec fn ends_with(s: Seq<char>, t: Seq<char>) -> bool {
    t.len() <= s.len() && s.subrange(s.len() - t.len(), s.len() as int) == t
}

/// `c` does not occur in `s`.
pub open spec fn free_of(s: Seq<char>, c: char) -> bool {
    forall|i: int| 0 <= i < s.len() ==> s[i] != c
}

/// An occurrence of `p` in `s` at `j` puts `p[k]` at `j + k`.
proof fn lemma_occurrence_char(s: Seq<char>, p: Seq<char>, j: int, k: int)
    requires
        occurs_at(s, p, j),
        0 <= k < p.len(),
    ensures
        s[j + k] == p[k],
{
    assert(s.subrange(j, j + p.len())[k] == s[j + k]);
}

/// An occurrence of `p` in `host + tail` that starts inside `tail` is one in `tail`.
proof fn lemma_occurrence_in_tail(host: Seq<char>, tail: Seq<char>, p: Seq<char>, j: int)
    requires
        occurs_at(host + tail, p, j),
        host.len() <= j,
    ensures
        occurs_at(tail, p, j - host.len()),
{
    let url = host + tail;
    let h = host.len() as int;
    assert(url.subrange(j, j + p.len()) =~= tail.subrange(j - h, j - h + p.len()));
}

/// Past the host, the segment of `host + tail` after the host's `marker` is
/// `tail`, when `marker` first occurs at `i`, ends the host and does not occur
/// in `tail`.
proof fn lemma_segment_is_tail(host: Seq<char>, tail: Seq<char>, marker: Seq<char>, i: int)
    requires
        first_occurrence_from(host + tail, marker, 0, i),
        i + marker.len() == host.len(),
        !occurs_from(tail, marker, 0),
    ensures
        segment_after(host + tail, marker) == tail,
{
    let url = host + tail;
    let ci = choose|c: int| first_occurrence_from(url, marker, 0, c);
    lemma_first_occurrence_unique(url, marker, 0, i, ci);
    if occurs_from(url, marker, host.len() as int) {
        let j = choose|j: int| host.len() <= j && #[trigger] occurs_at(url, marker, j);
        lemma_occurrence_in_tail(host, tail, marker, j);
    }
    assert(url.subrange(host.len() as int, url.len() as int) =~= tail);
}

/// `owner/repo` is read back as owner and repository.
proof fn lemma_owner_and_repo_of_pair(owner: Seq<char>, repo: Seq<char>)
    requires
        0 < owner.len(),
        0 < repo.len(),
        free_of(owner, '/'),
        free_of(repo, '/'),
    ensures
        owner_and_repo(owner + "/"@ + repo) == Some((owner, repo)),
{
    reveal_strlit("/");
    let s = owner + "/"@ + repo;
    let k = owner.len() as int;
    assert(s[k] == '/');
    assert forall|j: int| 0 <= j < s.len() && j != k implies #[trigger] s[j] != '/' by {
        if j < k {
            assert(s[j] == owner[j]);
        } else {
            assert(s[j] == repo[j - k - 1]);
        }
    }
    assert(single_slash_at(s, k));
    let c = choose|c: int| #[trigger] single_slash_at(s, c) && 0 < c && c + 1 < s.len();
    if c != k {
        assert(s[c] == '/');
    }
    assert(s.subrange(0, k) =~= owner);
    assert(s.subrange(k + 1, s.len() as int) =~= repo);
}

/// Trailing `.git` comes off `owner/repo` followed by `suffix`, and no more.
proof fn lemma_trim_pair(owner: Seq<char>, repo: Seq<char>, suffix: Seq<char>)
    requires
        suffix == Seq::<char>::empty() || suffix == ".git"@,
        free_of(repo, '/'),
        !ends_with(repo, ".git"@),
    ensures
        trim_end_all(owner + "/"@ + repo + suffix, ".git"@) == owner + "/"@ + repo,
{
    reveal_strlit(".git");
    reveal_strlit("/");
    let pair = owner + "/"@ + repo;
    let g = ".git"@;
    if pair.len() >= 4 && pair.subrange(pair.len() - 4, pair.len() as int) == g {
        if repo.len() >= 4 {
            assert(pair.subrange(pair.len() - 4, pair.len() as int) =~= repo.subrange(
                repo.len() - 4,
                repo.len() as int,
            ));
        } else {
            let w = pair.subrange(pair.len() - 4, pair.len() as int);
            let at = 3 - repo.len() as int;
            assert(w[at] == pair[owner.len() as int]);
            assert(pair[owner.len() as int] == '/');
            assert(g[at] != '/');
        }
    }
    assert(trim_end_all(pair, g) == pair);
    if suffix == g {
        let t = pair + suffix;
        assert(t.subrange(t.len() - 4, t.len() as int) =~= g);
        assert(t.subrange(0, t.len() - 4) =~= pair);
    } else {
        assert(pair + suffix =~= pair);
    }
}

/// A remote URL written from an owner and a repository name, as
/// `git@github.com:<owner>/<repo>` or `https://github.com/<owner>/<repo>`,
/// with or without `.git` after it, reads back as that owner and name:
/// `parse_github_slug` returns them. It does so for both names non-empty and
/// free of `/`, a name that does not itself end in `.git`, and a part after
/// the host in which `github.com:` does not occur (nor, in the HTTPS form,
/// `github.com/`), which would end the segment that is read.
pub proof fn lemma_slug_round_trip(host: Seq<char>, owner: Seq<char>, repo: Seq<char>, suffix: Seq<char>)
    requires
        host == "git@github.com:"@ || host == "https://github.com/"@,
        suffix == Seq::<char>::empty() || suffix == ".git"@,
        0 < owner.len(),
        0 < repo.len(),
        free_of(owner, '/'),
        free_of(repo, '/'),
        !ends_with(repo, ".git"@),
        !occurs_from(owner + "/"@ + repo + suffix, "github.com:"@, 0),
        host == "https://github.com/"@ ==> !occurs_from(owner + "/"@ + repo + suffix, "github.com/"@, 0),
    ensures
        github_marker(host + (owner + "/"@ + repo + suffix)) is Some,
        owner_and_repo(
            slug_of(host + (owner + "/"@ + repo + suffix), github_marker(host + (owner + "/"@ + repo + suffix))->0),
        ) == Some((owner, repo)),
{
    reveal_strlit("git@github.com:");
    reveal_strlit("https://github.com/");
    reveal_strlit("github.com:");
    reveal_strlit("github.com/");
    let tail = owner + "/"@ + repo + suffix;
    let url = host + tail;
    let ssh = "github.com:"@;
    let https = "github.com/"@;
    if host == "git@github.com:"@ {
        assert(url.subrange(4, 15) =~= ssh);
        assert(occurs_at(url, ssh, 4));
        assert forall|j: int| 0 <= j < 4 implies !#[trigger] occurs_at(url, ssh, j) by {
            if occurs_at(url, ssh, j) {
                lemma_occurrence_char(url, ssh, j, 10);
                assert(url[j + 10] == host[j + 10]);
            }
        }
        assert(github_marker(url) == Some(ssh));
        lemma_segment_is_tail(host, tail, ssh, 4);
    } else {
        assert forall|j: int| 0 <= j implies !#[trigger] occurs_at(url, ssh, j) by {
            if occurs_at(url, ssh, j) {
                if j >= 19 {
                    lemma_occurrence_in_tail(host, tail, ssh, j);
                } else if j <= 8 {
                    lemma_occurrence_char(url, ssh, j, 10);
                    assert(url[j + 10] == host[j + 10]);
                } else {
                    lemma_occurrence_char(url, ssh, j, 0);
                    assert(url[j] == host[j]);
                }
            }
        }
        assert(url.subrange(8, 19) =~= https);
        assert(occurs_at(url, https, 8));
        assert forall|j: int| 0 <= j < 8 implies !#[trigger] occurs_at(url, https, j) by {
            if occurs_at(url, https, j) {
                lemma_occurrence_char(url, https, j, 10);
                assert(url[j + 10] == host[j + 10]);
            }
        }
        assert(github_marker(url) == Some(https));
        lemma_segment_is_tail(host, tail, https, 8);
    }
    lemma_trim_pair(owner, repo, suffix);
    lemma_owner_and_repo_of_pair(owner, repo);
}

/// What `av init` writes: the whole metadata state `state` read from the
/// store under `common_dir`, with the repository details set to `details`,
/// back to the store's metadata file, where every command reads it.
pub fn init_write(common_dir: &str, state: MetadataState, details: RepositoryMeta) -> (r: (String, MetadataState))
    requires
        state.wf(),
    ensures
        r.0@ == metadata_path(common_dir@),
        r.1.wf(),
        r.1@ == state@.with_repository(details),
{
    let db = JsonFileDb::new(common_dir);
    let path = db.metadata_file_path();
    let mut written = state;
    written.set_repository(details);
    (path, written)
}

} // verus!
