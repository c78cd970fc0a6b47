//! Repository specifications: `owner/repo`, an https or ssh URL, or an scp-like
//! `git@host:owner/repo`, reduced to owner, repo and clone URL.
use vstd::prelude::*;
use vstd::string::*;
use crate::text::{trim, trim_str, starts_with, after, has_prefix, str_eq, concat, suffix_from};

verus! {

/// `pat` occurs in `s` at index `k`.
pub open spec fn occurs_at(s: Seq<char>, pat: Seq<char>, k: int) -> bool {
    0 <= k && k + pat.len() <= s.len() && s.subrange(k, k + pat.len()) == pat
}

/// The first index at or after `k` where `pat` occurs in `s`.
pub open spec fn find_from(s: Seq<char>, pat: Seq<char>, k: int) -> Option<int>
    decreases s.len() + 1 - k,
{
    if k < 0 || k + pat.len() > s.len() {
        None
    } else if occurs_at(s, pat, k) {
        Some(k)
    } else {
        find_from(s, pat, k + 1)
    }
}

pub proof fn lemma_find_from_occurs(s: Seq<char>, pat: Seq<char>, k: int)
    ensures
        find_from(s, pat, k) is Some ==> occurs_at(s, pat, find_from(s, pat, k)->0),
    decreases s.len() + 1 - k,
{
    if !(k < 0 || k + pat.len() > s.len()) && !occurs_at(s, pat, k) {
        lemma_find_from_occurs(s, pat, k + 1);
    }
}

/// `s` split around the first occurrence of `pat`, as `str::split_once` does.
pub open spec fn split_once(s: Seq<char>, pat: Seq<char>) -> Option<(Seq<char>, Seq<char>)> {
    match find_from(s, pat, 0) {
        Some(k) => Some((s.subrange(0, k), s.subrange(k + pat.len(), s.len() as int))),
        None => None,
    }
}

/// `s` with every trailing repetition of `pat` removed, as
/// `str::trim_end_matches` does for a non-empty pattern.
pub open spec fn trim_end_all(s: Seq<char>, pat: Seq<char>) -> Seq<char>
    decreases s.len(),
{
    if pat.len() > 0 && pat.len() <= s.len() && s.subrange(s.len() - pat.len(), s.len() as int)
        == pat {
        trim_end_all(s.subrange(0, s.len() - pat.len()), pat)
    } else {
        s
    }
}

/// The part of `s` before its first `/` (all of it where there is none).
pub open spec fn first_segment(s: Seq<char>) -> Seq<char> {
    match find_from(s, "/"@, 0) {
        Some(k) => s.subrange(0, k),
        None => s,
    }
}

/// The part of `s` between its first and second `/`, if it has a `/`.
pub open spec fn second_segment(s: Seq<char>) -> Option<Seq<char>> {
    match find_from(s, "/"@, 0) {
        Some(k) => Some(first_segment(s.subrange(k + 1, s.len() as int))),
        None => None,
    }
}

/// The host and the `owner/repo` path that a trimmed specification names.
pub open spec fn repo_source(cleaned: Seq<char>, default_host: Seq<char>) -> Option<
    (Seq<char>, Seq<char>),
> {
    if starts_with(cleaned, "http://"@) || starts_with(cleaned, "https://"@) {
        match split_once(cleaned, "://"@) {
            None => None,
            Some((_, rest)) => split_once(rest, "/"@),
        }
    } else if starts_with(cleaned, "git@"@) {
        split_once(after(cleaned, "git@"@), ":"@)
    } else if starts_with(cleaned, "ssh://git@"@) {
        split_once(after(cleaned, "ssh://git@"@), "/"@)
    } else {
        Some((default_host, cleaned))
    }
}

/// Owner, repo, `owner/repo` and https clone URL of a specification.
pub open spec fn repo_spec_view(input: Seq<char>, default_host: Seq<char>) -> Option<
    (Seq<char>, Seq<char>, Seq<char>, Seq<char>),
> {
    let cleaned = trim(input);
    if cleaned.len() == 0 {
        None
    } else {
        match repo_source(cleaned, default_host) {
            None => None,
            Some((host, path)) => {
                let p = trim_end_all(trim_end_all(path, ".git"@), "/"@);
                let owner = trim(first_segment(p));
                match second_segment(p) {
                    None => None,
                    Some(r) => {
                        let repo = trim(r);
                        if owner.len() == 0 || repo.len() == 0 {
                            None
                        } else {
                            Some(
                                (
                                    owner,
                                    repo,
                                    owner + "/"@ + repo,
                                    "https://"@ + host + "/"@ + owner + "/"@ + repo + ".git"@,
                                ),
                            )
                        }
                    },
                }
            },
        }
    }
}

/// A repository to clone.
#[derive(Debug, Clone)]
pub struct RepoSpec {
    pub owner: String,
    pub repo: String,
    pub owner_repo: String,
    pub clone_url: String,
}

/// The first index where `pat` occurs in `s`.
pub fn find(s: &str, pat: &str) -> (r: Option<usize>)
    ensures
        match r {
            Some(k) => find_from(s@, pat@, 0) == Some(k as int) && k + pat@.len() <= s@.len(),
            None => find_from(s@, pat@, 0) is None,
        },
{
    proof {
        lemma_find_from_occurs(s@, pat@, 0);
    }
    let n = s.unicode_len();
    let m = pat.unicode_len();
    if m > n {
        return None;
    }
    if m == 0 {
        assert(s@.subrange(0, 0) =~= pat@);
        return Some(0);
    }
    let mut k: usize = 0;
    while k <= n - m
        invariant
            n == s@.len(),
            m == pat@.len(),
            1 <= m <= n,
            k <= n - m + 1,
            find_from(s@, pat@, 0) == find_from(s@, pat@, k as int),
        decreases n - k,
    {
        let piece = s.substring_char(k, k + m);
        if str_eq(piece, pat) {
            return Some(k);
        }
        k = k + 1;
    }
    None
}

/// `s` split around the first occurrence of `pat`.
pub fn split_once_str(s: &str, pat: &str) -> (r: Option<(String, String)>)
    ensures
        match r {
            Some((a, b)) => split_once(s@, pat@) == Some((a@, b@)),
            None => split_once(s@, pat@) is None,
        },
{
    match find(s, pat) {
        None => None,
        Some(k) => {
            let n = s.unicode_len();
            let m = pat.unicode_len();
            let a = String::from_str(s.substring_char(0, k));
            let b = String::from_str(s.substring_char(k + m, n));
            Some((a, b))
        },
    }
}

/// `s` with every trailing repetition of `pat` removed.
pub fn trim_end_matches_str(s: &str, pat: &str) -> (r: String)
    ensures
        r@ == trim_end_all(s@, pat@),
{
    let m = pat.unicode_len();
    let mut end = s.unicode_len();
    if m == 0 {
        return String::from_str(s);
    }
    assert(s@.subrange(0, end as int) =~= s@);
    while m <= end && str_eq(s.substring_char(end - m, end), pat)
        invariant
            m == pat@.len(),
            m > 0,
            end <= s@.len(),
            trim_end_all(s@, pat@) == trim_end_all(s@.subrange(0, end as int), pat@),
        decreases end,
    {
        let ghost t = s@.subrange(0, end as int);
        assert(t.subrange(t.len() - m, t.len() as int) =~= s@.subrange(end - m, end as int));
        assert(t.subrange(0, t.len() - m) =~= s@.subrange(0, end - m));
        end = end - m;
    }
    let ghost t = s@.subrange(0, end as int);
    if m <= end {
        assert(t.subrange(t.len() - m, t.len() as int) =~= s@.subrange(end - m, end as int));
    }
    String::from_str(s.substring_char(0, end))
}

fn first_segment_str(s: &str) -> (r: String)
    ensures
        r@ == first_segment(s@),
{
    match find(s, "/") {
        Some(k) => String::from_str(s.substring_char(0, k)),
        None => String::from_str(s),
    }
}

/// Reads a repository specification; `default_host` serves where it names no
/// host.
pub fn parse_repo_spec(input: &str, default_host: &str) -> (r: Option<RepoSpec>)
    ensures
        match r {
            Some(spec) => repo_spec_view(input@, default_host@) == Some(
                (spec.owner@, spec.repo@, spec.owner_repo@, spec.clone_url@),
            ),
            None => repo_spec_view(input@, default_host@) is None,
        },
{
    let cleaned = trim_str(input);
    let c = cleaned.as_str();
    if c.unicode_len() == 0 {
        return None;
    }
    let (host, owner_repo) = if has_prefix(c, "http://") || has_prefix(c, "https://") {
        let (_, without_scheme) = match split_once_str(c, "://") {
            Some(p) => p,
            None => {
                return None;
            },
        };
        match split_once_str(without_scheme.as_str(), "/") {
            Some(p) => p,
            None => {
                return None;
            },
        }
    } else if has_prefix(c, "git@") {
        proof {
            reveal_strlit("git@");
        }
        let without_user = suffix_from(c, 4);
        match split_once_str(without_user.as_str(), ":") {
            Some(p) => p,
            None => {
                return None;
            },
        }
    } else if has_prefix(c, "ssh://git@") {
        proof {
            reveal_strlit("ssh://git@");
        }
        let without_prefix = suffix_from(c, 10);
        match split_once_str(without_prefix.as_str(), "/") {
            Some(p) => p,
            None => {
                return None;
            },
        }
    } else {
        (String::from_str(default_host), String::from_str(c))
    };
    assert(repo_source(cleaned@, default_host@) == Some((host@, owner_repo@)));
    let no_git = trim_end_matches_str(owner_repo.as_str(), ".git");
    let path = trim_end_matches_str(no_git.as_str(), "/");
    let p = path.as_str();
    let first = first_segment_str(p);
    let owner = trim_str(first.as_str());
    proof {
        reveal_strlit("/");
    }
    let repo = match find(p, "/") {
        None => {
            return None;
        },
        Some(k) => {
            let n = p.unicode_len();
            let rest = String::from_str(p.substring_char(k + 1, n));
            let second = first_segment_str(rest.as_str());
            trim_str(second.as_str())
        },
    };
    if owner.as_str().unicode_len() == 0 || repo.as_str().unicode_len() == 0 {
        return None;
    }
    let mut owner_repo = concat(owner.as_str(), "/");
    owner_repo.append(repo.as_str());
    let mut clone_url = concat("https://", host.as_str());
    clone_url.append("/");
    clone_url.append(owner.as_str());
    clone_url.append("/");
    clone_url.append(repo.as_str());
    clone_url.append(".git");
    proof {
        assert(clone_url@ =~= "https://"@ + host@ + "/"@ + owner@ + "/"@ + repo@ + ".git"@);
    }
    Some(RepoSpec { owner, repo, owner_repo, clone_url })
}

} // verus!
