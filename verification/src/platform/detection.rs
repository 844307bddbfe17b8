//! Remote-URL classification: which platform a remote URL belongs to, and
//! its owner path and repository name.
//!
//! Two URL shapes are accepted: `git@<host>:<owner-path>/<repo>[.git]` and
//! `http(s)://<host>/<owner-path>/<repo>[.git]`.

use crate::error::RyuError;
use crate::strutil::find_char;
use crate::strutil::has_prefix;
use crate::strutil::has_suffix;
use crate::strutil::spec_has_prefix;
use crate::strutil::spec_has_suffix;
use crate::strutil::str_eq;
use crate::types::Platform;
use crate::types::PlatformConfig;
use vstd::prelude::*;
use vstd::string::StrSliceExecFns;

verus! {

/// The position of the first `c` in `s`, or -1.
pub open spec fn idx_of(s: Seq<char>, c: char) -> int
    decreases s.len(),
{
    if s.len() == 0 {
        -1
    } else if s[0] == c {
        0
    } else {
        let r = idx_of(s.drop_first(), c);
        if r == -1 {
            -1
        } else {
            r + 1
        }
    }
}

/// `idx_of` names the first occurrence, or -1 when there is none.
pub proof fn lemma_idx_of(s: Seq<char>, c: char)
    ensures
        idx_of(s, c) == -1 ==> forall|j: int| 0 <= j < s.len() ==> s[j] != c,
        idx_of(s, c) != -1 ==> 0 <= idx_of(s, c) < s.len() && s[idx_of(s, c)] == c && forall|j: int|
            0 <= j < idx_of(s, c) ==> s[j] != c,
    decreases s.len(),
{
    if s.len() > 0 && s[0] != c {
        lemma_idx_of(s.drop_first(), c);
        let r = idx_of(s.drop_first(), c);
        assert(forall|j: int| 1 <= j < s.len() ==> s[j] == s.drop_first()[j - 1]);
    }
}

/// The position of the last `c` in `s`, or -1.
pub open spec fn last_idx_of(s: Seq<char>, c: char) -> int
    decreases s.len(),
{
    if s.len() == 0 {
        -1
    } else if s.last() == c {
        s.len() - 1
    } else {
        last_idx_of(s.drop_last(), c)
    }
}

/// `last_idx_of` names the last occurrence, or -1 when there is none.
pub proof fn lemma_last_idx_of(s: Seq<char>, c: char)
    ensures
        last_idx_of(s, c) == -1 ==> forall|j: int| 0 <= j < s.len() ==> s[j] != c,
        last_idx_of(s, c) != -1 ==> 0 <= last_idx_of(s, c) < s.len() && s[last_idx_of(s, c)] == c
            && forall|j: int| last_idx_of(s, c) < j < s.len() ==> s[j] != c,
    decreases s.len(),
{
    if s.len() > 0 && s.last() != c {
        lemma_last_idx_of(s.drop_last(), c);
        assert(forall|j: int| 0 <= j < s.len() - 1 ==> s[j] == s.drop_last()[j]);
    }
}

/// The host of a scheme-stripped URL remainder: everything before the first
/// `/`; an empty host is rejected.
pub open spec fn host_of(rest: Seq<char>) -> Option<Seq<char>> {
    let i = idx_of(rest, '/');
    let h = if i >= 0 {
        rest.take(i)
    } else {
        rest
    };
    if h.len() == 0 {
        None
    } else {
        Some(h)
    }
}

/// The hostname of a remote URL under the two accepted shapes.
pub open spec fn spec_hostname(u: Seq<char>) -> Option<Seq<char>> {
    if spec_has_prefix(u, "git@"@) {
        let rest = u.skip("git@"@.len() as int);
        let i = idx_of(rest, ':');
        if i >= 0 {
            Some(rest.take(i))
        } else {
            Some(rest)
        }
    } else if spec_has_prefix(u, "https://"@) {
        host_of(u.skip("https://"@.len() as int))
    } else if spec_has_prefix(u, "http://"@) {
        host_of(u.skip("http://"@.len() as int))
    } else {
        None
    }
}

/// Which platform a hostname, with optional override hosts, belongs to.
pub open spec fn spec_detect(
    u: Seq<char>,
    gh_host: Option<Seq<char>>,
    gitlab_host: Option<Seq<char>>,
) -> Option<Platform> {
    match spec_hostname(u) {
        None => None,
        Some(h) => {
            if h == "github.com"@ || spec_has_suffix(h, ".github.com"@) || (gh_host matches Some(g)
                && h == g) {
                Some(Platform::GitHub)
            } else if h == "gitlab.com"@ || spec_has_suffix(h, ".gitlab.com"@) || (
            gitlab_host matches Some(g) && h == g) {
                Some(Platform::GitLab)
            } else {
                None
            }
        },
    }
}

/// `p` with one trailing `.git` removed.
pub open spec fn strip_git(p: Seq<char>) -> Seq<char> {
    if spec_has_suffix(p, ".git"@) {
        p.take(p.len() - ".git"@.len())
    } else {
        p
    }
}

/// The owner-and-repository path of a remote URL: after the first `:` for the
/// SSH shape, after the host's `/` for the HTTP shape, with a trailing
/// `.git` removed.  The host must be nonempty.
pub open spec fn spec_repo_path(u: Seq<char>) -> Option<Seq<char>> {
    if spec_has_prefix(u, "git@"@) {
        let rest = u.skip("git@"@.len() as int);
        let i = idx_of(rest, ':');
        if i >= 1 {
            Some(strip_git(rest.skip(i + 1)))
        } else {
            None
        }
    } else if spec_has_prefix(u, "https://"@) {
        let rest = u.skip("https://"@.len() as int);
        let i = idx_of(rest, '/');
        if i >= 1 {
            Some(strip_git(rest.skip(i + 1)))
        } else {
            None
        }
    } else if spec_has_prefix(u, "http://"@) {
        let rest = u.skip("http://"@.len() as int);
        let i = idx_of(rest, '/');
        if i >= 1 {
            Some(strip_git(rest.skip(i + 1)))
        } else {
            None
        }
    } else {
        None
    }
}

fn find_char_from(s: &str, c: char, from: usize) -> (r: Option<usize>)
    requires
        from <= s@.len(),
    ensures
        ({
            let i = idx_of(s@.skip(from as int), c);
            match r {
                Some(p) => i >= 0 && p == from + i && from <= p < s@.len() && s@[p as int] == c,
                None => i == -1,
            }
        }),
{
    proof {
        lemma_idx_of(s@.skip(from as int), c);
    }
    let r = find_char(s, c, from);
    proof {
        let rest = s@.skip(from as int);
        let i = idx_of(rest, c);
        match r {
            Some(p) => {
                assert(rest[p - from] == c);
                assert(i != -1);
                if i < p - from {
                    assert(s@[from + i] == rest[i]);
                    assert(false);
                }
                if i > p - from {
                    assert(rest[p - from] != c);
                    assert(false);
                }
            },
            None => {
                if i != -1 {
                    assert(s@[from + i] == rest[i]);
                    assert(false);
                }
            },
        }
    }
    r
}

/// The hostname of a remote URL, under the accepted SSH and HTTP shapes.
pub fn extract_hostname(url: &str) -> (r: Option<String>)
    ensures
        match r {
            Some(h) => spec_hostname(url@) matches Some(hs) && h@ == hs,
            None => spec_hostname(url@) is None,
        },
{
    let ulen = url.unicode_len();
    if has_prefix(url, "git@") {
        let plen = "git@".unicode_len();
        match find_char_from(url, ':', plen) {
            Some(i) => {
                let h = url.substring_char(plen, i);
                proof {
                    assert(h@ =~= url@.skip("git@"@.len() as int).take(
                        idx_of(url@.skip("git@"@.len() as int), ':'),
                    ));
                }
                Some(String::from_str(h))
            },
            None => {
                let h = url.substring_char(plen, ulen);
                proof {
                    assert(h@ =~= url@.skip("git@"@.len() as int));
                }
                Some(String::from_str(h))
            },
        }
    } else if has_prefix(url, "https://") {
        host_after(url, "https://".unicode_len(), Ghost("https://"@.len() as int))
    } else if has_prefix(url, "http://") {
        host_after(url, "http://".unicode_len(), Ghost("http://"@.len() as int))
    } else {
        None
    }
}

fn host_after(url: &str, plen: usize, sch: Ghost<int>) -> (r: Option<String>)
    requires
        plen == sch@,
        plen <= url@.len(),
    ensures
        match r {
            Some(h) => host_of(url@.skip(sch@)) matches Some(hs) && h@ == hs,
            None => host_of(url@.skip(sch@)) is None,
        },
{
    let ulen = url.unicode_len();
    let stop: usize = match find_char_from(url, '/', plen) {
        Some(i) => i,
        None => ulen,
    };
    if stop == plen {
        proof {
            let rest = url@.skip(sch@);
            lemma_idx_of(rest, '/');
            if idx_of(rest, '/') >= 0 {
                assert(rest.take(idx_of(rest, '/')).len() == 0);
            } else {
                assert(rest.len() == 0);
            }
        }
        return None;
    }
    let h = url.substring_char(plen, stop);
    proof {
        let rest = url@.skip(sch@);
        let i = idx_of(rest, '/');
        if i >= 0 {
            assert(h@ =~= rest.take(i));
        } else {
            assert(h@ =~= rest);
        }
    }
    Some(String::from_str(h))
}

/// Classifies a remote URL as GitHub or GitLab against the public hosts
/// alone.
pub fn detect_platform(url: &str) -> (r: Option<Platform>)
    ensures
        r == spec_detect(url@, None, None),
{
    detect_platform_with_overrides(url, None, None)
}

/// Classifies a remote URL as GitHub or GitLab, also accepting an override
/// host for either platform (self-hosted instances).
pub fn detect_platform_with_overrides(
    url: &str,
    gh_host: Option<&str>,
    gitlab_host: Option<&str>,
) -> (r: Option<Platform>)
    ensures
        ({
            let gh = match gh_host {
                Some(g) => Some(g@),
                None => None,
            };
            let gl = match gitlab_host {
                Some(g) => Some(g@),
                None => None,
            };
            r == spec_detect(url@, gh, gl)
        }),
{
    let hostname = match extract_hostname(url) {
        Some(h) => h,
        None => {
            return None;
        },
    };
    let h = hostname.as_str();
    let mut gh_match: bool = str_eq(h, "github.com") || has_suffix(h, ".github.com");
    match gh_host {
        Some(g) => {
            if str_eq(h, g) {
                gh_match = true;
            }
        },
        None => {},
    }
    if gh_match {
        return Some(Platform::GitHub);
    }
    let mut gl_match: bool = str_eq(h, "gitlab.com") || has_suffix(h, ".gitlab.com");
    match gitlab_host {
        Some(g) => {
            if str_eq(h, g) {
                gl_match = true;
            }
        },
        None => {},
    }
    if gl_match {
        return Some(Platform::GitLab);
    }
    None
}

/// Parses owner and repository from a remote URL against the public hosts
/// alone.
pub fn parse_repo_info(url: &str) -> (r: Result<PlatformConfig, RyuError>)
    ensures
        parse_repo_ensures(url@, None, None, r),
{
    parse_repo_info_with_overrides(url, None, None)
}

/// What `parse_repo_info` returns: the platform from classification, the
/// repository as the path's last segment, the owner as everything before it,
/// and the host kept only when it is not the platform's public host.
/// `NoSupportedRemotes` exactly when classification fails, `Parse` exactly
/// when the classified URL has no owner-and-repository path with a `/`.
pub open spec fn parse_repo_ensures(
    u: Seq<char>,
    gh: Option<Seq<char>>,
    gl: Option<Seq<char>>,
    r: Result<PlatformConfig, RyuError>,
) -> bool {
    match r {
        Ok(c) => {
            &&& spec_detect(u, gh, gl) == Some(c.platform)
            &&& spec_repo_path(u) matches Some(path) && last_idx_of(path, '/') >= 0 && c.repo@
                == path.skip(last_idx_of(path, '/') + 1) && c.owner@ == path.take(
                last_idx_of(path, '/'),
            )
            &&& spec_hostname(u) matches Some(h) && (match c.platform {
                Platform::GitHub => (if h == "github.com"@ {
                    c.host is None
                } else {
                    c.host matches Some(ch) && ch@ == h
                }),
                Platform::GitLab => (if h == "gitlab.com"@ {
                    c.host is None
                } else {
                    c.host matches Some(ch) && ch@ == h
                }),
            })
        },
        Err(e) => {
            &&& (e is NoSupportedRemotes <==> spec_detect(u, gh, gl) is None)
            &&& (e is Parse <==> spec_detect(u, gh, gl) is Some && !(spec_repo_path(u) matches Some(
                path,
            ) && last_idx_of(path, '/') >= 0))
            &&& (e is NoSupportedRemotes || e is Parse)
        },
    }
}

/// Parses owner and repository from a remote URL, also accepting an override
/// host for either platform.
pub fn parse_repo_info_with_overrides(
    url: &str,
    gh_host: Option<&str>,
    gitlab_host: Option<&str>,
) -> (r: Result<PlatformConfig, RyuError>)
    ensures
        ({
            let gh = match gh_host {
                Some(g) => Some(g@),
                None => None,
            };
            let gl = match gitlab_host {
                Some(g) => Some(g@),
                None => None,
            };
            parse_repo_ensures(url@, gh, gl, r)
        }),
{
    let platform = match detect_platform_with_overrides(url, gh_host, gitlab_host) {
        Some(p) => p,
        None => {
            return Err(RyuError::NoSupportedRemotes);
        },
    };
    // The hostname exists whenever classification succeeded.
    let hostname = match extract_hostname(url) {
        Some(h) => h,
        None => {
            proof {
                assert(false);
            }
            return Err(RyuError::NoSupportedRemotes);
        },
    };
    let ulen = url.unicode_len();
    // Cut out the owner-and-repository path.
    let path: String = if has_prefix(url, "git@") {
        let plen = "git@".unicode_len();
        match find_char_from(url, ':', plen) {
            Some(i) => {
                if i == plen {
                    proof {
                        reveal_strlit("malformed remote url");
                    }
                    return Err(RyuError::Parse(String::from_str("malformed remote url")));
                }
                let raw = url.substring_char(i + 1, ulen);
                proof {
                    assert(raw@ =~= url@.skip("git@"@.len() as int).skip(
                        idx_of(url@.skip("git@"@.len() as int), ':') + 1,
                    ));
                }
                strip_git_suffix(raw)
            },
            None => {
                proof {
                    reveal_strlit("malformed remote url");
                }
                return Err(RyuError::Parse(String::from_str("malformed remote url")));
            },
        }
    } else if has_prefix(url, "https://") {
        match path_after(url, "https://".unicode_len(), Ghost("https://"@.len() as int)) {
            Some(p) => p,
            None => {
                proof {
                    reveal_strlit("malformed remote url");
                }
                return Err(RyuError::Parse(String::from_str("malformed remote url")));
            },
        }
    } else {
        proof {
            assert(spec_has_prefix(url@, "http://"@));
        }
        match path_after(url, "http://".unicode_len(), Ghost("http://"@.len() as int)) {
            Some(p) => p,
            None => {
                proof {
                    reveal_strlit("malformed remote url");
                }
                return Err(RyuError::Parse(String::from_str("malformed remote url")));
            },
        }
    };
    proof {
        assert(spec_repo_path(url@) == Some(path@));
    }
    // Split at the last `/`: owner before, repository after.
    let pl = path.as_str().unicode_len();
    let mut last_slash: Option<usize> = None;
    let mut j: usize = 0;
    while j < pl
        invariant
            pl == path@.len(),
            j <= pl,
            match last_slash {
                Some(p) => p < j && path@[p as int] == '/' && forall|t: int|
                    p < t < j ==> path@[t] != '/',
                None => forall|t: int| 0 <= t < j ==> path@[t] != '/',
            },
        decreases pl - j,
    {
        if path.as_str().get_char(j) == '/' {
            last_slash = Some(j);
        }
        j += 1;
    }
    proof {
        lemma_last_idx_of(path@, '/');
    }
    let ls = match last_slash {
        Some(p) => p,
        None => {
            proof {
                reveal_strlit("no owner and repository in remote url");
            }
            return Err(
                RyuError::Parse(String::from_str("no owner and repository in remote url")),
            );
        },
    };
    proof {
        assert(last_idx_of(path@, '/') == ls) by {
            lemma_last_idx_of(path@, '/');
            if last_idx_of(path@, '/') > ls {
                assert(path@[last_idx_of(path@, '/')] != '/');
            }
            if last_idx_of(path@, '/') < ls {
                assert(path@[ls as int] != '/');
            }
        }
    }
    let owner = String::from_str(path.as_str().substring_char(0, ls));
    let repo = String::from_str(path.as_str().substring_char(ls + 1, pl));
    proof {
        assert(owner@ =~= path@.take(ls as int));
        assert(repo@ =~= path@.skip(ls + 1));
    }
    let public_host = match platform {
        Platform::GitHub => "github.com",
        Platform::GitLab => "gitlab.com",
    };
    let host: Option<String> = if str_eq(hostname.as_str(), public_host) {
        None
    } else {
        Some(hostname)
    };
    Ok(PlatformConfig { platform, owner, repo, host })
}

fn strip_git_suffix(raw: &str) -> (r: String)
    ensures
        r@ == strip_git(raw@),
{
    let rlen = raw.unicode_len();
    if has_suffix(raw, ".git") {
        let glen = ".git".unicode_len();
        let s = raw.substring_char(0, rlen - glen);
        proof {
            assert(s@ =~= raw@.take(raw@.len() - ".git"@.len()));
        }
        String::from_str(s)
    } else {
        String::from_str(raw)
    }
}

fn path_after(url: &str, plen: usize, sch: Ghost<int>) -> (r: Option<String>)
    requires
        plen == sch@,
        plen <= url@.len(),
    ensures
        ({
            let rest = url@.skip(sch@);
            let i = idx_of(rest, '/');
            match r {
                Some(p) => i >= 1 && p@ == strip_git(rest.skip(i + 1)),
                None => i < 1,
            }
        }),
{
    let ulen = url.unicode_len();
    match find_char_from(url, '/', plen) {
        Some(i) => {
            if i == plen {
                return None;
            }
            let raw = url.substring_char(i + 1, ulen);
            proof {
                assert(raw@ =~= url@.skip(sch@).skip(idx_of(url@.skip(sch@), '/') + 1));
            }
            Some(strip_git_suffix(raw))
        },
        None => None,
    }
}

} // verus!
