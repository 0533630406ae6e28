//! Repository URLs: the owner and the repository name of a GitHub URL.
use vstd::prelude::*;
use crate::classify::eq_lit;
use crate::text::{chars_of, slice_chars, string_from_chars};
use crate::tree::opt_view;

verus! {

/// What the URL parser gives for a text: none if it is no URL, else its
/// host (if any) and its path segments (if its path has segments).
pub uninterp spec fn url_parts_of(s: Seq<char>) -> Option<(Option<Seq<char>>, Option<Seq<Seq<char>>>)>;

/// URL parts as character sequences.
pub open spec fn url_parts_view(o: Option<(Option<String>, Option<Vec<String>>)>) -> Option<
    (Option<Seq<char>>, Option<Seq<Seq<char>>>),
> {
    match o {
        Some((h, p)) => Some(
            (
                opt_view(h),
                match p {
                    Some(v) => Some(v@.map_values(|x: String| x@)),
                    None => None,
                },
            ),
        ),
        None => None,
    }
}

/// Relies on `url::Url::parse`, `Url::host_str` and `Url::path_segments`:
/// the host and the path segments of a parsed URL.
#[verifier::external_body]
fn url_parts(s: &str) -> (r: Option<(Option<String>, Option<Vec<String>>)>)
    ensures
        url_parts_view(r) == url_parts_of(s@),
{
    let u = url::Url::parse(s).ok()?;
    Some((u.host_str().map(|h| h.to_string()), u.path_segments().map(|p| p.map(|x| x.to_string()).collect())))
}

/// Why a URL names no GitHub repository.
#[derive(Debug, PartialEq, Eq, Clone, Copy)]
pub enum UrlError {
    /// The text is no URL.
    Invalid,
    /// The host is not `github.com`.
    NotGitHub,
    /// The URL has no path segments.
    InvalidPath,
    /// Fewer than two path segments.
    BadFormat,
}

/// `s` without any number of trailing `.git`.
pub open spec fn strip_git(s: Seq<char>) -> Seq<char>
    decreases s.len(),
{
    if s.len() >= 4 && s.subrange(s.len() - 4, s.len() as int) == ".git"@ {
        strip_git(s.take(s.len() - 4))
    } else {
        s
    }
}

/// The owner and repository of a GitHub URL, or why there are none.
pub open spec fn github_repo_of(url: Seq<char>) -> Result<(Seq<char>, Seq<char>), UrlError> {
    match url_parts_of(url) {
        None => Err(UrlError::Invalid),
        Some((host, segs)) => if host != Some("github.com"@) {
            Err(UrlError::NotGitHub)
        } else {
            match segs {
                None => Err(UrlError::InvalidPath),
                Some(p) => if p.len() < 2 {
                    Err(UrlError::BadFormat)
                } else {
                    Ok((p[0], strip_git(p[1])))
                },
            }
        },
    }
}

fn strip_git_exec(s: &Vec<char>) -> (r: Vec<char>)
    ensures
        r@ == strip_git(s@),
{
    let suffix = chars_of(".git");
    proof {
        reveal_strlit(".git");
    }
    let mut n: usize = s.len();
    assert(s@.take(n as int) =~= s@);
    while n >= 4 && crate::text::matches_at(s, &suffix, n - 4)
        invariant
            n <= s.len(),
            suffix@ == ".git"@,
            suffix@.len() == 4,
            strip_git(s@) == strip_git(s@.take(n as int)),
        decreases n,
    {
        let ghost t = s@.take(n as int);
        assert(s@.subrange(n - 4, n as int) == ".git"@);
        assert(t.subrange(t.len() - 4, t.len() as int) =~= s@.subrange(n - 4, n as int));
        assert(t.take(t.len() - 4) =~= s@.take(n - 4));
        n = n - 4;
    }
    proof {
        let t = s@.take(n as int);
        if n >= 4 {
            assert(t.subrange(t.len() - 4, t.len() as int) =~= s@.subrange(n - 4, n as int));
        }
    }
    let r = slice_chars(s, 0, n);
    assert(r@ =~= s@.take(n as int));
    r
}

/// The owner and repository name of a GitHub repository URL.
pub fn parse_github_url(url: &str) -> (r: Result<(String, String), UrlError>)
    ensures
        match r {
            Ok((o, n)) => github_repo_of(url@) == Ok::<(Seq<char>, Seq<char>), UrlError>((o@, n@)),
            Err(e) => github_repo_of(url@) == Err::<(Seq<char>, Seq<char>), UrlError>(e),
        },
{
    let parts = match url_parts(url) {
        Some(p) => p,
        None => {
            return Err(UrlError::Invalid);
        },
    };
    let (host, segs) = parts;
    let is_github = match &host {
        Some(h) => {
            let c = chars_of(h.as_str());
            eq_lit(&c, "github.com")
        },
        None => false,
    };
    if !is_github {
        return Err(UrlError::NotGitHub);
    }
    let segs = match segs {
        Some(v) => v,
        None => {
            return Err(UrlError::InvalidPath);
        },
    };
    if segs.len() < 2 {
        return Err(UrlError::BadFormat);
    }
    let owner = segs[0].clone();
    let repo = strip_git_exec(&chars_of(segs[1].as_str()));
    Ok((owner, string_from_chars(repo.as_slice())))
}

} // verus!
