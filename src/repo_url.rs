//! From a repository address such as `https://github.com/OWNER/REPO` (the
//! scheme may be missing) to its owner and name.
use vstd::prelude::*;
use crate::error::ForkliftError;
use crate::record::str_equals;

verus! {

/// A repository: its owner's login and its name.
#[derive(Clone, Debug, PartialEq, Eq)]
pub struct RepoInfo {
    pub owner: String,
    pub name: String,
}

/// Whether `url::Url::parse` accepts the text.
pub uninterp spec fn url_parses(s: Seq<char>) -> bool;

/// The host that `url::Url::domain` gives for the URL that `url::Url::parse`
/// reads from the text, when that host is a domain name.
pub uninterp spec fn url_domain_of(s: Seq<char>) -> Option<Seq<char>>;

/// The segments that `url::Url::path_segments` gives for the URL that
/// `url::Url::parse` reads from the text, when its path is hierarchical.
pub uninterp spec fn url_segments_of(s: Seq<char>) -> Option<Seq<Seq<char>>>;

/// Relies on `url::Url::parse`, `url::Url::domain` and `url::Url::path_segments`:
/// whether the text is accepted, and the host and path segments of what it
/// reads, depend on the text alone.
#[verifier::external_body]
fn url_parts(s: &str) -> (r: Option<(Option<String>, Option<Vec<String>>)>)
    ensures
        r.is_some() == url_parses(s@),
        r matches Some((d, p)) ==> opt_string_view(d) == url_domain_of(s@) && opt_strings_view(p)
            == url_segments_of(s@),
{
    match url::Url::parse(s) {
        Ok(u) => {
            let d = u.domain().map(|x| x.to_string());
            let p = u.path_segments().map(|c| c.map(|x| x.to_string()).collect());
            Some((d, p))
        },
        Err(_) => None,
    }
}

pub open spec fn opt_string_view(o: Option<String>) -> Option<Seq<char>> {
    match o {
        Some(x) => Some(x@),
        None => None,
    }
}

pub open spec fn opt_strings_view(o: Option<Vec<String>>) -> Option<Seq<Seq<char>>> {
    match o {
        Some(v) => Some(strings_view(v@)),
        None => None,
    }
}

pub open spec fn http_prefix() -> Seq<char> {
    seq!['h', 't', 't', 'p', ':', '/', '/']
}

pub open spec fn https_prefix() -> Seq<char> {
    seq!['h', 't', 't', 'p', 's', ':', '/', '/']
}

pub open spec fn github_domain() -> Seq<char> {
    seq!['g', 'i', 't', 'h', 'u', 'b', '.', 'c', 'o', 'm']
}

pub open spec fn starts_with(s: Seq<char>, p: Seq<char>) -> bool {
    p.len() <= s.len() && s.take(p.len() as int) == p
}

/// The address with `https://` put in front unless it starts with
/// `http://` or `https://`.
pub open spec fn with_scheme(s: Seq<char>) -> Seq<char> {
    if starts_with(s, http_prefix()) || starts_with(s, https_prefix()) {
        s
    } else {
        https_prefix() + s
    }
}

/// The non-empty segments, in order.
pub open spec fn nonempty_segments(s: Seq<Seq<char>>) -> Seq<Seq<char>>
    decreases s.len(),
{
    if s.len() == 0 {
        Seq::empty()
    } else {
        let rest = nonempty_segments(s.drop_last());
        if s.last().len() > 0 {
            rest.push(s.last())
        } else {
            rest
        }
    }
}

pub open spec fn strings_view(v: Seq<String>) -> Seq<Seq<char>> {
    v.map_values(|s: String| s@)
}

/// The segments of an optional path; none where there is no path.
pub open spec fn segments_or_empty(segments: Option<Seq<Seq<char>>>) -> Seq<Seq<char>> {
    match segments {
        Some(v) => v,
        None => Seq::empty(),
    }
}

/// What the host and path of a parsed address give: the host must be
/// `github.com`, and the path must have at least two non-empty segments, the
/// owner and the repository.
pub open spec fn repo_rule(domain: Option<Seq<char>>, segments: Option<Seq<Seq<char>>>, r: Result<RepoInfo, ForkliftError>) -> bool {
    let segs = nonempty_segments(segments_or_empty(segments));
    if domain != Some(github_domain()) {
        match r {
            Err(ForkliftError::InvalidDomain(d)) => d@ == match domain {
                Some(x) => x,
                None => Seq::<char>::empty(),
            },
            _ => false,
        }
    } else if segs.len() < 2 {
        match r {
            Err(ForkliftError::InvalidPathSegments(v)) => strings_view(v@) == segs,
            _ => false,
        }
    } else {
        match r {
            Ok(info) => info.owner@ == segs[0] && info.name@ == segs[1],
            _ => false,
        }
    }
}

/// Whether `s` starts with `p`.
fn has_prefix(s: &str, p: &Vec<char>) -> (r: bool)
    ensures
        r == starts_with(s@, p@),
{
    let n = s.unicode_len();
    let m = p.len();
    if m > n {
        return false;
    }
    let mut i: usize = 0;
    while i < m
        invariant
            n == s@.len(),
            m == p@.len(),
            m <= n,
            i <= m,
            forall|k: int| 0 <= k < i ==> s@[k] == p@[k],
        decreases m - i,
    {
        if s.get_char(i) != p[i] {
            assert(s@.take(m as int)[i as int] != p@[i as int]);
            return false;
        }
        i = i + 1;
    }
    assert(s@.take(m as int) =~= p@);
    true
}

/// Checks the host and path of a parsed repository address and reads the
/// owner and repository name from the path.
pub fn repo_from_parts(domain: Option<String>, segments: Option<Vec<String>>) -> (r: Result<RepoInfo, ForkliftError>)
    ensures
        repo_rule(opt_string_view(domain), opt_strings_view(segments), r),
{
    let github = vec!['g', 'i', 't', 'h', 'u', 'b', '.', 'c', 'o', 'm'];
    assert(github@ == github_domain());
    let on_github = match &domain {
        Some(d) => str_equals(d.as_str(), &github),
        None => false,
    };
    if !on_github {
        let d = match domain {
            Some(x) => x,
            None => String::new(),
        };
        return Err(ForkliftError::InvalidDomain(d));
    }
    let all: Vec<String> = match segments {
        Some(v) => v,
        None => Vec::new(),
    };
    let ghost all_view = strings_view(all@);
    assert(all_view == segments_or_empty(opt_strings_view(segments)));
    let mut kept: Vec<String> = Vec::new();
    let mut i: usize = 0;
    while i < all.len()
        invariant
            i <= all@.len(),
            all_view == strings_view(all@),
            strings_view(kept@) == nonempty_segments(all_view.take(i as int)),
        decreases all@.len() - i,
    {
        proof {
            assert(all_view.take(i + 1).drop_last() =~= all_view.take(i as int));
            assert(all_view.take(i + 1).last() == all@[i as int]@);
        }
        if all[i].as_str().unicode_len() > 0 {
            let s = all[i].clone();
            kept.push(s);
            proof {
                assert(strings_view(kept@) =~= strings_view(kept@.drop_last()).push(s@));
            }
        }
        i = i + 1;
    }
    assert(all_view.take(all@.len() as int) =~= all_view);
    if kept.len() < 2 {
        return Err(ForkliftError::InvalidPathSegments(kept));
    }
    let owner = kept[0].clone();
    let name = kept[1].clone();
    Ok(RepoInfo { owner, name })
}

/// Reads the owner and name of a repository from its address. An address
/// that is not a URL, once `https://` is put in front where it has no scheme,
/// is refused as `InvalidUrl`; otherwise the URL's host and path decide, as
/// `repo_rule` says.
pub fn parse_github_url(raw_url: &str) -> (r: Result<RepoInfo, ForkliftError>)
    ensures
        (r matches Err(ForkliftError::InvalidUrl(s)) && s@ == raw_url@) == !url_parses(
            with_scheme(raw_url@),
        ),
        !(r matches Err(ForkliftError::InvalidUrl(_))) ==> url_parses(with_scheme(raw_url@)),
        url_parses(with_scheme(raw_url@)) ==> repo_rule(
            url_domain_of(with_scheme(raw_url@)),
            url_segments_of(with_scheme(raw_url@)),
            r,
        ),
        r matches Ok(info) ==> info.owner@.len() > 0 && info.name@.len() > 0,
        !(r matches Err(ForkliftError::MissingGithubToken)),
        !(r matches Err(ForkliftError::Fetch(_))),
{
    let http = vec!['h', 't', 't', 'p', ':', '/', '/'];
    let https = vec!['h', 't', 't', 'p', 's', ':', '/', '/'];
    assert(http@ == http_prefix());
    assert(https@ == https_prefix());
    let with_scheme_text = if has_prefix(raw_url, &http) || has_prefix(raw_url, &https) {
        String::from_str(raw_url)
    } else {
        let mut t = String::from_str("https://");
        proof {
            reveal_strlit("https://");
        }
        assert(t@ =~= https_prefix());
        t.append(raw_url);
        t
    };
    assert(with_scheme_text@ == with_scheme(raw_url@));
    match url_parts(with_scheme_text.as_str()) {
        None => Err(ForkliftError::InvalidUrl(String::from_str(raw_url))),
        Some((domain, segments)) => {
            let r = repo_from_parts(domain, segments);
            proof {
                let segs = nonempty_segments(segments_or_empty(opt_strings_view(segments)));
                if r is Ok {
                    lemma_nonempty_segments_are_nonempty(segments_or_empty(opt_strings_view(segments)));
                    assert(segs[0].len() > 0 && segs[1].len() > 0);
                }
            }
            r
        },
    }
}

proof fn lemma_nonempty_segments_are_nonempty(s: Seq<Seq<char>>)
    ensures
        forall|k: int| 0 <= k < nonempty_segments(s).len() ==> #[trigger] nonempty_segments(s)[k].len() > 0,
    decreases s.len(),
{
    if s.len() > 0 {
        lemma_nonempty_segments_are_nonempty(s.drop_last());
        let rest = nonempty_segments(s.drop_last());
        if s.last().len() > 0 {
            assert forall|k: int| 0 <= k < rest.push(s.last()).len() implies #[trigger] rest.push(
                s.last(),
            )[k].len() > 0 by {
                if k < rest.len() {
                    assert(rest.push(s.last())[k] == rest[k]);
                }
            }
        }
    }
}

} // verus!
