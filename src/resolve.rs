//! Reconstructs the upstream target URL from an inbound gateway path.
use vstd::prelude::*;

use crate::text::{chars_of, extend_range, has_at, has_at_exec, string_from_chars};

verus! {

/// Scheme, authority and path-and-query that `http::Uri` finds in `s`, or
/// `None` where `s` does not parse or lacks one of them.
pub uninterp spec fn uri_parts(s: Seq<char>) -> Option<(Seq<char>, Seq<char>, Seq<char>)>;

/// Relies on `http::Uri`'s `FromStr` and its `scheme_str`, `authority` and
/// `path_and_query` accessors: the parts depend on the text alone.
#[verifier::external_body]
fn parse_uri_parts(s: &str) -> (r: Option<(String, String, String)>)
    ensures
        r is None ==> uri_parts(s@) is None,
        r matches Some(p) ==> uri_parts(s@) == Some((p.0@, p.1@, p.2@)),
{
    let uri = s.parse::<axum::http::Uri>().ok()?;
    match (uri.scheme_str(), uri.authority(), uri.path_and_query()) {
        (Some(sc), Some(au), Some(pq)) => Some(
            (sc.to_string(), au.as_str().to_string(), pq.as_str().to_string()),
        ),
        _ => None,
    }
}

/// `/proxy/`, the path prefix of the rewriting route.
pub open spec fn proxy_prefix() -> Seq<char> {
    seq!['/', 'p', 'r', 'o', 'x', 'y', '/']
}

/// First index at or after `i` that does not hold `/`, or the length of `s`.
pub open spec fn slashes_end(s: Seq<char>, i: int) -> int
    decreases s.len() - i,
{
    if 0 <= i < s.len() && s[i] == '/' {
        slashes_end(s, i + 1)
    } else {
        i
    }
}

/// `s` without its leading `/` characters.
pub open spec fn trim_slashes(s: Seq<char>) -> Seq<char> {
    s.subrange(slashes_end(s, 0), s.len() as int)
}

/// The inbound path names a target: it starts with the prefix and has
/// something after it.
pub open spec fn has_target(path: Seq<char>) -> bool {
    has_at(path, 0, proxy_prefix()) && path.len() > proxy_prefix().len()
}

/// What follows the prefix.
pub open spec fn remainder_of(path: Seq<char>) -> Seq<char> {
    path.subrange(proxy_prefix().len() as int, path.len() as int)
}

pub open spec fn parts_view(p: Option<(String, String, String)>) -> Option<
    (Seq<char>, Seq<char>, Seq<char>),
> {
    match p {
        Some(t) => Some((t.0@, t.1@, t.2@)),
        None => None,
    }
}

/// The target for a remainder whose slash-trimmed form parsed into `parts`:
/// `scheme://authority/path` with the path's leading slashes collapsed to one,
/// or the remainder itself where there is no scheme and authority.
pub open spec fn normalized(rem: Seq<char>, parts: Option<(Seq<char>, Seq<char>, Seq<char>)>) -> Seq<
    char,
> {
    match parts {
        Some((sc, au, pq)) => sc + seq![':', '/', '/'] + au + seq!['/'] + trim_slashes(pq),
        None => rem,
    }
}

/// The target that an inbound path resolves to.
pub open spec fn resolved(path: Seq<char>) -> Seq<char> {
    normalized(remainder_of(path), uri_parts(trim_slashes(remainder_of(path))))
}

fn slashes_end_exec(s: &Vec<char>, from: usize) -> (r: usize)
    requires
        from <= s.len(),
    ensures
        r as int == slashes_end(s@, from as int),
        from <= r <= s.len(),
{
    let mut i: usize = from;
    while i < s.len() && s[i] == '/'
        invariant
            from <= i <= s.len(),
            slashes_end(s@, i as int) == slashes_end(s@, from as int),
        decreases s.len() - i,
    {
        i += 1;
    }
    i
}

/// `trim_slashes(s)`.
pub fn trim_leading_slashes(s: &Vec<char>) -> (r: Vec<char>)
    ensures
        r@ == trim_slashes(s@),
{
    let e = slashes_end_exec(s, 0);
    let mut r: Vec<char> = Vec::new();
    extend_range(&mut r, s, e, s.len());
    assert(r@ =~= trim_slashes(s@));
    r
}

/// Builds the target from a remainder and what the URI parser found in its
/// slash-trimmed form.
pub fn normalize_target(remainder: &str, parts: Option<(String, String, String)>) -> (r: String)
    ensures
        r@ == normalized(remainder@, parts_view(parts)),
{
    match parts {
        None => remainder.to_owned(),
        Some((sc, au, pq)) => {
            let mut out: Vec<char> = chars_of(sc.as_str());
            out.push(':');
            out.push('/');
            out.push('/');
            let a = chars_of(au.as_str());
            extend_range(&mut out, &a, 0, a.len());
            out.push('/');
            let p = trim_leading_slashes(&chars_of(pq.as_str()));
            extend_range(&mut out, &p, 0, p.len());
            assert(a@.subrange(0, a@.len() as int) =~= a@);
            assert(p@.subrange(0, p@.len() as int) =~= p@);
            assert(out@ =~= normalized(remainder@, parts_view(Some((sc, au, pq)))));
            string_from_chars(out)
        },
    }
}

/// Resolves an inbound path and query such as `/proxy/https://example.com/x`
/// into the upstream target. `None` where the path does not start with
/// `/proxy/` or has nothing after it.
pub fn resolve_target(path_and_query: &str) -> (r: Option<String>)
    ensures
        r is None <==> !has_target(path_and_query@),
        r matches Some(t) ==> t@ == resolved(path_and_query@),
{
    let path = chars_of(path_and_query);
    let prefix: Vec<char> = vec!['/', 'p', 'r', 'o', 'x', 'y', '/'];
    assert(prefix@ =~= proxy_prefix());
    if !(has_at_exec(&path, 0, &prefix) && path.len() > prefix.len()) {
        return None;
    }
    let mut rem: Vec<char> = Vec::new();
    extend_range(&mut rem, &path, prefix.len(), path.len());
    let trimmed = trim_leading_slashes(&rem);
    let parts = parse_uri_parts(string_from_chars(trimmed).as_str());
    Some(normalize_target(string_from_chars(rem).as_str(), parts))
}

} // verus!
