//! Completing portal-relative URIs into absolute URLs.

use crate::text::concat;
use vstd::prelude::*;

verus! {

/// The scheme, authority, and path-and-query of the URI that `s` parses to, each
/// where present; `None` where `s` is no URI.
pub uninterp spec fn uri_parts_of(s: Seq<char>) -> Option<
    (Option<Seq<char>>, Option<Seq<char>>, Option<Seq<char>>),
>;

/// Relies on http::Uri's `FromStr` and `Uri::into_parts`: the scheme, authority
/// and path-and-query of a URI, as text.
#[verifier::external_body]
fn uri_parts(s: &str) -> (r: Option<(Option<String>, Option<String>, Option<String>)>)
    ensures
        match r {
            Some((a, b, c)) => uri_parts_of(s@) == Some(
                (opt_view(a), opt_view(b), opt_view(c)),
            ),
            None => uri_parts_of(s@) is None,
        },
{
    let p = s.parse::<http::Uri>().ok()?.into_parts();
    Some((
        p.scheme.map(|x| x.as_str().to_owned()),
        p.authority.map(|x| x.as_str().to_owned()),
        p.path_and_query.map(|x| x.as_str().to_owned()),
    ))
}

pub open spec fn opt_view(o: Option<String>) -> Option<Seq<char>> {
    match o {
        Some(s) => Some(s@),
        None => None,
    }
}

/// The portal's host, assumed where a URI names none.
pub open spec fn default_host() -> Seq<char> {
    "course.pku.edu.cn"@
}

/// The absolute URL for `uri`: its scheme (`https` by default), its authority
/// (the portal's host by default) and its path and query.
pub open spec fn converted_uri_of(uri: Seq<char>) -> Option<Seq<char>> {
    match uri_parts_of(uri) {
        None => None,
        Some((scheme, authority, pq)) => Some(
            match scheme {
                Some(s) => s,
                None => "https"@,
            } + "://"@ + match authority {
                Some(a) => a,
                None => default_host(),
            } + match pq {
                Some(p) => p,
                None => Seq::empty(),
            },
        ),
    }
}

/// Why a URI could not be completed.
#[derive(Debug, Clone, Copy, PartialEq, Eq, Structural)]
pub enum UriError {
    /// The text is not a URI.
    InvalidUri,
}

/// Completes `uri` into an absolute URL: scheme `https` and the portal's host
/// where it names none.
pub fn convert_uri(uri: &str) -> (r: Result<String, UriError>)
    ensures
        match r {
            Ok(u) => converted_uri_of(uri@) == Some(u@),
            Err(_) => converted_uri_of(uri@) is None,
        },
{
    let (scheme, authority, pq) = match uri_parts(uri) {
        Some(p) => p,
        None => return Err(UriError::InvalidUri),
    };
    let mut url = match &scheme {
        Some(s) => concat(s.as_str(), "://"),
        None => concat("https", "://"),
    };
    match &authority {
        Some(a) => url.append(a.as_str()),
        None => url.append("course.pku.edu.cn"),
    }
    match &pq {
        Some(p) => url.append(p.as_str()),
        None => {
            proof {
                reveal_strlit("");
            }
            url.append("");
        },
    }
    Ok(url)
}

} // verus!
