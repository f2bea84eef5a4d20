//! What the scanner asks of the `url` crate: the parts of a parsed URL, and
//! a URL re-serialized with another path.

use vstd::prelude::*;

verus! {

/// `url::Url::parse` accepts the text.
pub uninterp spec fn url_parses(s: Seq<char>) -> bool;

/// `Url::scheme` of the parsed text.
pub uninterp spec fn url_scheme(s: Seq<char>) -> Seq<char>;

/// `Url::host_str` of the parsed text.
pub uninterp spec fn url_host(s: Seq<char>) -> Option<Seq<char>>;

/// `Url::port` of the parsed text (absent when it is the scheme's default).
pub uninterp spec fn url_port(s: Seq<char>) -> Option<u16>;

/// `Url::path` of the parsed text.
pub uninterp spec fn url_path(s: Seq<char>) -> Seq<char>;

/// The serialization (`Url::to_string`) of the parsed text after
/// `Url::set_path(path)`.
pub uninterp spec fn url_with_path(s: Seq<char>, path: Seq<char>) -> Seq<char>;

/// The components of a parsed URL that the scanner reads.
pub struct UrlParts {
    pub scheme: String,
    pub host: Option<String>,
    pub port: Option<u16>,
    pub path: String,
}

/// Calls `url::Url::parse` and reads `scheme`, `host_str`, `port` and `path`
/// of the result. The contract claims only that the parts are those the named
/// accessors give for this text, and that parsing succeeds exactly when
/// `url_parses` holds.
#[verifier::external_body]
pub(crate) fn parse_url(s: &str) -> (r: Option<UrlParts>)
    ensures
        r is Some <==> url_parses(s@),
        r matches Some(p) ==> {
            &&& p.scheme@ == url_scheme(s@)
            &&& p.host.is_some() == url_host(s@).is_some()
            &&& (p.host matches Some(h) ==> url_host(s@) == Some(h@))
            &&& p.port == url_port(s@)
            &&& p.path@ == url_path(s@)
        },
{
    match url::Url::parse(s) {
        Ok(u) => Some(
            UrlParts {
                scheme: u.scheme().to_string(),
                host: u.host_str().map(|h| h.to_string()),
                port: u.port(),
                path: u.path().to_string(),
            },
        ),
        Err(_) => None,
    }
}

/// Calls `url::Url::parse`, then `Url::set_path(path)` and `Url::to_string`.
/// The contract claims that the result is present exactly when the text
/// parses, and is the serialization named `url_with_path`.
#[verifier::external_body]
pub(crate) fn url_replace_path(s: &str, path: &str) -> (r: Option<String>)
    ensures
        r is Some <==> url_parses(s@),
        r matches Some(t) ==> t@ == url_with_path(s@, path@),
{
    match url::Url::parse(s) {
        Ok(mut u) => {
            u.set_path(path);
            Some(u.to_string())
        },
        Err(_) => None,
    }
}

} // verus!
