//! The parts of URLs.

use vstd::prelude::*;
use vstd::string::*;

verus! {

/// The parts of a URL that are looked at.
#[derive(Debug, Clone, PartialEq, Eq)]
pub struct UrlParts {
    pub host: Option<String>,
    pub port: Option<u16>,
}

/// The host and the port of the URL that a text spells, if it spells one.
pub uninterp spec fn url_parts(text: Seq<char>) -> Option<(Option<Seq<char>>, Option<u16>)>;

/// The parts as mathematical values.
pub open spec fn parts_view(p: UrlParts) -> (Option<Seq<char>>, Option<u16>) {
    (
        match p.host {
            Some(h) => Some(h@),
            None => None,
        },
        p.port,
    )
}

/// Calls `url::Url::parse` and takes the host and the port out of its result, as
/// `Url::host_str` and `Url::port` give them. What they are depends on the text alone.
#[verifier::external_body]
pub(crate) fn parse_url(text: &str) -> (r: Option<UrlParts>)
    ensures
        r is Some == url_parts(text@) is Some,
        r matches Some(p) ==> parts_view(p) == url_parts(text@)->0,
{
    match url::Url::parse(text) {
        Ok(url) => Some(UrlParts { host: url.host_str().map(|h| h.to_string()), port: url.port() }),
        Err(_) => None,
    }
}

} // verus!
