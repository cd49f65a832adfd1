//! FakeHTTP as a protocol that upgrades TCP sockets.

use crate::locator;
use crate::locator::UrlParts;
use crate::text::same;
use crate::tunnel::fakehttp::handshake::FakeHttpPayload;
use vstd::prelude::*;
use vstd::string::*;

verus! {

/// How many seconds a connection may take.
pub const CONNECT_TIMEOUT_SECS: u64 = 8;

/// How many seconds a handshake may take.
pub const HANDSHAKE_TIMEOUT_SECS: u64 = 4;

/// Upgrades TCP sockets to FakeHTTP.
pub struct FakeHttpAdapter;

/// The host of a URL, or nothing.
pub open spec fn host_or_empty(url: UrlParts) -> Seq<char> {
    match locator::parts_view(url).0 {
        Some(host) => host,
        None => ""@,
    }
}

impl FakeHttpAdapter {
    pub fn new() -> (r: Self) {
        FakeHttpAdapter
    }

    /// Whether the URLs of a scheme are for this protocol.
    pub fn is_scheme_supported(&self, scheme: &str) -> (r: bool)
        ensures
            r == (scheme@ == "fakehttp"@),
    {
        same(scheme, "fakehttp")
    }

    /// How many seconds a connection of a scheme may take.
    pub fn connect_timeout(&self, scheme: &str) -> (r: Option<u64>)
        ensures
            r == if scheme@ == "fakehttp"@ {
                Some(8u64)
            } else {
                None
            },
    {
        if self.is_scheme_supported(scheme) {
            Some(CONNECT_TIMEOUT_SECS)
        } else {
            None
        }
    }

    /// How many upgrades of a scheme may be pending at once: one.
    pub fn max_pending_tcp_upgrades(&self, scheme: &str) -> (r: Option<usize>)
        ensures
            r == if scheme@ == "fakehttp"@ {
                Some(1usize)
            } else {
                None
            },
    {
        if self.is_scheme_supported(scheme) {
            Some(1)
        } else {
            None
        }
    }

    /// What a client pretends to ask for: HTTPS at the port of HTTPS, HTTP at all others.
    pub fn payload_for_url(url: &UrlParts) -> (r: FakeHttpPayload)
        ensures
            match r {
                FakeHttpPayload::Https { host } => url.port == Some(443u16) && host@
                    == host_or_empty(*url),
                FakeHttpPayload::Http { host } => url.port != Some(443u16) && host@
                    == host_or_empty(*url),
            },
    {
        let mut host = String::new();
        match &url.host {
            Some(h) => {
                host.append(h.as_str());
                assert(host@ =~= h@);
            },
            None => {
                proof {
                    reveal_strlit("");
                }
                assert(host@ =~= ""@);
            },
        }
        let port: u16 = match url.port {
            Some(p) => p,
            None => 80,
        };
        if port == 443 {
            FakeHttpPayload::Https { host }
        } else {
            FakeHttpPayload::Http { host }
        }
    }
}

/// What to report where the transport is not TCP.
pub fn needs_tcp() -> (r: &'static str)
    ensures
        r@ == "FakeHTTP protocol requires a TCP transport"@,
{
    "FakeHTTP protocol requires a TCP transport"
}

} // verus!
