//! The address the insights server listens on and the client talks to, read
//! from a URL such as `http://127.0.0.1:2020`.

use vstd::prelude::*;
use crate::text::{chars_eq, chars_of, extend, string_of};

verus! {

broadcast use vstd::string::group_string_axioms;

/// The URL the client and server use when none is set.
pub open spec fn default_server_url() -> Seq<char> {
    "http://127.0.0.1:2020"@
}

/// The URL the client and server use when none is set.
pub fn default_insights_server_url() -> (r: String)
    ensures
        r@ == default_server_url(),
{
    "http://127.0.0.1:2020".to_string()
}

/// The URL requests go to: the one `INSIGHTS_SERVER_URL` holds, or the
/// default.
pub fn get_insights_server_url(configured: Option<String>) -> (r: String)
    ensures
        r@ == match configured {
            Some(u) => u@,
            None => default_server_url(),
        },
{
    match configured {
        Some(u) => u,
        None => default_insights_server_url(),
    }
}

/// The host a URL names.
#[derive(Debug, PartialEq, Eq)]
pub enum UrlHost {
    Domain(String),
    Ipv4([u8; 4]),
    Ipv6([u16; 8]),
}

/// The mathematical content of a host.
pub enum HostView {
    Domain(Seq<char>),
    Ipv4(Seq<u8>),
    Ipv6(Seq<u16>),
}

impl View for UrlHost {
    type V = HostView;

    open spec fn view(&self) -> HostView {
        match self {
            UrlHost::Domain(d) => HostView::Domain(d@),
            UrlHost::Ipv4(a) => HostView::Ipv4(a@),
            UrlHost::Ipv6(a) => HostView::Ipv6(a@),
        }
    }
}

/// What the `url` crate reads in a URL, as far as finding its address goes.
pub struct UrlParts {
    pub cannot_be_a_base: bool,
    pub scheme: String,
    pub host: Option<UrlHost>,
    /// The port the URL gives, or its scheme's usual one.
    pub port: Option<u16>,
}

/// The mathematical content of what a URL reads as.
pub struct UrlView {
    pub cannot_be_a_base: bool,
    pub scheme: Seq<char>,
    pub host: Option<HostView>,
    pub port: Option<u16>,
}

/// The view of a parsed URL.
pub open spec fn url_view(p: UrlParts) -> UrlView {
    UrlView {
        cannot_be_a_base: p.cannot_be_a_base,
        scheme: p.scheme@,
        host: match p.host {
            Some(h) => Some(h@),
            None => None,
        },
        port: p.port,
    }
}

/// What `url::Url::parse` reads a URL as, or the message of its error.
pub uninterp spec fn parsed_url(s: Seq<char>) -> Result<UrlView, Seq<char>>;

/// The view of a parse's outcome.
pub open spec fn parse_view(r: Result<UrlParts, String>) -> Result<UrlView, Seq<char>> {
    match r {
        Ok(p) => Ok(url_view(p)),
        Err(e) => Err(e@),
    }
}

/// `url::Url::parse`, with what the address needs read out of the result:
/// `cannot_be_a_base`, `scheme`, `host` and `port_or_known_default`, or the
/// error's message. Its outcome is named, not stated.
#[verifier::external_body]
fn parse_url(s: &str) -> (r: Result<UrlParts, String>)
    ensures
        parse_view(r) == parsed_url(s@),
{
    let url = match url::Url::parse(s) {
        Ok(u) => u,
        Err(e) => return Err(e.to_string()),
    };
    let host = match url.host() {
        Some(url::Host::Domain(d)) => Some(UrlHost::Domain(d.to_string())),
        Some(url::Host::Ipv4(ip)) => Some(UrlHost::Ipv4(ip.octets())),
        Some(url::Host::Ipv6(ip)) => Some(UrlHost::Ipv6(ip.segments())),
        None => None,
    };
    Ok(UrlParts { cannot_be_a_base: url.cannot_be_a_base(), scheme: url.scheme().to_string(), host, port: url.port_or_known_default() })
}

/// The port a scheme falls back to when the URL gives none and the `url`
/// crate knows no default: 80 for `http`, 443 for `https`.
pub open spec fn fallback_port(scheme: Seq<char>) -> Option<u16> {
    if scheme == "http"@ {
        Some(80)
    } else if scheme == "https"@ {
        Some(443)
    } else {
        None
    }
}

/// What to look up to listen on or reach a server URL: its host and port,
/// or why there is none.
pub open spec fn socket_target_spec(url: Seq<char>) -> Result<(HostView, u16), Seq<char>> {
    match parsed_url(url) {
        Err(e) => Err("INSIGHTS_SERVER_URL: "@ + e),
        Ok(u) => if u.cannot_be_a_base {
            Err("INSIGHTS_SERVER_URL: "@ + "invalid base URL"@)
        } else {
            match u.host {
                None => Err("INSIGHTS_SERVER_URL: "@ + "No host name in the URL"@),
                Some(h) => match (if u.port is Some {
                    u.port
                } else {
                    fallback_port(u.scheme)
                }) {
                    None => Err("INSIGHTS_SERVER_URL: "@ + "No port number in the URL"@),
                    Some(p) => Ok((h, p)),
                },
            }
        },
    }
}

/// The view of a socket target.
pub open spec fn target_view(r: Result<(UrlHost, u16), String>) -> Result<(HostView, u16), Seq<char>> {
    match r {
        Ok((h, p)) => Ok((h@, p)),
        Err(e) => Err(e@),
    }
}

fn prefixed(message: &str) -> (r: String)
    ensures
        r@ == "INSIGHTS_SERVER_URL: "@ + message@,
{
    let mut out = chars_of("INSIGHTS_SERVER_URL: ");
    extend(&mut out, chars_of(message).as_slice());
    string_of(out.as_slice())
}

/// What to look up to listen on or reach a server URL. A host that is a
/// domain name is then resolved, and its first address taken.
pub fn socket_target(url: &str) -> (r: Result<(UrlHost, u16), String>)
    ensures
        target_view(r) == socket_target_spec(url@),
{
    let parts = match parse_url(url) {
        Ok(p) => p,
        Err(e) => return Err(prefixed(e.as_str())),
    };
    if parts.cannot_be_a_base {
        return Err(prefixed("invalid base URL"));
    }
    let host = match parts.host {
        Some(h) => h,
        None => return Err(prefixed("No host name in the URL")),
    };
    let port = match parts.port {
        Some(p) => Some(p),
        None => {
            let scheme = chars_of(parts.scheme.as_str());
            if chars_eq(scheme.as_slice(), chars_of("http").as_slice()) {
                Some(80u16)
            } else if chars_eq(scheme.as_slice(), chars_of("https").as_slice()) {
                Some(443u16)
            } else {
                None
            }
        },
    };
    match port {
        Some(p) => Ok((host, p)),
        None => Err(prefixed("No port number in the URL")),
    }
}

} // verus!
