//! The library's own representation of a parsed URL, and the admissibility
//! filter over schemes and hosts.
//!
//! Parsing and reference resolution are the `url` crate's work and stand
//! behind trusted wrappers; everything the crawl logic reads of a URL — the
//! fragment-stripped serialization, the scheme, the host — is carried here as
//! plain values, so the decisions over them are verified.

use vstd::prelude::*;

use crate::text::{chars_eq, chars_end_with, chars_of, ends_with_spec, lower_chars, lower_seq, str_eq};

verus! {

/// The host of a parsed URL, as plain values.
#[derive(Debug)]
pub enum UrlHost {
    /// A DNS domain name (the `url` crate lowercases and IDNA-encodes it).
    Domain(String),
    /// An IPv4 address, as its four octets.
    Ipv4(u8, u8, u8, u8),
    /// An IPv6 address, as its eight 16-bit segments.
    Ipv6([u16; 8]),
}

/// The mathematical shape of a host.
pub enum HostModel {
    Domain(Seq<char>),
    Ipv4(u8, u8, u8, u8),
    Ipv6(Seq<u16>),
}

impl View for UrlHost {
    type V = HostModel;

    open spec fn view(&self) -> HostModel {
        match self {
            UrlHost::Domain(d) => HostModel::Domain(d@),
            UrlHost::Ipv4(a, b, c, d) => HostModel::Ipv4(*a, *b, *c, *d),
            UrlHost::Ipv6(s) => HostModel::Ipv6(s@),
        }
    }
}

impl Clone for UrlHost {
    fn clone(&self) -> (r: Self)
        ensures
            r@ == self@,
    {
        match self {
            UrlHost::Domain(d) => UrlHost::Domain(d.clone()),
            UrlHost::Ipv4(a, b, c, d) => UrlHost::Ipv4(*a, *b, *c, *d),
            UrlHost::Ipv6(s) => UrlHost::Ipv6(*s),
        }
    }
}

/// An absolute URL as the crawl engine sees it: the fragment-stripped
/// serialization the `url` crate produced, with the parts the logic reads.
#[derive(Debug)]
pub struct ParsedUrl {
    /// The full serialization with any fragment removed; the dedup key.
    pub normalized: String,
    /// The (lowercase) scheme.
    pub scheme: String,
    /// The parsed host, if the URL has one.
    pub host: Option<UrlHost>,
    /// The textual host (empty when the URL has none), as `host_str` shows it.
    pub host_text: String,
}

/// The mathematical shape of a parsed URL.
pub struct UrlModel {
    pub normalized: Seq<char>,
    pub scheme: Seq<char>,
    pub host: Option<HostModel>,
    pub host_text: Seq<char>,
}

impl View for ParsedUrl {
    type V = UrlModel;

    open spec fn view(&self) -> UrlModel {
        UrlModel {
            normalized: self.normalized@,
            scheme: self.scheme@,
            host: match self.host {
                Some(h) => Some(h@),
                None => None,
            },
            host_text: self.host_text@,
        }
    }
}

impl DeepView for ParsedUrl {
    type V = UrlModel;

    open spec fn deep_view(&self) -> UrlModel {
        self.view()
    }
}

impl Clone for ParsedUrl {
    fn clone(&self) -> (r: Self)
        ensures
            r@ == self@,
    {
        ParsedUrl {
            normalized: self.normalized.clone(),
            scheme: self.scheme.clone(),
            host: match &self.host {
                Some(h) => Some(h.clone()),
                None => None,
            },
            host_text: self.host_text.clone(),
        }
    }
}

/// What parsing an absolute URL string and stripping its fragment yields: a
/// function of the string alone, computed by the `url` crate.
pub uninterp spec fn url_parse_of(s: Seq<char>) -> Option<UrlModel>;

/// What resolving a reference against a base URL string and stripping the
/// fragment yields: a function of the two strings alone, computed by the
/// `url` crate.
pub uninterp spec fn url_resolve_of(base: Seq<char>, href: Seq<char>) -> Option<UrlModel>;

pub open spec fn opt_url_model(r: Option<ParsedUrl>) -> Option<UrlModel> {
    match r {
        Some(u) => Some(u@),
        None => None,
    }
}

/// Relies on `url::Url::parse` and `Url::set_fragment(None)`: parses an
/// absolute URL, drops its fragment, and hands back the serialization,
/// scheme, and host exactly as the crate reports them.
#[verifier::external_body]
pub fn parse_url(s: &str) -> (r: Option<ParsedUrl>)
    ensures
        opt_url_model(r) == url_parse_of(s@),
{
    let mut u = match url::Url::parse(s) {
        Ok(u) => u,
        Err(_) => return None,
    };
    u.set_fragment(None);
    Some(convert_url(u))
}

/// Relies on `url::Url::parse` and `Url::join`: parses the base, resolves
/// `href` against it, drops the fragment, and hands the parts back exactly as
/// the crate reports them.
#[verifier::external_body]
pub fn resolve_url(base: &str, href: &str) -> (r: Option<ParsedUrl>)
    ensures
        opt_url_model(r) == url_resolve_of(base@, href@),
{
    let b = match url::Url::parse(base) {
        Ok(u) => u,
        Err(_) => return None,
    };
    let mut u = match b.join(href) {
        Ok(u) => u,
        Err(_) => return None,
    };
    u.set_fragment(None);
    Some(convert_url(u))
}

/// The `url` crate's URL type, opaque to the verifier; it only passes from
/// the parsing wrappers into the conversion below.
#[verifier::external_type_specification]
#[verifier::external_body]
pub struct ExUrl(url::Url);

/// Relies on `url::Url`'s accessors `host`, `host_str`, `scheme` and the
/// `String` conversion of the serialization: copies what the crate reports
/// into plain values, one for one.
#[verifier::external_body]
fn convert_url(u: url::Url) -> ParsedUrl {
    let host = match u.host() {
        None => None,
        Some(url::Host::Domain(d)) => Some(UrlHost::Domain(d.to_owned())),
        Some(url::Host::Ipv4(ip)) => {
            let o = ip.octets();
            Some(UrlHost::Ipv4(o[0], o[1], o[2], o[3]))
        },
        Some(url::Host::Ipv6(ip)) => Some(UrlHost::Ipv6(ip.segments())),
    };
    let host_text = u.host_str().unwrap_or("").to_owned();
    ParsedUrl { scheme: u.scheme().to_owned(), host, host_text, normalized: u.into() }
}

/// Whether the scheme is `http` or `https`.
pub open spec fn is_http_scheme(scheme: Seq<char>) -> bool {
    scheme == "http"@ || scheme == "https"@
}

pub fn has_http_scheme(u: &ParsedUrl) -> (r: bool)
    ensures
        r == is_http_scheme(u@.scheme),
{
    str_eq(u.scheme.as_str(), "http") || str_eq(u.scheme.as_str(), "https")
}

/// The IPv4 addresses the crawl treats as local: private, loopback,
/// link-local, broadcast, documentation, and unspecified ranges.
pub open spec fn is_local_ipv4_spec(a: u8, b: u8, c: u8, d: u8) -> bool {
    (a == 10 || (a == 172 && 16 <= b && b <= 31) || (a == 192 && b == 168))  // private
    || a == 127  // loopback
    || (a == 169 && b == 254)  // link-local
    || (a == 255 && b == 255 && c == 255 && d == 255)  // broadcast
    || ((a == 192 && b == 0 && c == 2) || (a == 198 && b == 51 && c == 100) || (a == 203 && b == 0
        && c == 113))  // documentation
    || (a == 0 && b == 0 && c == 0 && d == 0)  // unspecified
}

pub fn is_local_ipv4(a: u8, b: u8, c: u8, d: u8) -> (r: bool)
    ensures
        r == is_local_ipv4_spec(a, b, c, d),
{
    (a == 10 || (a == 172 && 16 <= b && b <= 31) || (a == 192 && b == 168)) || a == 127 || (a == 169
        && b == 254) || (a == 255 && b == 255 && c == 255 && d == 255) || ((a == 192 && b == 0 && c
        == 2) || (a == 198 && b == 51 && c == 100) || (a == 203 && b == 0 && c == 113)) || (a == 0
        && b == 0 && c == 0 && d == 0)
}

/// The IPv6 addresses the crawl treats as local: loopback, unique-local
/// (`fc00::/7`), and unspecified.
pub open spec fn is_local_ipv6_spec(s: Seq<u16>) -> bool {
    ||| (s[0] == 0 && s[1] == 0 && s[2] == 0 && s[3] == 0 && s[4] == 0 && s[5] == 0 && s[6] == 0
        && (s[7] == 0 || s[7] == 1))
    ||| (0xfc00 <= s[0] && s[0] <= 0xfdff)
}

pub fn is_local_ipv6(s: &[u16; 8]) -> (r: bool)
    ensures
        r == is_local_ipv6_spec(s@),
{
    (s[0] == 0 && s[1] == 0 && s[2] == 0 && s[3] == 0 && s[4] == 0 && s[5] == 0 && s[6] == 0 && (
    s[7] == 0 || s[7] == 1)) || (0xfc00 <= s[0] && s[0] <= 0xfdff)
}

/// The admissibility filter: `http`/`https` only, a host required, and local
/// hosts (loopback, private ranges, `.localhost` names) excluded unless
/// `allow_local` is set.
pub open spec fn allowed_spec(u: UrlModel, allow_local: bool) -> bool {
    &&& is_http_scheme(u.scheme)
    &&& match u.host {
        None => false,
        Some(h) => allow_local || match h {
            HostModel::Domain(d) => lower_seq(d) != "localhost"@ && !ends_with_spec(
                lower_seq(d),
                ".localhost"@,
            ),
            HostModel::Ipv4(a, b, c, d) => !is_local_ipv4_spec(a, b, c, d),
            HostModel::Ipv6(s) => !is_local_ipv6_spec(s),
        },
    }
}

/// Whether a URL may enter the frontier or become a source.
pub fn is_allowed(url: &ParsedUrl, allow_local: bool) -> (r: bool)
    ensures
        r == allowed_spec(url@, allow_local),
{
    if !has_http_scheme(url) {
        return false;
    }
    match &url.host {
        None => false,
        Some(h) => {
            if allow_local {
                return true;
            }
            match h {
                UrlHost::Domain(d) => {
                    let dl = lower_chars(&chars_of(d.as_str()));
                    let not_name = !chars_eq(&dl, &chars_of("localhost"));
                    let not_suffix = !chars_end_with(&dl, &chars_of(".localhost"));
                    not_name && not_suffix
                },
                UrlHost::Ipv4(a, b, c, d) => !is_local_ipv4(*a, *b, *c, *d),
                UrlHost::Ipv6(s) => !is_local_ipv6(s),
            }
        },
    }
}

} // verus!
