//! Provider endpoint URLs: what the `url` crate reads from them and the rule
//! that decides whether the service may call them.
use vstd::prelude::*;
use crate::error::{Error, Fault, invalid};
use crate::text::str_eq;

verus! {

/// The parts of a parsed URL that the service inspects.
#[derive(Debug)]
pub struct UrlParts {
    pub scheme: String,
    pub host: Option<String>,
    pub username: String,
    pub password: Option<String>,
    pub query: Option<String>,
    pub fragment: Option<String>,
    pub path: String,
    /// The URL as the `url` crate serializes it.
    pub text: String,
}

/// What a [`UrlParts`] holds, as text.
pub struct UrlView {
    pub scheme: Seq<char>,
    pub host: Option<Seq<char>>,
    pub username: Seq<char>,
    pub password: Option<Seq<char>>,
    pub query: Option<Seq<char>>,
    pub fragment: Option<Seq<char>>,
    pub path: Seq<char>,
    pub text: Seq<char>,
}

pub open spec fn opt_view(o: Option<String>) -> Option<Seq<char>> {
    match o {
        Some(s) => Some(s@),
        None => None,
    }
}

impl View for UrlParts {
    type V = UrlView;

    open spec fn view(&self) -> UrlView {
        UrlView {
            scheme: self.scheme@,
            host: opt_view(self.host),
            username: self.username@,
            password: opt_view(self.password),
            query: opt_view(self.query),
            fragment: opt_view(self.fragment),
            path: self.path@,
            text: self.text@,
        }
    }
}

/// The result of parsing text as an absolute URL with the `url` crate
/// (WHATWG URL parsing), or nothing where it is no URL.
pub uninterp spec fn parsed_url(raw: Seq<char>) -> Option<UrlView>;

/// `url::Url::parse`, read into its parts.
#[verifier::external_body]
pub(crate) fn parse_url(raw: &str) -> (r: Option<UrlParts>)
    ensures
        match r {
            Some(u) => parsed_url(raw@) == Some(u@),
            None => parsed_url(raw@) is None,
        },
{
    url::Url::parse(raw).ok().map(|u| UrlParts {
        scheme: u.scheme().to_owned(),
        host: u.host_str().map(str::to_owned),
        username: u.username().to_owned(),
        password: u.password().map(str::to_owned),
        query: u.query().map(str::to_owned),
        fragment: u.fragment().map(str::to_owned),
        path: u.path().to_owned(),
        text: u.to_string(),
    })
}

/// The texts of some string slices.
pub open spec fn slice_texts(items: Seq<&str>) -> Seq<Seq<char>> {
    items.map_values(|s: &str| s@)
}

/// The URL `url::Url::parse` reads from `base`, with its empty last path
/// segment dropped (`PathSegmentsMut::pop_if_empty`) and `segments` pushed,
/// each percent-encoded as a path segment; nothing where the text is no URL
/// or the URL cannot be a base.
pub uninterp spec fn url_with_segments(base: Seq<char>, segments: Seq<Seq<char>>) -> Option<UrlView>;

/// `url::Url::parse`, then `path_segments_mut` with `pop_if_empty` and
/// `extend` by the segments, read into its parts. Claimed: the result is
/// `url_with_segments` of the base and the segments.
#[verifier::external_body]
pub(crate) fn join_segments(base: &str, segments: &[&str]) -> (r: Option<UrlParts>)
    ensures
        match r {
            Some(u) => url_with_segments(base@, slice_texts(segments@)) == Some(u@),
            None => url_with_segments(base@, slice_texts(segments@)) is None,
        },
{
    let mut u = url::Url::parse(base).ok()?;
    u.path_segments_mut().ok()?.pop_if_empty().extend(segments);
    Some(UrlParts {
        scheme: u.scheme().to_owned(),
        host: u.host_str().map(str::to_owned),
        username: u.username().to_owned(),
        password: u.password().map(str::to_owned),
        query: u.query().map(str::to_owned),
        fragment: u.fragment().map(str::to_owned),
        path: u.path().to_owned(),
        text: u.to_string(),
    })
}

/// An IP address as its octets or segments.
#[derive(Debug, Clone, Copy)]
pub enum IpAddress {
    V4([u8; 4]),
    V6([u16; 8]),
}

/// The result of parsing text as an IP address with `core::net::IpAddr`'s
/// `FromStr`, or nothing where it is no address.
pub uninterp spec fn parsed_ip(text: Seq<char>) -> Option<IpAddress>;

/// `text.parse::<IpAddr>()`, read into octets or segments.
#[verifier::external_body]
fn parse_ip(text: &str) -> (r: Option<IpAddress>)
    ensures
        r == parsed_ip(text@),
{
    match text.parse::<core::net::IpAddr>() {
        Ok(core::net::IpAddr::V4(v)) => Some(IpAddress::V4(v.octets())),
        Ok(core::net::IpAddr::V6(v)) => Some(IpAddress::V6(v.segments())),
        Err(_) => None,
    }
}

/// `IpAddr::is_loopback`: `127.0.0.0/8` or `::1`.
pub open spec fn is_loopback(ip: IpAddress) -> bool {
    match ip {
        IpAddress::V4(o) => o@[0] == 127,
        IpAddress::V6(s) => s@ =~= seq![0u16, 0, 0, 0, 0, 0, 0, 1],
    }
}

/// A host that names this machine: `localhost` or a loopback address.
pub open spec fn is_local_host(host: Seq<char>) -> bool {
    host == "localhost"@ || match parsed_ip(host) {
        Some(ip) => is_loopback(ip),
        None => false,
    }
}

/// Whether a parsed URL may be called as a provider endpoint: HTTPS, or HTTP
/// on this machine, with a host and without user info or fragment.
pub open spec fn acceptable_endpoint(u: UrlView) -> bool {
    let local = match u.host {
        Some(h) => is_local_host(h),
        None => false,
    };
    &&& (u.scheme == "https"@ || (u.scheme == "http"@ && local))
    &&& u.host is Some
    &&& u.username.len() == 0
    &&& u.password is None
    &&& u.fragment is None
}

/// The fault `endpoint` reports for text, if any.
pub open spec fn endpoint_fault(raw: Seq<char>) -> Option<Fault> {
    match parsed_url(raw) {
        None => Some(Fault::Invalid("Invalid provider endpoint"@)),
        Some(u) => if acceptable_endpoint(u) {
            None
        } else {
            Some(
                Fault::Invalid(
                    "Provider endpoints require HTTPS (HTTP is allowed on loopback), without user info or fragments"@,
                ),
            )
        },
    }
}

pub fn is_loopback_address(ip: IpAddress) -> (r: bool)
    ensures
        r == is_loopback(ip),
{
    match ip {
        IpAddress::V4(o) => o[0] == 127,
        IpAddress::V6(s) => {
            let r = s[0] == 0 && s[1] == 0 && s[2] == 0 && s[3] == 0 && s[4] == 0 && s[5] == 0
                && s[6] == 0 && s[7] == 1;
            proof {
                if r {
                    assert(s@ =~= seq![0u16, 0, 0, 0, 0, 0, 0, 1]);
                }
                if s@ =~= seq![0u16, 0, 0, 0, 0, 0, 0, 1] {
                    assert(s@[7] == 1);
                }
            }
            r
        },
    }
}

/// Whether a host names this machine.
pub fn local_host(host: &str) -> (r: bool)
    ensures
        r == is_local_host(host@),
{
    if str_eq(host, "localhost") {
        return true;
    }
    match parse_ip(host) {
        Some(ip) => is_loopback_address(ip),
        None => false,
    }
}

/// `endpoint(raw)`: a provider endpoint URL, checked.
pub fn endpoint(raw: &str) -> (r: Result<UrlParts, Error>)
    ensures
        match r {
            Ok(u) => endpoint_fault(raw@) is None && parsed_url(raw@) == Some(u@),
            Err(e) => endpoint_fault(raw@) == Some(e@),
        },
{
    let url = match parse_url(raw) {
        Some(u) => u,
        None => return Err(invalid("Invalid provider endpoint")),
    };
    let local = match &url.host {
        Some(h) => local_host(h.as_str()),
        None => false,
    };
    let scheme = url.scheme.as_str();
    if !(str_eq(scheme, "https") || (str_eq(scheme, "http") && local)) || url.host.is_none()
        || url.username.as_str().unicode_len() != 0 || url.password.is_some()
        || url.fragment.is_some() {
        return Err(
            invalid(
                "Provider endpoints require HTTPS (HTTP is allowed on loopback), without user info or fragments",
            ),
        );
    }
    Ok(url)
}

} // verus!
