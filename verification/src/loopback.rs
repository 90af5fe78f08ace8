//! Which hosts count as the machine itself.
use crate::multipart::{eq_ignore_case, just, same_but_case, skip_front, trim_front};
use crate::text::{cat3, opt_text, same, trim_end, trim_end_spec};
use vstd::prelude::*;

verus! {

/// The address of a host, as a number.
#[derive(Clone, Copy, PartialEq, Eq, Debug, Structural)]
pub enum IpAddress {
    V4(u32),
    V6(u128),
}

/// The address of the machine itself.
pub const LOCALHOST: u32 = 0x7f00_0001;

impl IpAddress {
    /// Whether an address is one of the machine itself: one that begins with
    /// 127, or the one of version 6.
    pub open spec fn is_loopback_spec(self) -> bool {
        match self {
            IpAddress::V4(n) => n / 0x100_0000 == 127,
            IpAddress::V6(n) => n == 1,
        }
    }

    pub fn is_loopback(self) -> (r: bool)
        ensures
            r == self.is_loopback_spec(),
    {
        match self {
            IpAddress::V4(n) => n / 0x100_0000 == 127,
            IpAddress::V6(n) => n == 1,
        }
    }

    /// Whether an address stands for all addresses.
    pub open spec fn is_unspecified_spec(self) -> bool {
        match self {
            IpAddress::V4(n) => n == 0,
            IpAddress::V6(n) => n == 0,
        }
    }

    pub fn is_unspecified(self) -> (r: bool)
        ensures
            r == self.is_unspecified_spec(),
    {
        match self {
            IpAddress::V4(n) => n == 0,
            IpAddress::V6(n) => n == 0,
        }
    }
}

/// The host that is looked up for a configured one.
pub open spec fn looked_up(host: Seq<char>) -> Seq<char> {
    if host == "localhost"@ {
        "127.0.0.1"@
    } else {
        host
    }
}

/// Names the host that is looked up for a configured one.
pub fn looked_up_host(host: &str) -> (r: String)
    ensures
        r@ == looked_up(host@),
{
    if same(host, "localhost") {
        "127.0.0.1".to_owned()
    } else {
        host.to_owned()
    }
}

/// The address that an emulator listens on for a configured host, given the
/// address that the host looked up is, if it is one. A committed file may name
/// all addresses, which stands for the machine itself.
pub open spec fn loopback_host_spec(
    host: Seq<char>,
    firebase_file: bool,
    parsed: Option<IpAddress>,
) -> Result<IpAddress, Seq<char>> {
    match parsed {
        None => Err(
            "emulator host `"@ + looked_up(host) + "` must be an IP address or localhost"@,
        ),
        Some(ip) => if ip.is_loopback_spec() {
            Ok(ip)
        } else if firebase_file && ip.is_unspecified_spec() {
            Ok(IpAddress::V4(LOCALHOST))
        } else {
            Err("emulator host `"@ + looked_up(host) + "` is not loopback"@)
        },
    }
}

/// Checks a configured host, given the address that it is.
pub fn parse_loopback_host(host: &str, firebase_file: bool, parsed: Option<IpAddress>) -> (r: Result<
    IpAddress,
    String,
>)
    ensures
        match r {
            Ok(ip) => loopback_host_spec(host@, firebase_file, parsed) == Ok::<_, Seq<char>>(ip),
            Err(e) => loopback_host_spec(host@, firebase_file, parsed) == Err::<IpAddress, _>(e@),
        },
{
    let name = looked_up_host(host);
    match parsed {
        None => Err(
            cat3("emulator host `", name.as_str(), "` must be an IP address or localhost"),
        ),
        Some(ip) => if ip.is_loopback() {
            Ok(ip)
        } else if firebase_file && ip.is_unspecified() {
            Ok(IpAddress::V4(LOCALHOST))
        } else {
            Err(cat3("emulator host `", name.as_str(), "` is not loopback"))
        },
    }
}

/// An emulator listens on the machine itself, whatever is configured.
pub proof fn emulators_listen_on_loopback(
    host: Seq<char>,
    firebase_file: bool,
    parsed: Option<IpAddress>,
)
    ensures
        loopback_host_spec(host, firebase_file, parsed) matches Ok(ip) ==> ip.is_loopback_spec(),
{
}

/// The host of an authority, as `axum::http::uri::Authority` parses it, if it
/// is one.
pub uninterp spec fn host_of_authority(text: Seq<char>) -> Option<Seq<char>>;

/// Parses an authority with the `FromStr` of `axum::http::uri::Authority` and
/// takes its `host`.
#[verifier::external_body]
fn authority_host(text: &str) -> (r: Option<String>)
    ensures
        opt_text(r) == host_of_authority(text@),
{
    text.parse::<axum::http::uri::Authority>().ok().map(|a| a.host().to_owned())
}

/// What `axum::http::Uri` parses of a text, if it is a URI: the scheme, the
/// host of the authority, the path, and whether there is a query.
pub uninterp spec fn uri_of_text(text: Seq<char>) -> Option<
    (Option<Seq<char>>, Option<Seq<char>>, Seq<char>, bool),
>;

/// The parts of a URI.
pub struct UriParts {
    pub scheme: Option<String>,
    pub host: Option<String>,
    pub path: String,
    pub has_query: bool,
}

impl View for UriParts {
    type V = (Option<Seq<char>>, Option<Seq<char>>, Seq<char>, bool);

    open spec fn view(&self) -> (Option<Seq<char>>, Option<Seq<char>>, Seq<char>, bool) {
        (opt_text(self.scheme), opt_text(self.host), self.path@, self.has_query)
    }
}

/// Parses a URI with the `FromStr` of `axum::http::Uri` and takes its
/// `scheme_str`, its `host`, its `path` and whether it has a `query`.
#[verifier::external_body]
fn parse_uri(text: &str) -> (r: Option<UriParts>)
    ensures
        (match r {
            Some(parts) => Some(parts@),
            None => None,
        }) == uri_of_text(text@),
{
    text.parse::<axum::http::Uri>().ok().map(|u| UriParts {
        scheme: u.scheme_str().map(str::to_owned),
        host: u.authority().map(|a| a.host().to_owned()),
        path: u.path().to_owned(),
        has_query: u.query().is_some(),
    })
}

/// A host without the brackets around an address of version 6.
pub open spec fn bare_host_spec(host: Seq<char>) -> Seq<char> {
    trim_end_spec(skip_front(host, just('[')), ']')
}

/// Takes the brackets around an address off.
pub fn bare_host(host: &str) -> (r: String)
    ensures
        r@ == bare_host_spec(host@),
{
    trim_end(trim_front(host, '[').as_str(), ']')
}

/// Whether a host is the machine itself, given the address that it is, if it
/// is one.
pub open spec fn is_local_host(host: Seq<char>, parsed: Option<IpAddress>) -> bool {
    same_but_case(host, "localhost"@) || (parsed is Some && parsed->0.is_loopback_spec())
}

/// Whether a host is the machine itself.
pub fn names_local_host(host: &str, parsed: Option<IpAddress>) -> (r: bool)
    ensures
        r == is_local_host(host@, parsed),
{
    let local = match parsed {
        Some(ip) => ip.is_loopback(),
        None => false,
    };
    eq_ignore_case(host, "localhost") || local
}

/// The host that a request is for: that of its header, else that of its
/// address; given what the host of either was parsed to.
pub open spec fn request_host_spec(header: Option<Seq<char>>, authority: Option<Seq<char>>) -> Option<
    Seq<char>,
> {
    let text = match header {
        Some(h) => Some(h),
        None => authority,
    };
    match text {
        None => None,
        Some(t) => match host_of_authority(t) {
            Some(host) => Some(bare_host_spec(host)),
            None => None,
        },
    }
}

/// Finds the host that a request is for.
pub fn request_host(header: Option<&str>, authority: Option<&str>) -> (r: Option<String>)
    ensures
        opt_text(r) == request_host_spec(
            match header {
                Some(h) => Some(h@),
                None => None,
            },
            match authority {
                Some(a) => Some(a@),
                None => None,
            },
        ),
{
    let text = match header {
        Some(h) => Some(h),
        None => authority,
    };
    match text {
        None => None,
        Some(t) => match authority_host(t) {
            Some(host) => Some(bare_host(host.as_str())),
            None => None,
        },
    }
}

/// The host of a browser's origin, given its parts: one of the web, without a
/// path and a query.
pub open spec fn origin_parts_host(
    parts: (Option<Seq<char>>, Option<Seq<char>>, Seq<char>, bool),
) -> Option<Seq<char>> {
    if (parts.0 != Some("http"@) && parts.0 != Some("https"@)) || parts.2 != "/"@ || parts.3 {
        None
    } else {
        match parts.1 {
            Some(host) => Some(bare_host_spec(host)),
            None => None,
        }
    }
}

/// Finds the host of a browser's origin, given its parts.
pub fn parsed_origin_host(parts: &UriParts) -> (r: Option<String>)
    ensures
        opt_text(r) == origin_parts_host(parts@),
{
    let web = match &parts.scheme {
        Some(scheme) => same(scheme.as_str(), "http") || same(scheme.as_str(), "https"),
        None => false,
    };
    if !web || !same(parts.path.as_str(), "/") || parts.has_query {
        return None;
    }
    match &parts.host {
        Some(host) => Some(bare_host(host.as_str())),
        None => None,
    }
}

/// The host of a browser's origin; none where it is no origin of the web.
pub open spec fn origin_host_spec(origin: Seq<char>) -> Option<Seq<char>> {
    match uri_of_text(origin) {
        None => None,
        Some(parts) => origin_parts_host(parts),
    }
}

/// Finds the host of a browser's origin.
pub fn origin_host(origin: &str) -> (r: Option<String>)
    ensures
        opt_text(r) == origin_host_spec(origin@),
{
    match parse_uri(origin) {
        None => None,
        Some(parts) => parsed_origin_host(&parts),
    }
}

/// Whether a request is served, given the host it is for and the origin that
/// it comes from, with the addresses that they are: both must be the machine
/// itself. A request that names no origin comes from no browser; one whose
/// origin cannot be read is refused.
pub open spec fn is_served(
    host: Option<Seq<char>>,
    host_ip: Option<IpAddress>,
    has_origin: bool,
    origin: Option<Seq<char>>,
    origin_ip: Option<IpAddress>,
) -> bool {
    &&& host is Some && is_local_host(host->0, host_ip)
    &&& has_origin ==> origin is Some && is_local_host(origin->0, origin_ip)
}

/// Decides whether a request is served.
pub fn serves_request(
    host: Option<&str>,
    host_ip: Option<IpAddress>,
    has_origin: bool,
    origin: Option<&str>,
    origin_ip: Option<IpAddress>,
) -> (r: bool)
    ensures
        r == is_served(
            match host {
                Some(h) => Some(h@),
                None => None,
            },
            host_ip,
            has_origin,
            match origin {
                Some(o) => Some(o@),
                None => None,
            },
            origin_ip,
        ),
{
    let local = match host {
        Some(h) => names_local_host(h, host_ip),
        None => false,
    };
    let safe = !has_origin || match origin {
        Some(o) => names_local_host(o, origin_ip),
        None => false,
    };
    local && safe
}

} // verus!
