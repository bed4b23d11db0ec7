//! The WebSocket endpoints of the VPN and proxy servers, checked and written
//! in normal form by the `url` crate.

use vstd::prelude::*;

verus! {

/// The normal form that `url::Url::parse` gives `input`, or `None` where it
/// rejects `input`.
pub uninterp spec fn url_serialization(input: Seq<char>) -> Option<Seq<char>>;

/// Calls `url::Url::parse` and, on success, hands back the URL's
/// serialization (`String::from(Url)`). The contract claims only that the
/// outcome is the named normal form of the input, which the `url` crate
/// computes from the input alone.
#[verifier::external_body]
fn parse_url(input: &str) -> (r: Option<String>)
    ensures
        match r {
            Some(s) => url_serialization(input@) == Some(s@),
            None => url_serialization(input@) is None,
        },
{
    match url::Url::parse(input) {
        Ok(u) => Some(String::from(u)),
        Err(_) => None,
    }
}

/// The endpoint at `address` in normal form, or `None` where it is not a URL.
pub fn endpoint_url(address: &str) -> (r: Option<String>)
    ensures
        match r {
            Some(s) => url_serialization(address@) == Some(s@),
            None => url_serialization(address@) is None,
        },
{
    parse_url(address)
}

/// The address of the VPN server's WebSocket endpoint.
pub open spec fn vpn_server_address() -> Seq<char> {
    "ws://10.0.10.20:8090/ws"@
}

/// The address of the proxy server's WebSocket endpoint.
pub open spec fn proxy_server_address() -> Seq<char> {
    "ws://10.0.10.30:8100/ws"@
}

/// The VPN server's endpoint, to which tunnel requests go.
pub fn vpn_server_url() -> (r: Option<String>)
    ensures
        match r {
            Some(s) => url_serialization(vpn_server_address()) == Some(s@),
            None => url_serialization(vpn_server_address()) is None,
        },
{
    endpoint_url("ws://10.0.10.20:8090/ws")
}

/// The proxy server's endpoint, to which subdomain requests go.
pub fn proxy_server_url() -> (r: Option<String>)
    ensures
        match r {
            Some(s) => url_serialization(proxy_server_address()) == Some(s@),
            None => url_serialization(proxy_server_address()) is None,
        },
{
    endpoint_url("ws://10.0.10.30:8100/ws")
}

} // verus!
