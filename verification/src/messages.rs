//! The JSON messages exchanged with the broker, as plain values. Their
//! serialized field names are `Sid`, `Version`, `Type`, `NAT`, `Clients`,
//! `AcceptedRelayPattern`, `Status`, `Offer`, `RelayURL` and `Answer`.
use vstd::prelude::*;

verus! {

/// The protocol version that the proxy announces.
pub const VERSION: &'static str = "1.3";

/// The proxy type that the proxy reports when it knows no other.
pub const PROXY_UNKNOWN: &'static str = "unknown";

/// `"1.3"`, the protocol version as text.
pub open spec fn protocol_version() -> Seq<char> {
    seq!['1', '.', '3']
}

/// A proxy's request for a client offer.
#[derive(Debug)]
pub struct ProxyPollRequest {
    pub sid: String,
    pub version: String,
    pub proxy_type: String,
    pub nat: String,
    pub clients: i32,
    pub accepted_relay_pattern: Option<String>,
}

/// The broker's reply to a poll: a status and, on a match, the client's
/// offer, its NAT type and the relay to use.
#[derive(Debug)]
pub struct ProxyPollResponse {
    pub status: String,
    pub offer: Option<String>,
    pub nat: Option<String>,
    pub relay_url: Option<String>,
}

/// A proxy's answer to a client offer.
#[derive(Debug)]
pub struct ProxyAnswerRequest {
    pub version: String,
    pub sid: String,
    pub answer: String,
}

/// The broker's reply to an answer.
#[derive(Debug)]
pub struct ProxyAnswerResponse {
    pub status: String,
}

impl ProxyPollRequest {
    /// A poll request carrying the protocol version.
    pub fn new(
        sid: &str,
        proxy_type: &str,
        nat_type: &str,
        clients: i32,
        accepted_relay_pattern: Option<String>,
    ) -> (r: ProxyPollRequest)
        ensures
            r.sid@ == sid@,
            r.version@ == protocol_version(),
            r.proxy_type@ == proxy_type@,
            r.nat@ == nat_type@,
            r.clients == clients,
            r.accepted_relay_pattern == accepted_relay_pattern,
    {
        ProxyPollRequest {
            sid: String::from_str(sid),
            version: version_string(),
            proxy_type: String::from_str(proxy_type),
            nat: String::from_str(nat_type),
            clients,
            accepted_relay_pattern,
        }
    }
}

impl ProxyAnswerRequest {
    /// An answer request carrying the protocol version.
    pub fn new(sid: &str, answer: String) -> (r: ProxyAnswerRequest)
        ensures
            r.version@ == protocol_version(),
            r.sid@ == sid@,
            r.answer == answer,
    {
        ProxyAnswerRequest { version: version_string(), sid: String::from_str(sid), answer }
    }
}

/// The protocol version as an owned string.
pub fn version_string() -> (s: String)
    ensures
        s@ == protocol_version(),
{
    proof {
        reveal_strlit("1.3");
    }
    String::from_str(VERSION)
}

} // verus!
