//! The signaling server (broker): where its endpoints are, what the proxy
//! sends it, and how its replies are judged. The HTTP exchange itself is the
//! caller's.
use vstd::prelude::*;

use crate::messages::{
    ProxyAnswerRequest, ProxyAnswerResponse, ProxyPollRequest, protocol_version,
};
use crate::text::chars_of;
use crate::util::{stripped_sdp, strip_local_addresses};

verus! {

#[verifier::external_type_specification]
#[verifier::external_body]
pub struct ExUrlParseError(url::ParseError);

/// Why the url crate refuses a URL: its `ParseError` variants, and `Other`
/// for any variant a later version adds.
#[derive(Debug, Clone, Copy, PartialEq, Eq)]
pub enum UrlError {
    EmptyHost,
    IdnaError,
    InvalidPort,
    InvalidIpv4Address,
    InvalidIpv6Address,
    InvalidDomainCharacter,
    RelativeUrlWithoutBase,
    RelativeUrlWithCannotBeABaseBase,
    SetHostOnCannotBeABaseUrl,
    Overflow,
    Other,
}

/// What `url::Url::parse` makes of `raw`: the serialization of the URL, or
/// the error it refuses `raw` with.
pub uninterp spec fn url_parsed(raw: Seq<char>) -> Result<Seq<char>, UrlError>;

/// What `url::Url::join` makes of `input` relative to the URL serialized as
/// `base`: the serialization of the joined URL, or the error.
pub uninterp spec fn url_joined(base: Seq<char>, input: Seq<char>) -> Result<Seq<char>, UrlError>;

/// The [`UrlError`] that stands for a `url::ParseError`, variant by variant.
///
/// Trusted: only tells the variants of `url::ParseError` apart; nothing is
/// claimed of the result.
#[verifier::external_body]
fn url_error(e: url::ParseError) -> UrlError {
    match e {
        url::ParseError::EmptyHost => UrlError::EmptyHost,
        url::ParseError::IdnaError => UrlError::IdnaError,
        url::ParseError::InvalidPort => UrlError::InvalidPort,
        url::ParseError::InvalidIpv4Address => UrlError::InvalidIpv4Address,
        url::ParseError::InvalidIpv6Address => UrlError::InvalidIpv6Address,
        url::ParseError::InvalidDomainCharacter => UrlError::InvalidDomainCharacter,
        url::ParseError::RelativeUrlWithoutBase => UrlError::RelativeUrlWithoutBase,
        url::ParseError::RelativeUrlWithCannotBeABaseBase => UrlError::RelativeUrlWithCannotBeABaseBase,
        url::ParseError::SetHostOnCannotBeABaseUrl => UrlError::SetHostOnCannotBeABaseUrl,
        url::ParseError::Overflow => UrlError::Overflow,
        _ => UrlError::Other,
    }
}

/// Parses an absolute URL and gives its serialization.
///
/// Trusted: calls `url::Url::parse`, converts the URL into its serialization
/// (`String::from`) and the error into a [`UrlError`]. The contract ties the
/// outcome, text or error, to the name `url_parsed(raw)`.
#[verifier::external_body]
fn parse_url(raw: &str) -> (r: Result<String, UrlError>)
    ensures
        match r {
            Ok(s) => url_parsed(raw@) == Ok::<Seq<char>, UrlError>(s@),
            Err(e) => url_parsed(raw@) == Err::<Seq<char>, UrlError>(e),
        },
{
    url::Url::parse(raw).map(String::from).map_err(url_error)
}

/// Resolves `input` against the URL serialized as `base`.
///
/// Trusted: calls `url::Url::join` on the URL that `url::Url::parse` reads
/// back from `base` (a serialization that `parse` produced reads back to the
/// same URL), and converts the result into its serialization and the error
/// into a [`UrlError`]. The contract ties the outcome to the name
/// `url_joined(base, input)`.
#[verifier::external_body]
fn join_url(base: &str, input: &str) -> (r: Result<String, UrlError>)
    ensures
        match r {
            Ok(s) => url_joined(base@, input@) == Ok::<Seq<char>, UrlError>(s@),
            Err(e) => url_joined(base@, input@) == Err::<Seq<char>, UrlError>(e),
        },
{
    match url::Url::parse(base) {
        Ok(u) => u.join(input).map(String::from).map_err(url_error),
        Err(e) => Err(url_error(e)),
    }
}

/// Why a request to the broker could not be made or was refused.
#[derive(Debug, PartialEq, Eq)]
pub enum BrokerError {
    /// The broker URL, or an endpoint built from it, is not a valid URL.
    InvalidUrl(UrlError),
    /// The broker answered with this HTTP status code, which is not a success.
    Status(u16),
}

/// `"proxy"`, the path of the poll endpoint.
pub open spec fn poll_path() -> Seq<char> {
    seq!['p', 'r', 'o', 'x', 'y']
}

/// `"answer"`, the path of the answer endpoint.
pub open spec fn answer_path() -> Seq<char> {
    seq!['a', 'n', 's', 'w', 'e', 'r']
}

/// `"success"`, the status of an accepted answer.
pub open spec fn success_status() -> Seq<char> {
    seq!['s', 'u', 'c', 'c', 'e', 's', 's']
}

/// A broker: the serialization of its base URL and whether local addresses
/// are kept in answers.
pub struct SignalingServer {
    url: String,
    keep_local_addresses: bool,
}

impl SignalingServer {
    /// The serialization of the broker's base URL.
    pub closed spec fn endpoint(&self) -> Seq<char> {
        self.url@
    }

    /// Whether answers keep local addresses.
    pub closed spec fn keeps_local_addresses(&self) -> bool {
        self.keep_local_addresses
    }

    /// A broker at `raw_url`; fails exactly where the URL does not parse.
    pub fn new(raw_url: &str, keep_local_addresses: bool) -> (r: Result<SignalingServer, BrokerError>)
        ensures
            match url_parsed(raw_url@) {
                Ok(u) => r matches Ok(s) && s.endpoint() == u && s.keeps_local_addresses()
                    == keep_local_addresses,
                Err(e) => r matches Err(x) && x == BrokerError::InvalidUrl(e),
            },
    {
        match parse_url(raw_url) {
            Ok(url) => Ok(SignalingServer { url, keep_local_addresses }),
            Err(e) => Err(BrokerError::InvalidUrl(e)),
        }
    }

    /// Whether answers keep local addresses.
    pub fn keep_local_addresses(&self) -> (r: bool)
        ensures
            r == self.keeps_local_addresses(),
    {
        self.keep_local_addresses
    }

    /// The poll endpoint (`proxy` relative to the base URL) and the poll
    /// request to send there.
    pub fn poll_offer_request(
        &self,
        sid: &str,
        proxy_type: &str,
        nat_type: &str,
        clients: i32,
        accepted_relay_pattern: Option<String>,
    ) -> (r: Result<(String, ProxyPollRequest), BrokerError>)
        ensures
            url_joined(self.endpoint(), poll_path()) matches Err(e) ==> r matches Err(x) && x
                == BrokerError::InvalidUrl(e),
            url_joined(self.endpoint(), poll_path()) is Ok ==> r is Ok,
            r matches Ok((u, req)) ==> {
                &&& url_joined(self.endpoint(), poll_path()) == Ok::<Seq<char>, UrlError>(u@)
                &&& req.sid@ == sid@
                &&& req.version@ == protocol_version()
                &&& req.proxy_type@ == proxy_type@
                &&& req.nat@ == nat_type@
                &&& req.clients == clients
                &&& req.accepted_relay_pattern == accepted_relay_pattern
            },
    {
        proof {
            reveal_strlit("proxy");
            assert("proxy"@ =~= poll_path());
        }
        let poll_url = match join_url(self.url.as_str(), "proxy") {
            Ok(u) => u,
            Err(e) => {
                return Err(BrokerError::InvalidUrl(e));
            },
        };
        let request = ProxyPollRequest::new(
            sid,
            proxy_type,
            nat_type,
            clients,
            accepted_relay_pattern,
        );
        Ok((poll_url, request))
    }

    /// The answer endpoint (`answer` relative to the base URL) and the answer
    /// request to send there.
    pub fn send_answer_request(&self, sid: &str, answer: String) -> (r: Result<
        (String, ProxyAnswerRequest),
        BrokerError,
    >)
        ensures
            url_joined(self.endpoint(), answer_path()) matches Err(e) ==> r matches Err(x) && x
                == BrokerError::InvalidUrl(e),
            url_joined(self.endpoint(), answer_path()) is Ok ==> r is Ok,
            r matches Ok((u, req)) ==> {
                &&& url_joined(self.endpoint(), answer_path()) == Ok::<Seq<char>, UrlError>(u@)
                &&& req.version@ == protocol_version()
                &&& req.sid@ == sid@
                &&& req.answer == answer
            },
    {
        proof {
            reveal_strlit("answer");
            assert("answer"@ =~= answer_path());
        }
        let answer_url = match join_url(self.url.as_str(), "answer") {
            Ok(u) => u,
            Err(e) => {
                return Err(BrokerError::InvalidUrl(e));
            },
        };
        let request = ProxyAnswerRequest::new(sid, answer);
        Ok((answer_url, request))
    }

    /// The SDP text to send as the answer: unchanged when local addresses
    /// are kept, else with local host candidates removed.
    pub fn answer_sdp(&self, sdp: &str) -> (r: String)
        ensures
            r@ == (if self.keeps_local_addresses() {
                sdp@
            } else {
                stripped_sdp(sdp@)
            }),
    {
        if self.keep_local_addresses {
            String::from_str(sdp)
        } else {
            strip_local_addresses(sdp)
        }
    }
}

/// Judges the HTTP status code of a broker reply: success codes (200 to 299)
/// pass, any other is refused.
pub fn check_status(status: u16) -> (r: Result<(), BrokerError>)
    ensures
        r is Ok <==> 200 <= status <= 299,
        r matches Err(e) ==> e == BrokerError::Status(status),
{
    if 200 <= status && status <= 299 {
        Ok(())
    } else {
        Err(BrokerError::Status(status))
    }
}

/// Whether the broker accepted an answer: its status is `"success"`.
pub fn answer_accepted(resp: &ProxyAnswerResponse) -> (r: bool)
    ensures
        r == (resp.status@ == success_status()),
{
    let status = chars_of(resp.status.as_str());
    let expected = ['s', 'u', 'c', 'c', 'e', 's', 's'];
    assert(expected@ =~= success_status());
    crate::text::chars_equal(status.as_slice(), expected.as_slice())
}

} // verus!
