use snowflake_proxy::messages::{ProxyAnswerRequest, ProxyPollRequest};
use snowflake_proxy::broker::{answer_accepted, check_status, BrokerError, SignalingServer, UrlError};
use snowflake_proxy::messages::{ProxyAnswerResponse, PROXY_UNKNOWN, VERSION};

#[test]
fn broker_endpoints_and_requests() {
    let b = SignalingServer::new("https://snowflake-broker.torproject.net/", false).unwrap();
    assert!(!b.keep_local_addresses());
    let (url, req) = b
        .poll_offer_request("sid1", "standalone", "unknown", 3, Some("^snowflake".to_string()))
        .unwrap();
    assert_eq!(url, "https://snowflake-broker.torproject.net/proxy");
    assert_eq!(req.sid, "sid1");
    assert_eq!(req.version, "1.3");
    assert_eq!(req.version, VERSION);
    assert_eq!(req.proxy_type, "standalone");
    assert_eq!(req.nat, "unknown");
    assert_eq!(req.clients, 3);
    assert_eq!(req.accepted_relay_pattern.as_deref(), Some("^snowflake"));
    let (url, req) = b.send_answer_request("sid2", "v=0".to_string()).unwrap();
    assert_eq!(url, "https://snowflake-broker.torproject.net/answer");
    assert_eq!(req.version, "1.3");
    assert_eq!(req.sid, "sid2");
    assert_eq!(req.answer, "v=0");
}

#[test]
fn broker_relative_join() {
    let b = SignalingServer::new("https://example.org/base/path", true).unwrap();
    let (url, _) = b.poll_offer_request("s", "t", "n", 0, None).unwrap();
    assert_eq!(url, "https://example.org/base/proxy");
}

#[test]
fn broker_rejects_bad_url() {
    assert!(matches!(SignalingServer::new("not a url", false), Err(BrokerError::InvalidUrl(_))));
    assert!(matches!(SignalingServer::new("", true), Err(BrokerError::InvalidUrl(_))));
    assert!(matches!(
        SignalingServer::new("not a url", false),
        Err(BrokerError::InvalidUrl(UrlError::RelativeUrlWithoutBase))
    ));
    assert!(matches!(
        SignalingServer::new("https://example.org:99999/", false),
        Err(BrokerError::InvalidUrl(UrlError::InvalidPort))
    ));
    assert!(matches!(
        SignalingServer::new("http://[::1/", false),
        Err(BrokerError::InvalidUrl(UrlError::InvalidIpv6Address))
    ));
}

#[test]
fn status_codes() {
    assert!(check_status(200).is_ok());
    assert!(check_status(204).is_ok());
    assert!(check_status(299).is_ok());
    assert!(matches!(check_status(199), Err(BrokerError::Status(199))));
    assert!(matches!(check_status(300), Err(BrokerError::Status(300))));
    assert!(matches!(check_status(404), Err(BrokerError::Status(404))));
}

#[test]
fn answers_accepted_only_on_success() {
    assert!(answer_accepted(&ProxyAnswerResponse { status: "success".to_string() }));
    assert!(!answer_accepted(&ProxyAnswerResponse { status: "client gone".to_string() }));
    assert!(!answer_accepted(&ProxyAnswerResponse { status: "success ".to_string() }));
    assert!(!answer_accepted(&ProxyAnswerResponse { status: String::new() }));
}

#[test]
fn answer_sdp_keeps_or_strips() {
    let sdp = "a=candidate:1 1 udp 1 10.0.0.1 1 typ host\nv=0";
    let keep = SignalingServer::new("https://b.example/", true).unwrap();
    assert_eq!(keep.answer_sdp(sdp), sdp);
    let strip = SignalingServer::new("https://b.example/", false).unwrap();
    assert_eq!(strip.answer_sdp(sdp), "v=0\r\n");
}

#[test]
fn constants() {
    assert_eq!(VERSION, "1.3");
    assert_eq!(PROXY_UNKNOWN, "unknown");
}

#[test]
fn request_constructors_carry_version() {
    let r = ProxyPollRequest::new("a", "b", "c", -1, None);
    assert_eq!((r.sid.as_str(), r.version.as_str(), r.proxy_type.as_str(), r.nat.as_str()), ("a", "1.3", "b", "c"));
    assert_eq!(r.clients, -1);
    assert!(r.accepted_relay_pattern.is_none());
    let a = ProxyAnswerRequest::new("s", "x".to_string());
    assert_eq!((a.version.as_str(), a.sid.as_str(), a.answer.as_str()), ("1.3", "s", "x"));
}
