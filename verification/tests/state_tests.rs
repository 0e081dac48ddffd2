use snowflake_proxy::messages::ProxyPollResponse;
use snowflake_proxy::nat_type::NATType;
use snowflake_proxy::net::SocketAddress;
use snowflake_proxy::session::{on_poll_reply, poll_outcome, PollOutcome};
use snowflake_proxy::snowflake::{Transport, TransportError};
use snowflake_proxy::tokens::Tokens;

#[test]
fn tokens_count_clients() {
    let mut t = Tokens::new(0);
    assert_eq!(t.count(), 0);
    assert_eq!(t.permits(), None);
    assert!(!t.get());
    assert!(!t.get());
    assert_eq!(t.count(), 2);
    t.ret();
    assert_eq!(t.count(), 1);
    t.ret();
    t.ret();
    assert_eq!(t.count(), -1);
}

#[test]
fn tokens_with_capacity_need_permits() {
    let mut t = Tokens::new(5);
    assert_eq!(t.permits(), Some(5));
    assert!(t.get());
    assert_eq!(t.count(), 1);
    t.ret();
    assert_eq!(t.count(), 0);
}

#[test]
fn nat_type_starts_unknown() {
    assert_eq!(NATType::new().get(), "unknown");
}

#[test]
fn transport_needs_or_port() {
    assert_eq!(Transport::new(None).or_address(), Err(TransportError::OrPortNotConfigured));
    let a = SocketAddress::V4 { ip: [127, 0, 0, 1], port: 9001 };
    assert_eq!(Transport::new(Some(a)).or_address(), Ok(a));
}

fn resp(status: &str, offer: Option<&str>, relay: Option<&str>) -> ProxyPollResponse {
    ProxyPollResponse {
        status: status.to_string(),
        offer: offer.map(|s| s.to_string()),
        nat: None,
        relay_url: relay.map(|s| s.to_string()),
    }
}

#[test]
fn poll_outcomes() {
    let d = "wss://default/".to_string();
    assert!(matches!(poll_outcome(resp("no match", None, None), d.clone()), PollOutcome::NoMatch));
    assert!(matches!(
        poll_outcome(resp("no match", Some("o"), Some("r")), d.clone()),
        PollOutcome::NoMatch
    ));
    assert!(matches!(poll_outcome(resp("client match", None, None), d.clone()), PollOutcome::MissingOffer));
    match poll_outcome(resp("client match", Some("offer"), None), d.clone()) {
        PollOutcome::Offer { offer, relay_url } => {
            assert_eq!(offer, "offer");
            assert_eq!(relay_url, "wss://default/");
        },
        other => panic!("unexpected {:?}", other),
    }
    match poll_outcome(resp("client match", Some("offer"), Some("wss://relay/")), d) {
        PollOutcome::Offer { offer, relay_url } => {
            assert_eq!(offer, "offer");
            assert_eq!(relay_url, "wss://relay/");
        },
        other => panic!("unexpected {:?}", other),
    }
}

#[test]
fn no_match_gives_the_token_back() {
    let mut t = Tokens::new(2);
    t.get();
    t.get();
    assert!(matches!(on_poll_reply(&mut t, resp("no match", None, None), "d".to_string()), PollOutcome::NoMatch));
    assert_eq!(t.count(), 1);
    assert!(matches!(
        on_poll_reply(&mut t, resp("client match", Some("o"), None), "d".to_string()),
        PollOutcome::Offer { .. }
    ));
    assert_eq!(t.count(), 1);
    assert!(matches!(on_poll_reply(&mut t, resp("x", None, None), "d".to_string()), PollOutcome::MissingOffer));
    assert_eq!(t.count(), 1);
}

#[test]
fn count_is_takes_minus_gives() {
    let mut t = Tokens::new(0);
    let ops = [true, true, false, true, false, false, false, true, true];
    for &op in ops.iter() {
        if op {
            t.get();
        } else {
            t.ret();
        }
    }
    assert_eq!(t.count(), 5 - 4);
    assert_eq!(t.count(), t.count());
}
