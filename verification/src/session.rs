//! The decisions of a proxy session once the broker has answered a poll.
use vstd::prelude::*;

use crate::messages::ProxyPollResponse;
use crate::text::{chars_equal, chars_of};
use crate::tokens::{Tokens, count_down};

verus! {

/// `"no match"`, the status of a poll for which no client was waiting.
pub open spec fn no_match_status() -> Seq<char> {
    seq!['n', 'o', ' ', 'm', 'a', 't', 'c', 'h']
}

/// What a session does with the broker's reply to a poll.
#[derive(Debug)]
pub enum PollOutcome {
    /// No client: the session gives its token back and ends.
    NoMatch,
    /// A match without an offer: the session fails ("No offer in response").
    MissingOffer,
    /// A client offer to answer, and the relay to carry its traffic to.
    Offer { offer: String, relay_url: String },
}

/// Decides on a poll reply: `"no match"` ends the session; otherwise the
/// offer is required, and the relay is the one the broker named, else
/// `relay_url_default`.
pub fn poll_outcome(resp: ProxyPollResponse, relay_url_default: String) -> (r: PollOutcome)
    ensures
        resp.status@ == no_match_status() ==> r is NoMatch,
        resp.status@ != no_match_status() ==> match resp.offer {
            None => r is MissingOffer,
            Some(offer) => r == (PollOutcome::Offer {
                offer,
                relay_url: match resp.relay_url {
                    Some(u) => u,
                    None => relay_url_default,
                },
            }),
        },
{
    let status = chars_of(resp.status.as_str());
    let no_match = ['n', 'o', ' ', 'm', 'a', 't', 'c', 'h'];
    assert(no_match@ =~= no_match_status());
    if chars_equal(status.as_slice(), no_match.as_slice()) {
        return PollOutcome::NoMatch;
    }
    match resp.offer {
        None => PollOutcome::MissingOffer,
        Some(offer) => {
            let relay_url = match resp.relay_url {
                Some(u) => u,
                None => relay_url_default,
            };
            PollOutcome::Offer { offer, relay_url }
        },
    }
}

/// Decides on a poll reply as [`poll_outcome`] does, and keeps the client
/// count: a session that found no client gives its token back; any other
/// keeps it.
pub fn on_poll_reply(tokens: &mut Tokens, resp: ProxyPollResponse, relay_url_default: String) -> (r:
    PollOutcome)
    ensures
        resp.status@ == no_match_status() ==> r is NoMatch,
        resp.status@ != no_match_status() ==> match resp.offer {
            None => r is MissingOffer,
            Some(offer) => r == (PollOutcome::Offer {
                offer,
                relay_url: match resp.relay_url {
                    Some(u) => u,
                    None => relay_url_default,
                },
            }),
        },
        r is NoMatch ==> final(tokens).clients() == count_down(old(tokens).clients()),
        !(r is NoMatch) ==> final(tokens).clients() == old(tokens).clients(),
        final(tokens).capacity() == old(tokens).capacity(),
{
    let r = poll_outcome(resp, relay_url_default);
    if let PollOutcome::NoMatch = r {
        tokens.ret();
    }
    r
}

} // verus!
