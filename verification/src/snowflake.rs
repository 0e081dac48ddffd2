//! The server side of the transport: where relayed connections go.
use vstd::prelude::*;

use crate::net::SocketAddress;

verus! {

/// Why a connection cannot be relayed.
#[derive(Debug, Clone, Copy, PartialEq, Eq)]
pub enum TransportError {
    /// No ORPort is configured ("ORPort not configured").
    OrPortNotConfigured,
}

/// The server transport and the ORPort that connections are relayed to.
pub struct Transport {
    pub or_port: Option<SocketAddress>,
}

impl Transport {
    /// A transport relaying to `or_port`.
    pub fn new(or_port: Option<SocketAddress>) -> (t: Transport)
        ensures
            t.or_port == or_port,
    {
        Transport { or_port }
    }

    /// The address to relay an incoming connection to: the ORPort, which
    /// must be configured.
    pub fn or_address(&self) -> (r: Result<SocketAddress, TransportError>)
        ensures
            r == (match self.or_port {
                Some(a) => Ok(a),
                None => Err(TransportError::OrPortNotConfigured),
            }),
    {
        match self.or_port {
            Some(a) => Ok(a),
            None => Err(TransportError::OrPortNotConfigured),
        }
    }
}

} // verus!
