//! Verified core of a Snowflake proxy: addresses and their texts, SDP
//! answers without local candidates, session ids, broker requests and the
//! decisions on broker replies, the client count, and the pluggable
//! transport server setup.
use vstd::prelude::*;

pub mod broker;
pub mod display;
pub mod messages;
pub mod nat_type;
pub mod pt;
pub mod net;
pub mod session;
pub mod snowflake;
pub mod text;
pub mod tokens;
pub mod util;

verus! {
} // verus!
