//! A minimal `ping` core: an ICMPv4 Echo packet codec and the state
//! machine of the probe loop that sends requests, matches replies and
//! aggregates round-trip statistics.

pub mod codec;
pub mod probe;
