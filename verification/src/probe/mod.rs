//! Probes: each turns some slice of the network into a graded hop.
//!
//! What a probe asks the network is up to its caller; what it makes of the
//! answers is decided here.

pub mod captive;
pub mod dns;
pub mod gateway;
pub mod host;
pub mod link;
pub mod net;
pub mod uplink;
pub mod vpn;
pub mod wan;
