//! Core of a peer-to-peer overlay stack: the secure channel codec, the
//! adaptive round-trip logic of the reliable large-datagram transport, and
//! the affinity-ordered peer iterator used by DHT lookups.

pub mod crypto;
pub mod ids;
pub mod channel;
pub mod rtt;
pub mod rldp;
pub mod peers_iter;
