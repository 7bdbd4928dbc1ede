//! Core of a minimal point-to-point VPN tunnel over UDP: the wire codec
//! for its three-variant message, the server's session table with free-id
//! pool and time-based expiry, the request/response handshake, and the
//! per-event forwarding decisions of the data plane. Payloads travel
//! Snappy-compressed; tokens gate every data message. The surrounding
//! I/O — sockets, the TUN device, the readiness loop — lives outside
//! this crate and only moves the bytes these functions hand it.

use vstd::prelude::*;

pub mod compress;
pub mod engine;
pub mod msg;
pub mod session;

verus! {

/// Size in bytes of the scratch buffer each side uses for one datagram
/// or one TUN frame.
pub const BUF_LEN: usize = 1600;

/// The standard Ethernet MTU; the largest raw packet a TUN frame is
/// expected to carry.
pub const MTU: usize = 1500;

} // verus!
