//! A user-space TCP engine over raw IPv4.
//!
//! The library holds the protocol core: the connection state machine for
//! active and passive opens and closes, sliding-window flow control,
//! in-order reassembly with gap fill, and the retransmission bookkeeping.
//! It is written as a deterministic engine: every entry point takes plain
//! values (segments, byte buffers, the clock as a millisecond count) and
//! returns the segments to transmit and the events to publish, so a thin
//! unverified shell can drive it from a raw socket, a timer thread and
//! blocking application calls.

use vstd::prelude::*;

pub mod codec;
pub mod laws;
pub mod segment;
pub mod socket;
pub mod tcp;
pub mod tcpflags;

verus! {

/// Capacity of each connection's receive buffer, in bytes.
pub const SOCKET_BUFFER_SIZE: usize = 4380;

/// Maximum segment size: the largest payload put in a single segment.
pub const MSS: usize = 1460;

/// How often a queued segment may be (re)transmitted before the engine
/// gives up on it.
pub const MAX_TRANSMITTION: u8 = 5;

/// Fixed retransmission timeout, in milliseconds.
pub const RETRANSMITTION_TIMEOUT: u64 = 3000;

/// Local ports picked by an active open are drawn from
/// [PORT_RANGE_START, PORT_RANGE_END).
pub const PORT_RANGE_START: u16 = 40000;
pub const PORT_RANGE_END: u16 = 60000;

/// The remote address slot of a listener's connection key.
pub const UNDETERMINED_IP_ADDR: u32 = 0;

/// The remote port slot of a listener's connection key.
pub const UNDETERMINED_PORT: u16 = 0;

/// Errors surfaced to API callers. Inbound problems (bad checksum,
/// malformed segment, unroutable segment) never become errors: those
/// segments are silently dropped.
#[derive(Clone, Copy, Debug, PartialEq, Eq, Structural)]
pub enum TcpError {
    /// The operation named a connection key that is not in the table.
    NoSuchSocket,
    /// An active open exhausted its attempts to pick a free local port.
    NoAvailablePort,
    /// An accept found the listener's queue of completed connections empty.
    AcceptOnEmpty,
    /// The raw-IP transport failed to write an outbound packet. Produced
    /// by the shell around the library, never by the engine itself.
    TransportSendFailed,
}

} // verus!
