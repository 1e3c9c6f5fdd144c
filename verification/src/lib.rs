//! Pulsar wire protocol — shared by the relay server and the desktop app.
//!
//! Transport is UDP datagrams; each datagram carries exactly one
//! bincode-encoded message. Control/signaling flows client <-> relay; hole-punch
//! and media flow peer <-> peer once a direct path is established, or are
//! tunnelled through the relay as [`ClientMsg::RelayData`] / [`RelayMsg::RelayData`]
//! when P2P fails.
//!
//! The relay only ever sees opaque handshake/cipher blobs — it never holds the
//! session keys, so the relay is a zero-knowledge forwarder.
use vstd::prelude::*;

pub mod address;
pub mod codec;
pub mod datagram;
pub mod device_id;
pub mod laws;
pub mod layout;
pub mod le;
pub mod message;
mod random;
pub mod text;
pub mod token;
pub mod wire;

pub use device_id::DeviceId;
pub use message::{ClientMsg, ErrCode, PeerMsg, PublicKey, RelayMsg, SessionId, SocketAddr};
pub use token::Token;
pub use wire::{decode, encode, DecodeError, Wire};

verus! {

/// Bumped on any incompatible wire change.
///
/// v2: handshake blobs now carry a 32-byte per-session salt alongside the static
/// X25519 public key (relay-path `hello`/`answer` blobs become `pubkey || salt`;
/// direct-IP `Hello`/`HelloAck` gain a `salt` field). This binds the data key to
/// the specific session and fixes cross-session key/nonce reuse — both ends must
/// run v2 code (they are rebuilt together).
///
/// v3: [`RelayMsg::PeerFound`] carries `rate_cap_kbps` — the relay's per-session
/// forwarding rate cap (0 = unlimited), so a relayed client can start its encoder at
/// or below the cap instead of blasting its full target into a throttled pipe and
/// waiting for the loss-driven ABR to converge down. The format is positional, so the
/// added field is an incompatible wire change → both ends must run v3 (rebuilt
/// together; the relay rejects a mismatched-version Register up front).
pub const PROTOCOL_VERSION: u16 = 3;

/// Conservative MTU-safe datagram payload size.
pub const MAX_DATAGRAM: usize = 1400;

/// The relay's default UDP port.
pub const DEFAULT_RELAY_PORT: u16 = 21116;

/// Default UDP port a host advertises for direct (relay-less) IP connects when the
/// typed target is a bare IP with no port and the peer isn't in the LAN beacon.
/// Sits next to the relay (:21116) and discovery (:21117).
pub const DEFAULT_NODE_PORT: u16 = 21118;

} // verus!
